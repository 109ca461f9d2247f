use vstd::prelude::*;

use crate::input::{KeyAction, KeyActions, PressTypes};

verus! {

/// The default binding of `Escape`: a tap action.
pub fn escape() -> (k: KeyAction)
    ensures
        k.action == KeyActions::Escape,
        k.press_type == PressTypes::Tap,
{
    KeyAction { action: KeyActions::Escape, press_type: PressTypes::Tap }
}

/// The default binding of `Undo`: a tap action.
pub fn undo() -> (k: KeyAction)
    ensures
        k.action == KeyActions::Undo,
        k.press_type == PressTypes::Tap,
{
    KeyAction { action: KeyActions::Undo, press_type: PressTypes::Tap }
}

/// The default binding of `Debug`: a toggle action.
pub fn debug() -> (k: KeyAction)
    ensures
        k.action == KeyActions::Debug,
        k.press_type == PressTypes::Toggle,
{
    KeyAction { action: KeyActions::Debug, press_type: PressTypes::Toggle }
}

/// The default binding of `Fullscreen`: a tap action.
pub fn fullscreen() -> (k: KeyAction)
    ensures
        k.action == KeyActions::Fullscreen,
        k.press_type == PressTypes::Tap,
{
    KeyAction { action: KeyActions::Fullscreen, press_type: PressTypes::Tap }
}

/// The default binding of `Screenshot`: a tap action.
pub fn screenshot() -> (k: KeyAction)
    ensures
        k.action == KeyActions::Screenshot,
        k.press_type == PressTypes::Tap,
{
    KeyAction { action: KeyActions::Screenshot, press_type: PressTypes::Tap }
}

/// The default binding of `HideGui`: a toggle action.
pub fn hide_gui() -> (k: KeyAction)
    ensures
        k.action == KeyActions::HideGui,
        k.press_type == PressTypes::Toggle,
{
    KeyAction { action: KeyActions::HideGui, press_type: PressTypes::Toggle }
}

/// The default binding of `Player`: a toggle action.
pub fn player() -> (k: KeyAction)
    ensures
        k.action == KeyActions::Player,
        k.press_type == PressTypes::Toggle,
{
    KeyAction { action: KeyActions::Player, press_type: PressTypes::Toggle }
}

} // verus!
