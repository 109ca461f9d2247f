use automancy::input::actions;
use automancy::input::{
    default_keymap, lookup, ElementState, GameInputEvent, InputHandler, Key, KeyAction, KeyActions, Keymap,
    PressTypes,
};
use automancy::options::load_keymap;

fn ch(s: &str) -> Key {
    Key::Character(s.to_string())
}

fn named(s: &str) -> Key {
    Key::Named(s.to_string())
}

/// A keymap binding each action to a key of its own, with a hold key.
fn keymap() -> Keymap {
    let mut m = default_keymap();
    m.push((ch("h"), KeyAction { action: KeyActions::Player, press_type: PressTypes::Hold }));
    m
}

fn key_for(action: KeyAction) -> Key {
    match (action.action, action.press_type) {
        (KeyActions::Undo, _) => ch("z"),
        (KeyActions::Escape, _) => named("Escape"),
        (KeyActions::Debug, _) => named("F3"),
        (KeyActions::Player, PressTypes::Hold) => ch("h"),
        (KeyActions::Player, _) => ch("e"),
        (KeyActions::HideGui, _) => named("F1"),
        (KeyActions::Screenshot, _) => named("F2"),
        (KeyActions::Fullscreen, _) => named("F11"),
    }
}

fn key(state: ElementState, action: KeyAction) -> GameInputEvent {
    GameInputEvent::KeyboardEvent { state, key: key_for(action) }
}

#[test]
fn default_bindings() {
    assert_eq!(actions::escape(), KeyAction { action: KeyActions::Escape, press_type: PressTypes::Tap });
    assert_eq!(actions::undo(), KeyAction { action: KeyActions::Undo, press_type: PressTypes::Tap });
    assert_eq!(actions::debug(), KeyAction { action: KeyActions::Debug, press_type: PressTypes::Toggle });
    assert_eq!(actions::fullscreen(), KeyAction { action: KeyActions::Fullscreen, press_type: PressTypes::Tap });
    assert_eq!(actions::screenshot(), KeyAction { action: KeyActions::Screenshot, press_type: PressTypes::Tap });
    assert_eq!(actions::hide_gui(), KeyAction { action: KeyActions::HideGui, press_type: PressTypes::Toggle });
    assert_eq!(actions::player(), KeyAction { action: KeyActions::Player, press_type: PressTypes::Toggle });
}

#[test]
fn action_codes_are_distinct() {
    let all = [
        KeyActions::Escape,
        KeyActions::Undo,
        KeyActions::Debug,
        KeyActions::Fullscreen,
        KeyActions::Screenshot,
        KeyActions::HideGui,
        KeyActions::Player,
    ];
    let codes: Vec<u8> = all.iter().map(|a| a.to_code()).collect();
    assert_eq!(codes, vec![0, 1, 2, 3, 4, 5, 6]);
}

#[test]
fn new_handler_is_idle() {
    let h = InputHandler::new(keymap());
    assert!(!h.main_held && !h.main_pressed && !h.shift_held);
    assert!(!h.key_active(KeyActions::Escape));
    assert!(h.to_clear.is_empty());
}

#[test]
fn tap_lasts_until_the_frame_ends() {
    let mut h = InputHandler::new(keymap());
    h.update(key(ElementState::Pressed, actions::undo()));
    assert!(h.key_active(KeyActions::Undo));
    h.reset();
    assert!(!h.key_active(KeyActions::Undo));
    assert!(h.to_clear.is_empty());
}

#[test]
fn tap_release_ends_it_early() {
    let mut h = InputHandler::new(keymap());
    h.update(key(ElementState::Pressed, actions::escape()));
    h.update(key(ElementState::Released, actions::escape()));
    assert!(!h.key_active(KeyActions::Escape));
}

#[test]
fn toggle_twice_restores() {
    let mut h = InputHandler::new(keymap());
    h.update(key(ElementState::Pressed, actions::debug()));
    assert!(h.key_active(KeyActions::Debug));
    h.update(key(ElementState::Released, actions::debug()));
    assert!(h.key_active(KeyActions::Debug));
    h.reset();
    assert!(h.key_active(KeyActions::Debug));
    h.update(key(ElementState::Pressed, actions::debug()));
    assert!(!h.key_active(KeyActions::Debug));
}

#[test]
fn hold_follows_the_key() {
    let hold = KeyAction { action: KeyActions::Player, press_type: PressTypes::Hold };
    let mut h = InputHandler::new(keymap());
    h.update(key(ElementState::Pressed, hold));
    assert!(h.key_active(KeyActions::Player));
    h.reset();
    assert!(h.key_active(KeyActions::Player));
    h.update(key(ElementState::Released, hold));
    assert!(!h.key_active(KeyActions::Player));
}

#[test]
fn unbound_key_changes_nothing() {
    let mut h = InputHandler::new(keymap());
    assert_eq!(h.handle_key(ElementState::Pressed, &ch("q")), None);
    assert_eq!(h.handle_key(ElementState::Pressed, &named("z")), None);
    assert!(!h.key_active(KeyActions::Undo));
    assert_eq!(h.handle_key(ElementState::Pressed, &ch("z")), Some(()));
    assert!(h.key_active(KeyActions::Undo));
}

#[test]
fn default_keymap_bindings() {
    let m = default_keymap();
    assert_eq!(m.len(), 7);
    assert_eq!(lookup(&m, &ch("z")), Some(actions::undo()));
    assert_eq!(lookup(&m, &ch("e")), Some(actions::player()));
    assert_eq!(lookup(&m, &named("Escape")), Some(actions::escape()));
    assert_eq!(lookup(&m, &named("F1")), Some(actions::hide_gui()));
    assert_eq!(lookup(&m, &named("F2")), Some(actions::screenshot()));
    assert_eq!(lookup(&m, &named("F3")), Some(actions::debug()));
    assert_eq!(lookup(&m, &named("F11")), Some(actions::fullscreen()));
    assert_eq!(lookup(&m, &ch("F1")), None);
}

#[test]
fn keys_compare_by_kind_and_text() {
    assert!(ch("a").same(&ch("a")));
    assert!(!ch("a").same(&ch("b")));
    assert!(!ch("F1").same(&named("F1")));
}

#[test]
fn loading_keeps_press_types_and_takes_read_actions() {
    let read = vec![
        (ch("z"), KeyAction { action: KeyActions::Screenshot, press_type: PressTypes::Toggle }),
        (named("F2"), KeyAction { action: KeyActions::Undo, press_type: PressTypes::Hold }),
    ];
    let m = load_keymap(default_keymap(), read);
    assert_eq!(lookup(&m, &ch("z")), Some(KeyAction { action: KeyActions::Screenshot, press_type: PressTypes::Tap }));
    assert_eq!(lookup(&m, &named("F2")), Some(KeyAction { action: KeyActions::Undo, press_type: PressTypes::Tap }));
    assert_eq!(lookup(&m, &ch("e")), Some(actions::player()));
}

#[test]
fn loading_resets_when_an_action_gets_two_keys() {
    let read = vec![(ch("z"), KeyAction { action: KeyActions::Player, press_type: PressTypes::Tap })];
    let m = load_keymap(default_keymap(), read);
    assert_eq!(lookup(&m, &ch("z")), Some(actions::undo()));
    assert_eq!(lookup(&m, &ch("e")), Some(actions::player()));
    for (i, (_, a)) in m.iter().enumerate() {
        for (j, (_, b)) in m.iter().enumerate() {
            assert!(i == j || a.action != b.action);
        }
    }
}

#[test]
fn buttons_press_and_hold() {
    let mut h = InputHandler::new(keymap());
    h.update(GameInputEvent::MainPressed);
    h.update(GameInputEvent::AlternatePressed);
    assert!(h.main_pressed && h.main_held && h.alternate_pressed && h.alternate_held);
    h.reset();
    assert!(!h.main_pressed && h.main_held);
    h.update(GameInputEvent::MainReleased);
    assert!(!h.main_held && h.alternate_held);
    h.update(GameInputEvent::TertiaryPressed);
    h.update(GameInputEvent::TertiaryReleased);
    assert!(h.tertiary_pressed && !h.tertiary_held);
}

#[test]
fn modifiers_follow_the_last_change() {
    let mut h = InputHandler::new(keymap());
    h.update(GameInputEvent::ModifierChanged { shift: true, control: false });
    assert!(h.shift_held && !h.control_held);
    h.update(GameInputEvent::ModifierChanged { shift: false, control: true });
    assert!(!h.shift_held && h.control_held);
    h.update(GameInputEvent::ExitPressed);
    h.update(GameInputEvent::NoEvent);
    assert!(!h.shift_held && h.control_held);
}

#[test]
fn a_button_event_leaves_the_other_buttons_and_keys_alone() {
    let mut h = InputHandler::new(keymap());
    h.update(GameInputEvent::ModifierChanged { shift: true, control: false });
    h.update(key(ElementState::Pressed, actions::debug()));
    h.update(GameInputEvent::AlternatePressed);
    h.update(GameInputEvent::MainPressed);
    assert!(h.main_held && h.main_pressed);
    assert!(h.alternate_held && h.alternate_pressed);
    assert!(!h.tertiary_held && !h.tertiary_pressed);
    assert!(h.shift_held && !h.control_held);
    assert!(h.key_active(KeyActions::Debug));
    h.update(GameInputEvent::MainReleased);
    assert!(!h.main_held && h.main_pressed);
    assert!(h.alternate_held && h.alternate_pressed);
    assert!(h.shift_held);
    assert!(h.key_active(KeyActions::Debug));
    assert_eq!(h.key_map.len(), keymap().len());
}

#[test]
fn reset_after_a_frame_clears_only_its_taps() {
    let mut h = InputHandler::new(keymap());
    h.update(key(ElementState::Pressed, actions::undo()));
    h.update(key(ElementState::Pressed, actions::debug()));
    h.update(key(ElementState::Pressed, KeyAction { action: KeyActions::Player, press_type: PressTypes::Hold }));
    h.update(key(ElementState::Pressed, actions::screenshot()));
    h.update(GameInputEvent::MainPressed);
    h.reset();
    assert!(!h.key_active(KeyActions::Undo));
    assert!(!h.key_active(KeyActions::Screenshot));
    assert!(h.key_active(KeyActions::Debug));
    assert!(h.key_active(KeyActions::Player));
    assert!(h.main_held && !h.main_pressed);
}
