use vstd::prelude::*;

use crate::game::tile::coord::TileCoord;
use crate::util::id::Id;

pub mod interactive;

verus! {

/// The screens of the game's interface.
#[derive(Copy, Clone, Debug, PartialEq, Eq, Structural)]
pub enum Screen {
    MainMenu,
    MapLoad,
    Options,
    Ingame,
    Paused,
}

/// The pages of the options screen.
#[derive(Copy, Clone, Debug, PartialEq, Eq, Structural)]
pub enum OptionsMenuState {
    Graphics,
    Audio,
    Gui,
    Controls,
}

/// The part of a screen that is shown.
#[derive(Copy, Clone, Debug, PartialEq, Eq, Structural)]
pub enum SubState {
    /// Nothing beyond the screen itself.
    Empty,
    Options(OptionsMenuState),
}

/// The popups shown over the interface, if any.
#[derive(Clone, Debug, PartialEq, Eq)]
pub enum PopupState {
    /// No popup is open.
    Closed,
    MapCreate,
    MapDeleteConfirmation(String),
    InvalidName,
}

/// The text fields of the interface.
#[derive(Copy, Clone, Debug, PartialEq, Eq, Structural, PartialOrd, Ord)]
pub enum TextField {
    Filter,
    MapRenaming,
    MapName,
}

/// The contents of each text field.
pub struct TextFieldState {
    filter: String,
    map_renaming: String,
    map_name: String,
}

impl TextFieldState {
    /// The text held by `field`.
    pub closed spec fn text(&self, field: TextField) -> Seq<char> {
        match field {
            TextField::Filter => self.filter@,
            TextField::MapRenaming => self.map_renaming@,
            TextField::MapName => self.map_name@,
        }
    }

    /// Every field empty.
    pub fn new() -> (t: TextFieldState)
        ensures
            forall|f: TextField| #[trigger] t.text(f) == Seq::<char>::empty(),
    {
        TextFieldState { filter: String::new(), map_renaming: String::new(), map_name: String::new() }
    }

    /// The text of `field`, to read or edit in place.
    pub fn get(&mut self, field: TextField) -> (s: &mut String)
        ensures
            s@ == old(self).text(field),
            final(self).text(field) == final(s)@,
            forall|f: TextField| f != field ==> #[trigger] final(self).text(f) == old(self).text(f),
    {
        match field {
            TextField::Filter => &mut self.filter,
            TextField::MapRenaming => &mut self.map_renaming,
            TextField::MapName => &mut self.map_name,
        }
    }

    /// Hands out the text of `field` and leaves the field empty.
    pub fn take(&mut self, field: TextField) -> (s: String)
        ensures
            s@ == old(self).text(field),
            final(self).text(field) == Seq::<char>::empty(),
            forall|f: TextField| f != field ==> #[trigger] final(self).text(f) == old(self).text(f),
    {
        let mut out = String::new();
        match field {
            TextField::Filter => std::mem::swap(&mut out, &mut self.filter),
            TextField::MapRenaming => std::mem::swap(&mut out, &mut self.map_renaming),
            TextField::MapName => std::mem::swap(&mut out, &mut self.map_name),
        }
        out
    }
}

/// The screen shown and the one to go back to.
pub open spec fn switched(screen: Screen, previous: Option<Screen>, new: Screen) -> (
    Screen,
    Option<Screen>,
) {
    (new, Some(screen))
}

/// The screen shown after going back, and the one to go back to then.
pub open spec fn returned(screen: Screen, previous: Option<Screen>) -> (Screen, Option<Screen>) {
    match previous {
        Some(prev) => (prev, None),
        None => (screen, None),
    }
}

/// The state of the game's interface that its screens and menus act on.
pub struct GuiState {
    pub screen: Screen,
    pub previous: Option<Screen>,
    pub substate: SubState,
    pub popup: PopupState,
    pub debugger_open: bool,
    pub text_field: TextFieldState,
    pub renaming_map: Option<String>,
    pub tile_selection_category: Option<Id>,
    /// The tile selected for placing.
    pub selected_tile_id: Option<Id>,
    /// The last placed tile, to stop repeated placing at one spot.
    pub already_placed_at: Option<TileCoord>,
    /// The tile whose configuration menu is open.
    pub config_open_at: Option<TileCoord>,
    /// The tile being linked from.
    pub linking_tile: Option<(TileCoord, Id)>,
    /// Where a move or copy of tiles started.
    pub paste_from: Option<TileCoord>,
    pub force_show_puzzle: bool,
    pub selected_research: Option<Id>,
    pub selected_research_puzzle_tile: Option<TileCoord>,
}

impl GuiState {
    /// The starting state: the main menu, nothing selected or open.
    pub fn new() -> (g: GuiState)
        ensures
            g.screen == Screen::MainMenu,
            g.previous is None,
            g.substate == SubState::Empty,
            g.popup == PopupState::Closed,
            !g.debugger_open,
            forall|f: TextField| #[trigger] g.text_field.text(f) == Seq::<char>::empty(),
            g.renaming_map is None,
            g.tile_selection_category is None,
            g.selected_tile_id is None,
            g.already_placed_at is None,
            g.config_open_at is None,
            g.linking_tile is None,
            g.paste_from is None,
            !g.force_show_puzzle,
            g.selected_research is None,
            g.selected_research_puzzle_tile is None,
    {
        GuiState {
            screen: Screen::MainMenu,
            previous: None,
            substate: SubState::Empty,
            popup: PopupState::Closed,
            debugger_open: false,
            text_field: TextFieldState::new(),
            renaming_map: None,
            tile_selection_category: None,
            selected_tile_id: None,
            already_placed_at: None,
            config_open_at: None,
            linking_tile: None,
            paste_from: None,
            force_show_puzzle: false,
            selected_research: None,
            selected_research_puzzle_tile: None,
        }
    }

    /// Everything but the screen, the screen to go back to and the sub-state
    /// is the same in both.
    pub open spec fn same_besides_screens(&self, other: &GuiState) -> bool {
        &&& self.popup == other.popup
        &&& self.debugger_open == other.debugger_open
        &&& forall|f: TextField| #[trigger] self.text_field.text(f) == other.text_field.text(f)
        &&& self.renaming_map == other.renaming_map
        &&& self.tile_selection_category == other.tile_selection_category
        &&& self.selected_tile_id == other.selected_tile_id
        &&& self.already_placed_at == other.already_placed_at
        &&& self.config_open_at == other.config_open_at
        &&& self.linking_tile == other.linking_tile
        &&& self.paste_from == other.paste_from
        &&& self.force_show_puzzle == other.force_show_puzzle
        &&& self.selected_research == other.selected_research
        &&& self.selected_research_puzzle_tile == other.selected_research_puzzle_tile
    }

    /// Goes back to the screen switched from, if there is one; there is
    /// none to go back to afterwards.
    pub fn return_screen(&mut self)
        ensures
            (final(self).screen, final(self).previous) == returned(
                old(self).screen,
                old(self).previous,
            ),
            final(self).substate == old(self).substate,
            final(self).same_besides_screens(old(self)),
    {
        if let Some(prev) = self.previous {
            self.screen = prev;
        }
        self.previous = None;
    }

    /// Shows `new`, remembering the screen shown until now.
    pub fn switch_screen(&mut self, new: Screen)
        ensures
            (final(self).screen, final(self).previous) == switched(
                old(self).screen,
                old(self).previous,
                new,
            ),
            final(self).substate == old(self).substate,
            final(self).same_besides_screens(old(self)),
    {
        self.previous = Some(self.screen);
        self.screen = new;
    }

    /// Shows `new` with the part `sub` of it.
    pub fn switch_screen_sub(&mut self, new: Screen, sub: SubState)
        ensures
            (final(self).screen, final(self).previous) == switched(
                old(self).screen,
                old(self).previous,
                new,
            ),
            final(self).substate == sub,
            final(self).same_besides_screens(old(self)),
    {
        self.switch_screen(new);
        self.substate = sub;
    }

    /// Shows `new` when `cond` holds of the state, and says whether it did.
    pub fn switch_screen_when<F: Fn(&GuiState) -> bool>(
        &mut self,
        cond: &F,
        new: Screen,
    ) -> (done: bool)
        requires
            cond.requires((&*old(self),)),
        ensures
            cond.ensures((&*old(self),), done),
            done ==> (final(self).screen, final(self).previous) == switched(
                old(self).screen,
                old(self).previous,
                new,
            ),
            !done ==> final(self).screen == old(self).screen && final(self).previous == old(
                self,
            ).previous,
            final(self).substate == old(self).substate,
            final(self).same_besides_screens(old(self)),
    {
        if cond(&*self) {
            self.switch_screen(new);
            true
        } else {
            false
        }
    }
}

/// Going back right after a switch shows again the screen that was shown
/// before the switch, and leaves nothing to go back to.
pub proof fn law_return_undoes_switch(screen: Screen, previous: Option<Screen>, new: Screen)
    ensures
        ({
            let s = switched(screen, previous, new);
            returned(s.0, s.1) == (screen, None::<Screen>)
        }),
{
}

/// Going back twice in a row is the same as going back once.
pub proof fn law_return_is_idempotent(screen: Screen, previous: Option<Screen>)
    ensures
        ({
            let once = returned(screen, previous);
            returned(once.0, once.1) == once
        }),
{
}

} // verus!
