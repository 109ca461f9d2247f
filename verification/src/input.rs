use vstd::prelude::*;
use vstd::string::StringExecFns;

pub mod actions;

verus! {

/// The actions that keys can be bound to.
#[derive(Copy, Clone, Debug, PartialEq, Eq, Structural, PartialOrd, Ord, Hash)]
pub enum KeyActions {
    Escape,
    Undo,
    Debug,
    Fullscreen,
    Screenshot,
    HideGui,
    Player,
}

impl KeyActions {
    /// The small integer that stands for this action in a key-state set.
    pub open spec fn code(self) -> u8 {
        match self {
            KeyActions::Escape => 0,
            KeyActions::Undo => 1,
            KeyActions::Debug => 2,
            KeyActions::Fullscreen => 3,
            KeyActions::Screenshot => 4,
            KeyActions::HideGui => 5,
            KeyActions::Player => 6,
        }
    }

    /// The code of this action, as `code` states it.
    pub fn to_code(self) -> (c: u8)
        ensures
            c == self.code(),
    {
        match self {
            KeyActions::Escape => 0,
            KeyActions::Undo => 1,
            KeyActions::Debug => 2,
            KeyActions::Fullscreen => 3,
            KeyActions::Screenshot => 4,
            KeyActions::HideGui => 5,
            KeyActions::Player => 6,
        }
    }
}

/// How a bound key drives its action.
#[derive(Copy, Clone, Debug, PartialEq, Eq, Structural, PartialOrd, Ord, Hash)]
pub enum PressTypes {
    /// Active from the press until the end of the frame, or until released.
    Tap,
    /// Active while the key is down.
    Hold,
    /// Each press switches the action on or off.
    Toggle,
}

/// An action together with the way its key drives it.
#[derive(Copy, Clone, Debug, PartialEq, Eq, Structural, PartialOrd, Ord, Hash)]
pub struct KeyAction {
    pub action: KeyActions,
    pub press_type: PressTypes,
}

/// Whether a key went down or came up.
#[derive(Copy, Clone, Debug, PartialEq, Eq, Structural)]
pub enum ElementState {
    Pressed,
    Released,
}

/// A `hashbrown::HashSet` of action codes. Verus does not accept a
/// declaration of the set type itself, so it is held here, opaque, and each
/// operation goes through a trusted method below.
#[verifier::external_body]
pub struct KeySet {
    set: hashbrown::HashSet<u8>,
}

/// What a `KeySet` holds.
pub uninterp spec fn key_set(s: KeySet) -> Set<u8>;

impl View for KeySet {
    type V = Set<u8>;

    open spec fn view(&self) -> Set<u8> {
        key_set(*self)
    }
}

impl KeySet {
    /// An empty set, from `hashbrown::HashSet::new`.
    ///
    /// Trusted: a new set holds nothing.
    #[verifier::external_body]
    pub(crate) fn new() -> (s: KeySet)
        ensures
            key_set(s) == Set::<u8>::empty(),
    {
        KeySet { set: hashbrown::HashSet::new() }
    }

    /// Adds `k`, from `hashbrown::HashSet::insert`.
    ///
    /// Trusted: afterwards the set is the old one with `k` added; the result
    /// says whether `k` was absent before.
    #[verifier::external_body]
    pub(crate) fn insert(&mut self, k: u8) -> (added: bool)
        ensures
            key_set(*final(self)) == key_set(*old(self)).insert(k),
            added == !key_set(*old(self)).contains(k),
    {
        self.set.insert(k)
    }

    /// Removes `k`, from `hashbrown::HashSet::remove`.
    ///
    /// Trusted: afterwards the set is the old one without `k`; the result
    /// says whether `k` was present before.
    #[verifier::external_body]
    pub(crate) fn remove(&mut self, k: u8) -> (removed: bool)
        ensures
            key_set(*final(self)) == key_set(*old(self)).remove(k),
            removed == key_set(*old(self)).contains(k),
    {
        self.set.remove(&k)
    }

    /// Whether `k` is in the set, from `hashbrown::HashSet::contains`.
    ///
    /// Trusted: the result is membership; the set is unchanged.
    #[verifier::external_body]
    pub(crate) fn contains(&self, k: u8) -> (present: bool)
        ensures
            present == key_set(*self).contains(k),
    {
        self.set.contains(&k)
    }
}

impl Clone for KeySet {
    /// A copy of the set, from `hashbrown::HashSet::clone`.
    ///
    /// Trusted: the copy holds the same codes.
    #[verifier::external_body]
    fn clone(&self) -> (copy: KeySet)
        ensures
            key_set(copy) == key_set(*self),
    {
        KeySet { set: self.set.clone() }
    }
}

/// A key of the keyboard: a character key by the text it types, or a
/// named key (such as `Escape` or `F1`) by its name.
pub enum Key {
    Character(String),
    Named(String),
}

impl View for Key {
    type V = (bool, Seq<char>);

    open spec fn view(&self) -> (bool, Seq<char>) {
        match self {
            Key::Character(s) => (true, s@),
            Key::Named(s) => (false, s@),
        }
    }
}

impl Key {
    /// Whether two keys are the same key.
    pub fn same(&self, other: &Key) -> (b: bool)
        ensures
            b == (self@ == other@),
    {
        match (self, other) {
            (Key::Character(a), Key::Character(b)) => *a == *b,
            (Key::Named(a), Key::Named(b)) => *a == *b,
            _ => false,
        }
    }
}

impl Clone for Key {
    fn clone(&self) -> (k: Key)
        ensures
            k@ == self@,
    {
        match self {
            Key::Character(s) => Key::Character(s.clone()),
            Key::Named(s) => Key::Named(s.clone()),
        }
    }
}

/// The bindings of keys to actions, each key at most once.
pub type Keymap = Vec<(Key, KeyAction)>;

/// The content of a keymap.
pub open spec fn keymap_view(m: Seq<(Key, KeyAction)>) -> Seq<((bool, Seq<char>), KeyAction)> {
    m.map_values(|e: (Key, KeyAction)| (e.0@, e.1))
}

/// No key is bound twice.
pub open spec fn keys_distinct(m: Seq<((bool, Seq<char>), KeyAction)>) -> bool {
    forall|i: int, j: int| 0 <= i < m.len() && 0 <= j < m.len() && i != j ==> (#[trigger] m[i]).0 != (#[trigger] m[j]).0
}

/// The action bound to `k`, if any: that of the first entry for `k`.
pub open spec fn bound(m: Seq<((bool, Seq<char>), KeyAction)>, k: (bool, Seq<char>)) -> Option<KeyAction>
    decreases m.len(),
{
    if m.len() == 0 {
        None
    } else if m[0].0 == k {
        Some(m[0].1)
    } else {
        bound(m.drop_first(), k)
    }
}

/// The action bound to `k` in `m`, if any.
pub fn lookup(m: &Keymap, k: &Key) -> (r: Option<KeyAction>)
    ensures
        r == bound(keymap_view(m@), k@),
{
    let ghost mv = keymap_view(m@);
    assert(mv.subrange(0, mv.len() as int) =~= mv);
    let mut i: usize = 0;
    while i < m.len()
        invariant
            0 <= i <= m@.len(),
            mv == keymap_view(m@),
            bound(mv.subrange(i as int, mv.len() as int), k@) == bound(mv, k@),
        decreases m.len() - i,
    {
        let ghost rest = mv.subrange(i as int, mv.len() as int);
        assert(rest.drop_first() =~= mv.subrange(i + 1, mv.len() as int));
        assert(rest[0] == mv[i as int]);
        if m[i].0.same(k) {
            return Some(m[i].1);
        }
        i = i + 1;
    }
    assert(mv.subrange(i as int, mv.len() as int) =~= Seq::<((bool, Seq<char>), KeyAction)>::empty());
    None
}

/// No action is bound to two keys.
pub open spec fn actions_distinct(m: Seq<((bool, Seq<char>), KeyAction)>) -> bool {
    forall|i: int, j: int|
        0 <= i < m.len() && 0 <= j < m.len() && i != j ==> (#[trigger] m[i]).1.action != (#[trigger] m[j]).1.action
}

/// The keymap `m` with the actions read from a settings file: each key
/// keeps its press type and takes the action read for it, if one was.
pub open spec fn with_read_actions(
    m: Seq<((bool, Seq<char>), KeyAction)>,
    read: Seq<((bool, Seq<char>), KeyAction)>,
) -> Seq<((bool, Seq<char>), KeyAction)> {
    m.map_values(|e: ((bool, Seq<char>), KeyAction)| match bound(read, e.0) {
        Some(r) => (e.0, KeyAction { action: r.action, press_type: e.1.press_type }),
        None => e,
    })
}

/// The keymap that loading settings gives: the default one with the read
/// actions, unless that binds an action to two keys, in which case the
/// default one.
pub open spec fn loaded_keymap(
    default: Seq<((bool, Seq<char>), KeyAction)>,
    read: Seq<((bool, Seq<char>), KeyAction)>,
) -> Seq<((bool, Seq<char>), KeyAction)> {
    let merged = with_read_actions(default, read);
    if actions_distinct(merged) {
        merged
    } else {
        default
    }
}

/// The input events that the key and button state reacts to. Pointer
/// positions and scroll amounts carry floating-point values and are kept by
/// the caller.
pub enum GameInputEvent {
    NoEvent,
    MainPressed,
    MainReleased,
    AlternatePressed,
    AlternateReleased,
    TertiaryPressed,
    TertiaryReleased,
    ExitPressed,
    ExitReleased,
    ModifierChanged { shift: bool, control: bool },
    KeyboardEvent { state: ElementState, key: Key },
}

/// The active actions and the taps still to clear, after one key event.
pub open spec fn key_step(
    active: Set<u8>,
    to_clear: Seq<KeyAction>,
    state: ElementState,
    action: KeyAction,
) -> (Set<u8>, Seq<KeyAction>) {
    let c = action.action.code();
    match action.press_type {
        PressTypes::Tap => match state {
            ElementState::Pressed => (active.insert(c), to_clear.push(action)),
            ElementState::Released => (active.remove(c), to_clear),
        },
        PressTypes::Hold => match state {
            ElementState::Pressed => (active.insert(c), to_clear),
            ElementState::Released => (active.remove(c), to_clear),
        },
        PressTypes::Toggle => match state {
            ElementState::Pressed => if active.contains(c) {
                (active.remove(c), to_clear)
            } else {
                (active.insert(c), to_clear)
            },
            ElementState::Released => (active, to_clear),
        },
    }
}

/// The active actions once every tap in `to_clear` is cleared.
pub open spec fn cleared(active: Set<u8>, to_clear: Seq<KeyAction>) -> Set<u8> {
    active.filter(|c: u8| !exists|i: int| 0 <= i < to_clear.len() && #[trigger] to_clear[i].action.code() == c)
}

/// The state of the mouse buttons, the modifier keys and the bound actions.
pub struct InputHandler {
    pub main_held: bool,
    pub alternate_held: bool,
    pub tertiary_held: bool,
    pub control_held: bool,
    pub shift_held: bool,
    pub main_pressed: bool,
    pub alternate_pressed: bool,
    pub tertiary_pressed: bool,
    /// The key bound to each action.
    pub key_map: Keymap,
    pub key_states: KeySet,
    pub to_clear: Vec<KeyAction>,
}

/// The mouse button flags of a handler: main held and pressed, alternate
/// held and pressed, tertiary held and pressed.
pub open spec fn buttons(h: &InputHandler) -> (bool, bool, bool, bool, bool, bool) {
    (h.main_held, h.main_pressed, h.alternate_held, h.alternate_pressed, h.tertiary_held, h.tertiary_pressed)
}

/// The button flags after `event`: a press holds the button and marks it
/// pressed, a release lets it go and leaves its pressed mark, and any other
/// event leaves the flags alone.
pub open spec fn button_step(
    b: (bool, bool, bool, bool, bool, bool),
    event: GameInputEvent,
) -> (bool, bool, bool, bool, bool, bool) {
    match event {
        GameInputEvent::MainPressed => (true, true, b.2, b.3, b.4, b.5),
        GameInputEvent::MainReleased => (false, b.1, b.2, b.3, b.4, b.5),
        GameInputEvent::AlternatePressed => (b.0, b.1, true, true, b.4, b.5),
        GameInputEvent::AlternateReleased => (b.0, b.1, false, b.3, b.4, b.5),
        GameInputEvent::TertiaryPressed => (b.0, b.1, b.2, b.3, true, true),
        GameInputEvent::TertiaryReleased => (b.0, b.1, b.2, b.3, false, b.5),
        _ => b,
    }
}

impl InputHandler {
    /// The taps that the next `reset` clears.
    pub open spec fn pending(&self) -> Seq<KeyAction> {
        self.to_clear@
    }

    /// A handler with the bindings `key_map` and nothing held, pressed or
    /// active.
    pub fn new(key_map: Keymap) -> (h: InputHandler)
        ensures
            keymap_view(h.key_map@) == keymap_view(key_map@),
            !h.main_held && !h.alternate_held && !h.tertiary_held,
            !h.control_held && !h.shift_held,
            !h.main_pressed && !h.alternate_pressed && !h.tertiary_pressed,
            h.key_states@ == Set::<u8>::empty(),
            h.pending() == Seq::<KeyAction>::empty(),
    {
        InputHandler {
            main_held: false,
            alternate_held: false,
            tertiary_held: false,
            control_held: false,
            shift_held: false,
            main_pressed: false,
            alternate_pressed: false,
            tertiary_pressed: false,
            key_map,
            key_states: KeySet::new(),
            to_clear: Vec::new(),
        }
    }

    /// Ends a frame: the one-frame presses are forgotten and every tapped
    /// action is switched off.
    pub fn reset(&mut self)
        ensures
            !final(self).main_pressed && !final(self).alternate_pressed
                && !final(self).tertiary_pressed,
            final(self).main_held == old(self).main_held,
            final(self).alternate_held == old(self).alternate_held,
            final(self).tertiary_held == old(self).tertiary_held,
            final(self).control_held == old(self).control_held,
            final(self).shift_held == old(self).shift_held,
            final(self).key_states@ == cleared(old(self).key_states@, old(self).pending()),
            final(self).pending() == Seq::<KeyAction>::empty(),
            final(self).key_map@ == old(self).key_map@,
    {
        self.main_pressed = false;
        self.alternate_pressed = false;
        self.tertiary_pressed = false;

        let mut taps: Vec<KeyAction> = Vec::new();
        std::mem::swap(&mut taps, &mut self.to_clear);
        let ghost start = self.key_states@;
        let mut i: usize = 0;
        while i < taps.len()
            invariant
                0 <= i <= taps.len(),
                self.key_states@ == cleared(start, taps@.subrange(0, i as int)),
                taps@ == old(self).to_clear@,
                start == old(self).key_states@,
                self.to_clear@ == Seq::<KeyAction>::empty(),
                !self.main_pressed && !self.alternate_pressed && !self.tertiary_pressed,
                self.main_held == old(self).main_held,
                self.alternate_held == old(self).alternate_held,
                self.tertiary_held == old(self).tertiary_held,
                self.control_held == old(self).control_held,
                self.shift_held == old(self).shift_held,
                self.key_map@ == old(self).key_map@,
            decreases taps.len() - i,
        {
            let code = taps[i].action.to_code();
            self.key_states.remove(code);
            proof {
                let before = taps@.subrange(0, i as int);
                let after = taps@.subrange(0, i + 1);
                assert(after =~= before.push(taps@[i as int]));
                assert(cleared(start, after) =~= cleared(start, before).remove(code)) by {
                    assert forall|c: u8| cleared(start, after).contains(c)
                        <==> cleared(start, before).remove(code).contains(c) by {
                        if exists|j: int| 0 <= j < before.len() && #[trigger] before[j].action.code() == c {
                            let j = choose|j: int| 0 <= j < before.len() && #[trigger] before[j].action.code() == c;
                            assert(after[j] == before[j]);
                        }
                        if c == code {
                            assert(after[i as int].action.code() == c);
                        }
                    }
                }
            }
            i = i + 1;
        }
        assert(taps@.subrange(0, taps.len() as int) =~= taps@);
    }

    /// Reacts to one input event.
    pub fn update(&mut self, event: GameInputEvent)
        ensures
            buttons(&*final(self)) == button_step(buttons(&*old(self)), event),
            match event {
                GameInputEvent::ModifierChanged { shift, control } => final(self).shift_held == shift
                    && final(self).control_held == control,
                _ => final(self).shift_held == old(self).shift_held
                    && final(self).control_held == old(self).control_held,
            },
            match event {
                GameInputEvent::KeyboardEvent { state, key } => match bound(keymap_view(old(self).key_map@), key@) {
                    Some(a) => (final(self).key_states@, final(self).pending()) == key_step(
                        old(self).key_states@,
                        old(self).pending(),
                        state,
                        a,
                    ),
                    None => final(self).key_states@ == old(self).key_states@
                        && final(self).pending() == old(self).pending(),
                },
                _ => final(self).key_states@ == old(self).key_states@
                    && final(self).pending() == old(self).pending(),
            },
            final(self).key_map@ == old(self).key_map@,
    {
        match event {
            GameInputEvent::MainPressed => {
                self.main_pressed = true;
                self.main_held = true;
            },
            GameInputEvent::MainReleased => {
                self.main_held = false;
            },
            GameInputEvent::AlternatePressed => {
                self.alternate_pressed = true;
                self.alternate_held = true;
            },
            GameInputEvent::AlternateReleased => {
                self.alternate_held = false;
            },
            GameInputEvent::TertiaryPressed => {
                self.tertiary_pressed = true;
                self.tertiary_held = true;
            },
            GameInputEvent::TertiaryReleased => {
                self.tertiary_held = false;
            },
            GameInputEvent::ModifierChanged { shift, control } => {
                self.shift_held = false;
                self.control_held = false;
                if shift {
                    self.shift_held = true;
                }
                if control {
                    self.control_held = true;
                }
            },
            GameInputEvent::KeyboardEvent { state, key } => {
                let _ = self.handle_key(state, &key);
            },
            _ => {},
        }
    }

    /// Applies a key event to the action the key is bound to; `None`, and
    /// nothing changed, when the key is bound to none.
    pub fn handle_key(&mut self, state: ElementState, key: &Key) -> (r: Option<()>)
        ensures
            r is Some <==> bound(keymap_view(old(self).key_map@), key@) is Some,
            match bound(keymap_view(old(self).key_map@), key@) {
                Some(a) => (final(self).key_states@, final(self).pending()) == key_step(
                    old(self).key_states@,
                    old(self).pending(),
                    state,
                    a,
                ),
                None => final(self).key_states@ == old(self).key_states@
                    && final(self).pending() == old(self).pending(),
            },
            final(self).key_map@ == old(self).key_map@,
            final(self).main_held == old(self).main_held,
            final(self).alternate_held == old(self).alternate_held,
            final(self).tertiary_held == old(self).tertiary_held,
            final(self).control_held == old(self).control_held,
            final(self).shift_held == old(self).shift_held,
            final(self).main_pressed == old(self).main_pressed,
            final(self).alternate_pressed == old(self).alternate_pressed,
            final(self).tertiary_pressed == old(self).tertiary_pressed,
    {
        let action = match lookup(&self.key_map, key) {
            Some(a) => a,
            None => {
                return None;
            },
        };
        let code = action.action.to_code();
        match action.press_type {
            PressTypes::Tap => match state {
                ElementState::Pressed => {
                    self.key_states.insert(code);
                    self.to_clear.push(action);
                },
                ElementState::Released => {
                    self.key_states.remove(code);
                },
            },
            PressTypes::Hold => match state {
                ElementState::Pressed => {
                    self.key_states.insert(code);
                },
                ElementState::Released => {
                    self.key_states.remove(code);
                },
            },
            PressTypes::Toggle => match state {
                ElementState::Pressed => {
                    if self.key_states.contains(code) {
                        self.key_states.remove(code);
                    } else {
                        self.key_states.insert(code);
                    }
                },
                ElementState::Released => {},
            },
        }
        Some(())
    }

    /// Whether `action` is on.
    pub fn key_active(&self, action: KeyActions) -> (on: bool)
        ensures
            on == self.key_states@.contains(action.code()),
    {
        self.key_states.contains(action.to_code())
    }
}

/// The default bindings, as the game ships them.
pub open spec fn default_bindings() -> Seq<((bool, Seq<char>), KeyAction)> {
    seq![
        ((true, seq!['z']), KeyAction { action: KeyActions::Undo, press_type: PressTypes::Tap }),
        ((true, seq!['e']), KeyAction { action: KeyActions::Player, press_type: PressTypes::Toggle }),
        ((false, seq!['E', 's', 'c', 'a', 'p', 'e']), KeyAction { action: KeyActions::Escape, press_type: PressTypes::Tap }),
        ((false, seq!['F', '1']), KeyAction { action: KeyActions::HideGui, press_type: PressTypes::Toggle }),
        ((false, seq!['F', '2']), KeyAction { action: KeyActions::Screenshot, press_type: PressTypes::Tap }),
        ((false, seq!['F', '3']), KeyAction { action: KeyActions::Debug, press_type: PressTypes::Toggle }),
        ((false, seq!['F', '1', '1']), KeyAction { action: KeyActions::Fullscreen, press_type: PressTypes::Tap }),
    ]
}

/// The default bindings: `z` undoes, `e` opens the player menu, `Escape`
/// escapes, `F1` hides the interface, `F2` takes a screenshot, `F3` shows
/// the debugger and `F11` switches to full screen.
pub fn default_keymap() -> (m: Keymap)
    ensures
        keymap_view(m@) == default_bindings(),
        keys_distinct(keymap_view(m@)),
        actions_distinct(keymap_view(m@)),
{
    proof {
        reveal_strlit("z");
        reveal_strlit("e");
        reveal_strlit("Escape");
        reveal_strlit("F1");
        reveal_strlit("F2");
        reveal_strlit("F3");
        reveal_strlit("F11");
    }
    let z = String::from_str("z");
    let e = String::from_str("e");
    let escape = String::from_str("Escape");
    let f1 = String::from_str("F1");
    let f2 = String::from_str("F2");
    let f3 = String::from_str("F3");
    let f11 = String::from_str("F11");
    assert(z@ =~= seq!['z']);
    assert(e@ =~= seq!['e']);
    assert(escape@ =~= seq!['E', 's', 'c', 'a', 'p', 'e']);
    assert(f1@ =~= seq!['F', '1']);
    assert(f2@ =~= seq!['F', '2']);
    assert(f3@ =~= seq!['F', '3']);
    assert(f11@ =~= seq!['F', '1', '1']);
    let mut m: Keymap = Vec::new();
    m.push((Key::Character(z), actions::undo()));
    m.push((Key::Character(e), actions::player()));
    m.push((Key::Named(escape), actions::escape()));
    m.push((Key::Named(f1), actions::hide_gui()));
    m.push((Key::Named(f2), actions::screenshot()));
    m.push((Key::Named(f3), actions::debug()));
    m.push((Key::Named(f11), actions::fullscreen()));
    let ghost d = default_bindings();
    assert(keymap_view(m@) =~= d);
    assert forall|i: int, j: int| 0 <= i < d.len() && 0 <= j < d.len() && i != j implies (#[trigger] d[i]).0 != (#[trigger] d[j]).0 by {
        if d[i].0 == d[j].0 {
            assert(d[i].0.1.len() == d[j].0.1.len());
            assert(d[i].0.1[d[i].0.1.len() - 1] == d[j].0.1[d[j].0.1.len() - 1]);
        }
    }
    m
}

/// A tapped action is on right after its press, and off again once the
/// frame is reset, whatever else was active or pending.
pub proof fn law_tap_lasts_one_frame(active: Set<u8>, to_clear: Seq<KeyAction>, action: KeyAction)
    requires
        action.press_type == PressTypes::Tap,
    ensures
        key_step(active, to_clear, ElementState::Pressed, action).0.contains(action.action.code()),
        !cleared(
            key_step(active, to_clear, ElementState::Pressed, action).0,
            key_step(active, to_clear, ElementState::Pressed, action).1,
        ).contains(action.action.code()),
{
    let after = key_step(active, to_clear, ElementState::Pressed, action);
    assert(after.1[to_clear.len() as int] == action);
}

/// Pressing a toggled key twice leaves the active actions as they were.
pub proof fn law_toggle_twice_restores(active: Set<u8>, to_clear: Seq<KeyAction>, action: KeyAction)
    requires
        action.press_type == PressTypes::Toggle,
    ensures
        ({
            let once = key_step(active, to_clear, ElementState::Pressed, action);
            let twice = key_step(once.0, once.1, ElementState::Pressed, action);
            twice.0 == active && twice.1 == to_clear
        }),
{
    let c = action.action.code();
    if active.contains(c) {
        assert(active.remove(c).insert(c) =~= active);
    } else {
        assert(active.insert(c).remove(c) =~= active);
    }
}

/// A held key's action is on exactly while the key is down: a press turns
/// it on and a release turns it off, whatever the state before.
pub proof fn law_hold_follows_key(active: Set<u8>, to_clear: Seq<KeyAction>, action: KeyAction)
    requires
        action.press_type == PressTypes::Hold,
    ensures
        key_step(active, to_clear, ElementState::Pressed, action).0.contains(action.action.code()),
        !key_step(active, to_clear, ElementState::Released, action).0.contains(
            action.action.code(),
        ),
        key_step(active, to_clear, ElementState::Pressed, action).1 == to_clear,
{
}

/// Releasing a toggled key changes nothing.
pub proof fn law_toggle_release_is_ignored(active: Set<u8>, to_clear: Seq<KeyAction>, action: KeyAction)
    requires
        action.press_type == PressTypes::Toggle,
    ensures
        key_step(active, to_clear, ElementState::Released, action) == (active, to_clear),
{
}

/// Clearing with no pending taps changes nothing, so toggled and held
/// actions survive the end of a frame.
pub proof fn law_reset_keeps_untapped(active: Set<u8>)
    ensures
        cleared(active, Seq::<KeyAction>::empty()) == active,
{
    assert(cleared(active, Seq::<KeyAction>::empty()) =~= active);
}

/// The active actions and pending taps after applying the key events
/// `events`, each a state and the action its key is bound to, in order.
pub open spec fn key_steps(
    active: Set<u8>,
    to_clear: Seq<KeyAction>,
    events: Seq<(ElementState, KeyAction)>,
) -> (Set<u8>, Seq<KeyAction>)
    decreases events.len(),
{
    if events.len() == 0 {
        (active, to_clear)
    } else {
        let before = key_steps(active, to_clear, events.drop_last());
        key_step(before.0, before.1, events.last().0, events.last().1)
    }
}

/// Whether some event of `events` presses a tap action with code `c`.
pub open spec fn tapped(events: Seq<(ElementState, KeyAction)>, c: u8) -> bool {
    exists|i: int|
        0 <= i < events.len() && events[i].0 == ElementState::Pressed && events[i].1.press_type == PressTypes::Tap
            && #[trigger] events[i].1.action.code() == c
}

/// The taps pending after `events`, from a frame with none pending, are the
/// tap actions pressed by those events.
proof fn lemma_pending_taps(active: Set<u8>, events: Seq<(ElementState, KeyAction)>, c: u8)
    ensures
        (exists|i: int|
            0 <= i < key_steps(active, Seq::<KeyAction>::empty(), events).1.len()
                && #[trigger] key_steps(active, Seq::<KeyAction>::empty(), events).1[i].action.code() == c)
            <==> tapped(events, c),
    decreases events.len(),
{
    if events.len() > 0 {
        let init = events.drop_last();
        let e = events.last();
        lemma_pending_taps(active, init, c);
        let p0 = key_steps(active, Seq::<KeyAction>::empty(), init).1;
        let p = key_steps(active, Seq::<KeyAction>::empty(), events).1;
        if tapped(init, c) {
            let i = choose|i: int| 0 <= i < init.len() && init[i].0 == ElementState::Pressed
                && init[i].1.press_type == PressTypes::Tap && #[trigger] init[i].1.action.code() == c;
            assert(events[i] == init[i]);
        }
        if tapped(events, c) {
            let i = choose|i: int| 0 <= i < events.len() && events[i].0 == ElementState::Pressed
                && events[i].1.press_type == PressTypes::Tap && #[trigger] events[i].1.action.code() == c;
            if i < init.len() {
                assert(init[i] == events[i]);
                assert(tapped(init, c));
                let j = choose|j: int| 0 <= j < p0.len() && #[trigger] p0[j].action.code() == c;
                assert(p[j] == p0[j]);
            } else {
                assert(p[p0.len() as int] == e.1);
            }
        }
        if exists|j: int| 0 <= j < p.len() && #[trigger] p[j].action.code() == c {
            let j = choose|j: int| 0 <= j < p.len() && #[trigger] p[j].action.code() == c;
            if j < p0.len() {
                assert(p0[j] == p[j]);
            } else {
                let k = events.len() - 1;
                assert(events[k] == e);
            }
        }
    }
}

/// Resetting the frame after any key events clears exactly the tap actions
/// those events pressed: every other action keeps its state.
pub proof fn law_reset_clears_frame_taps(active: Set<u8>, events: Seq<(ElementState, KeyAction)>)
    ensures
        ({
            let (a, p) = key_steps(active, Seq::<KeyAction>::empty(), events);
            cleared(a, p) == a.filter(|c: u8| !tapped(events, c))
        }),
{
    let (a, p) = key_steps(active, Seq::<KeyAction>::empty(), events);
    assert forall|c: u8| #[trigger] cleared(a, p).contains(c) == a.filter(|c: u8| !tapped(events, c)).contains(c) by {
        lemma_pending_taps(active, events, c);
    }
    assert(cleared(a, p) =~= a.filter(|c: u8| !tapped(events, c)));
}


/// Mouse buttons follow their events: a press leaves the button held and
/// marked pressed, a release leaves it not held with its pressed mark as it
/// was, and neither touches the other buttons; any other event changes no
/// button.
pub proof fn law_buttons_follow_their_events(h0: InputHandler, h1: InputHandler, e: GameInputEvent)
    requires
        buttons(&h1) == button_step(buttons(&h0), e),
    ensures
        e == GameInputEvent::MainPressed ==> h1.main_held && h1.main_pressed,
        e == GameInputEvent::AlternatePressed ==> h1.alternate_held && h1.alternate_pressed,
        e == GameInputEvent::TertiaryPressed ==> h1.tertiary_held && h1.tertiary_pressed,
        e == GameInputEvent::MainReleased ==> !h1.main_held && h1.main_pressed == h0.main_pressed,
        e == GameInputEvent::AlternateReleased ==> !h1.alternate_held && h1.alternate_pressed == h0.alternate_pressed,
        e == GameInputEvent::TertiaryReleased ==> !h1.tertiary_held && h1.tertiary_pressed == h0.tertiary_pressed,
        !(e == GameInputEvent::MainPressed || e == GameInputEvent::MainReleased) ==> h1.main_held == h0.main_held
            && h1.main_pressed == h0.main_pressed,
        !(e == GameInputEvent::AlternatePressed || e == GameInputEvent::AlternateReleased) ==> h1.alternate_held
            == h0.alternate_held && h1.alternate_pressed == h0.alternate_pressed,
        !(e == GameInputEvent::TertiaryPressed || e == GameInputEvent::TertiaryReleased) ==> h1.tertiary_held
            == h0.tertiary_held && h1.tertiary_pressed == h0.tertiary_pressed,
{
}

} // verus!
