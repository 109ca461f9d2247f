use vstd::prelude::*;
use vstd::string::StringExecFns;

use crate::input::{
    actions_distinct, bound, keymap_view, loaded_keymap, lookup, with_read_actions, KeyAction, Keymap,
};

verus! {

/// The anti-aliasing methods.
#[derive(Copy, Clone, Debug, PartialEq, Eq, Structural)]
pub enum AAType {
    /// No anti-aliasing.
    Off,
    FXAA,
    TAA,
}

/// The interface scales.
#[derive(Copy, Clone, Debug, PartialEq, Eq, Structural)]
pub enum UiScale {
    Small,
    Normal,
    Large,
}

/// The graphics settings.
#[derive(Copy, Clone, Debug, PartialEq, Eq, Structural)]
pub struct GraphicsOptions {
    pub fps_limit: i32,
    pub fullscreen: bool,
    pub ui_scale: UiScale,
    pub anti_aliasing: AAType,
}

impl Default for GraphicsOptions {
    /// No frame limit, windowed, normal scale, fast approximate
    /// anti-aliasing.
    fn default() -> (o: Self)
        ensures
            o.fps_limit == 0,
            !o.fullscreen,
            o.ui_scale == UiScale::Normal,
            o.anti_aliasing == AAType::FXAA,
    {
        GraphicsOptions {
            fps_limit: 0,
            fullscreen: false,
            ui_scale: UiScale::Normal,
            anti_aliasing: AAType::FXAA,
        }
    }
}

/// Settings that are not graphics, audio or interface ones.
pub struct MiscOptions {
    pub language: String,
    /// Whether the settings were changed since they were last written.
    pub synced: bool,
}

impl Default for MiscOptions {
    /// American English, not yet changed.
    fn default() -> (o: Self)
        ensures
            o.language@ == seq!['e', 'n', '_', 'U', 'S'],
            !o.synced,
    {
        proof {
            reveal_strlit("en_US");
        }
        MiscOptions { language: String::from_str("en_US"), synced: false }
    }
}

/// Whether `name` is among `fonts`.
pub open spec fn has_font(fonts: Seq<String>, name: Seq<char>) -> bool {
    exists|i: int| 0 <= i < fonts.len() && (#[trigger] fonts[i])@ == name
}

/// The interface settings.
pub struct GuiOptions {
    font: Option<String>,
}

impl GuiOptions {
    /// The chosen font, if one is set.
    pub closed spec fn chosen(&self) -> Option<Seq<char>> {
        match self.font {
            Some(f) => Some(f@),
            None => None,
        }
    }

    /// No font chosen.
    pub fn new() -> (o: GuiOptions)
        ensures
            o.chosen() is None,
    {
        GuiOptions { font: None }
    }

    /// The font to use: the chosen one, or else the first of the loaded
    /// `fonts`, if there is any.
    pub fn get_font(&self, fonts: &Vec<String>) -> (f: Option<String>)
        ensures
            match self.chosen() {
                Some(name) => f is Some && f->0@ == name,
                None => if fonts@.len() > 0 {
                    f is Some && f->0@ == fonts@[0]@
                } else {
                    f is None
                },
            },
    {
        match &self.font {
            Some(name) => Some(name.clone()),
            None => {
                if fonts.len() > 0 {
                    Some(fonts[0].clone())
                } else {
                    None
                }
            },
        }
    }

    /// Chooses `font` when it is one of the loaded `fonts`; otherwise the
    /// choice is cleared.
    pub fn set_font(&mut self, fonts: &Vec<String>, font: Option<String>)
        ensures
            match font {
                Some(name) => if has_font(fonts@, name@) {
                    final(self).chosen() == Some(name@)
                } else {
                    final(self).chosen() is None
                },
                None => final(self).chosen() is None,
            },
    {
        match font {
            Some(name) => {
                let mut found = false;
                let mut i: usize = 0;
                while i < fonts.len()
                    invariant
                        0 <= i <= fonts.len(),
                        found <==> exists|j: int| 0 <= j < i && (#[trigger] fonts@[j])@ == name@,
                    decreases fonts.len() - i,
                {
                    if fonts[i] == name {
                        found = true;
                    }
                    proof {
                        if fonts@[i as int]@ == name@ {
                            assert(fonts@[i as int]@ == name@);
                        }
                    }
                    i = i + 1;
                }
                if found {
                    self.font = Some(name);
                } else {
                    self.font = None;
                }
            },
            None => {
                self.font = None;
            },
        }
    }
}

/// A copy of a keymap.
fn clone_keymap(m: &Keymap) -> (c: Keymap)
    ensures
        keymap_view(c@) == keymap_view(m@),
{
    let mut c: Keymap = Vec::new();
    let mut i: usize = 0;
    while i < m.len()
        invariant
            0 <= i <= m@.len(),
            c@.len() == i,
            keymap_view(c@) == keymap_view(m@).subrange(0, i as int),
        decreases m.len() - i,
    {
        let k = m[i].0.clone();
        let ghost before = c@;
        c.push((k, m[i].1));
        assert forall|j: int| 0 <= j < i + 1 implies #[trigger] keymap_view(c@)[j] == keymap_view(m@)[j] by {
            if j < i {
                assert(keymap_view(before)[j] == keymap_view(m@).subrange(0, i as int)[j]);
            }
        }
        assert(keymap_view(c@) =~= keymap_view(m@).subrange(0, i + 1));
        i = i + 1;
    }
    assert(keymap_view(m@).subrange(0, m@.len() as int) =~= keymap_view(m@));
    c
}

/// The bindings that loading the settings gives: each key of `default`
/// takes the action that `read` binds it to, keeping its press type; if
/// that binds some action to two keys, the bindings are reset to
/// `default`.
pub fn load_keymap(default: Keymap, read: Keymap) -> (m: Keymap)
    requires
        forall|i: int| 0 <= i < read@.len() ==> bound(keymap_view(default@), (#[trigger] read@[i]).0@) is Some,
    ensures
        keymap_view(m@) == loaded_keymap(keymap_view(default@), keymap_view(read@)),
{
    let ghost dv = keymap_view(default@);
    let ghost rv = keymap_view(read@);
    let ghost want = with_read_actions(dv, rv);
    let mut merged = clone_keymap(&default);
    let mut i: usize = 0;
    while i < merged.len()
        invariant
            0 <= i <= merged@.len(),
            dv == keymap_view(default@),
            rv == keymap_view(read@),
            want == with_read_actions(dv, rv),
            keymap_view(merged@).len() == dv.len(),
            merged@.len() == dv.len(),
            forall|j: int| 0 <= j < i ==> #[trigger] keymap_view(merged@)[j] == want[j],
            forall|j: int| i <= j < dv.len() ==> #[trigger] keymap_view(merged@)[j] == dv[j],
        decreases merged.len() - i,
    {
        let ghost before = merged@;
        assert(keymap_view(before)[i as int] == dv[i as int]);
        assert(before[i as int].0@ == dv[i as int].0);
        assert(want[i as int] == (match bound(rv, dv[i as int].0) {
            Some(r) => (dv[i as int].0, KeyAction { action: r.action, press_type: dv[i as int].1.press_type }),
            None => dv[i as int],
        }));
        match lookup(&read, &merged[i].0) {
            Some(r) => {
                let k = merged[i].0.clone();
                let press_type = merged[i].1.press_type;
                merged.set(i, (k, KeyAction { action: r.action, press_type }));
                assert(merged@ == before.update(i as int, merged@[i as int]));
            },
            None => {},
        }
        proof {
            assert(keymap_view(merged@)[i as int] == want[i as int]);
            assert forall|j: int| 0 <= j < dv.len() && j != i implies #[trigger] keymap_view(merged@)[j] == keymap_view(before)[j] by {
                assert(merged@[j] == before[j]);
            }
        }
        i = i + 1;
    }
    assert(keymap_view(merged@) =~= want);
    let mut twice = false;
    let mut a: usize = 0;
    while a < merged.len()
        invariant
            0 <= a <= merged@.len(),
            keymap_view(merged@) == want,
            twice <==> exists|x: int, y: int|
                0 <= x < a && 0 <= y < want.len() && x != y && (#[trigger] want[x]).1.action == (#[trigger] want[y]).1.action,
        decreases merged.len() - a,
    {
        let mut b: usize = 0;
        while b < merged.len()
            invariant
                0 <= a < merged@.len(),
                0 <= b <= merged@.len(),
                keymap_view(merged@) == want,
                twice <==> (exists|x: int, y: int|
                    0 <= x < a && 0 <= y < want.len() && x != y && (#[trigger] want[x]).1.action == (#[trigger] want[y]).1.action)
                    || (exists|y: int| 0 <= y < b && a != y && want[a as int].1.action == (#[trigger] want[y]).1.action),
            decreases merged.len() - b,
        {
            if a != b && merged[a].1.action == merged[b].1.action {
                assert(want[a as int].1.action == want[b as int].1.action);
                twice = true;
            }
            b = b + 1;
        }
        a = a + 1;
    }
    assert(twice <==> !actions_distinct(want));
    if twice {
        default
    } else {
        merged
    }
}

/// Loading the settings never binds an action to two keys when the default
/// bindings do not, and keeps the default keys and press types.
pub proof fn law_loaded_keymap_binds_actions_once(
    default: Seq<((bool, Seq<char>), KeyAction)>,
    read: Seq<((bool, Seq<char>), KeyAction)>,
)
    requires
        actions_distinct(default),
    ensures
        actions_distinct(loaded_keymap(default, read)),
        loaded_keymap(default, read).len() == default.len(),
        forall|i: int| 0 <= i < default.len() ==> (#[trigger] loaded_keymap(default, read)[i]).0 == default[i].0
            && loaded_keymap(default, read)[i].1.press_type == default[i].1.press_type,
{
}

} // verus!
