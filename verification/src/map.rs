use vstd::prelude::*;
use vstd::string::StrSliceExecFns;
use vstd::string::StringExecFns;

use crate::game::registry::Registry;
use crate::game::tile::coord::TileCoord;
use crate::game::tile::entity::{view_data, DataMap, DataView, TileModifier};
use crate::game::tile::inventory::{id_of_name, is_named};
use crate::game::tile::raw::{
    data_from_raw, data_to_raw, ids_named, is_saved_data, law_data_save_then_load_restores, loaded_data,
    raw_data_view, raw_ids_named, restored_value, DataMapRaw, DataRawView,
};
use crate::util::id::valid_names;
use crate::game::tiles::{PlacedTile, TileKey, TileMap};
use crate::util::id::{Id, IdRaw, Interner};
use crate::util::text::push_char;

verus! {

/// Whether `c` has the Unicode `White_Space` property, as
/// `char::is_whitespace` decides it.
pub uninterp spec fn whitespace(c: char) -> bool;

/// Whether `c` is alphabetic or numeric in Unicode's sense, as
/// `char::is_alphanumeric` decides it.
pub uninterp spec fn alphanumeric(c: char) -> bool;

/// `char::is_whitespace`.
///
/// Trusted: the result is a function of `c` alone, named `whitespace`.
#[verifier::external_body]
fn is_whitespace(c: char) -> (b: bool)
    ensures
        b == whitespace(c),
{
    c.is_whitespace()
}

/// `char::is_alphanumeric`.
///
/// Trusted: the result is a function of `c` alone, named `alphanumeric`.
#[verifier::external_body]
fn is_alphanumeric(c: char) -> (b: bool)
    ensures
        b == alphanumeric(c),
{
    c.is_alphanumeric()
}

/// Whether `c` is taken off the ends of a name: whitespace in the first
/// pass, periods in the second.
pub open spec fn trimmed_char(c: char, periods: bool) -> bool {
    if periods {
        c == '.'
    } else {
        whitespace(c)
    }
}

/// `s` without the characters at its start that are trimmed.
pub open spec fn strip_front(s: Seq<char>, periods: bool) -> Seq<char>
    decreases s.len(),
{
    if s.len() > 0 && trimmed_char(s[0], periods) {
        strip_front(s.drop_first(), periods)
    } else {
        s
    }
}

/// `s` without the characters at its end that are trimmed.
pub open spec fn strip_back(s: Seq<char>, periods: bool) -> Seq<char>
    decreases s.len(),
{
    if s.len() > 0 && trimmed_char(s.last(), periods) {
        strip_back(s.drop_last(), periods)
    } else {
        s
    }
}

/// `s` trimmed at both ends.
pub open spec fn trim(s: Seq<char>, periods: bool) -> Seq<char> {
    strip_back(strip_front(s, periods), periods)
}

/// `c`, or an underscore when `c` is not alphanumeric.
pub open spec fn replaced(c: char) -> char {
    if alphanumeric(c) {
        c
    } else {
        '_'
    }
}

/// The code of `c` in ASCII upper case: lower-case ASCII letters are
/// raised, every other character is kept.
pub open spec fn upper_code(c: char) -> u32 {
    if 97 <= (c as u32) <= 122 {
        (c as u32 - 32) as u32
    } else {
        c as u32
    }
}

/// The codes of a word's characters.
pub open spec fn word(s: Seq<char>) -> Seq<u32> {
    s.map_values(|c: char| c as u32)
}

/// Whether a name in ASCII upper case, given by its codes, is one that
/// Windows reserves for devices.
pub open spec fn reserved(u: Seq<u32>) -> bool {
    ||| u == word(seq!['C', 'O', 'N'])
    ||| u == word(seq!['P', 'R', 'N'])
    ||| u == word(seq!['A', 'U', 'X'])
    ||| u == word(seq!['N', 'U', 'L'])
    ||| u == word(seq!['C', 'L', 'O', 'C', 'K', '$'])
    ||| (u.len() == 4 && (u.take(3) == word(seq!['C', 'O', 'M']) || u.take(3) == word(
        seq!['L', 'P', 'T'],
    )) && ('1' as u32) <= u[3] <= ('9' as u32))
}

/// The name with its ends trimmed of whitespace and then of periods, and
/// every character that is not alphanumeric replaced by an underscore.
pub open spec fn cleaned(name: Seq<char>) -> Seq<char> {
    trim(trim(name, false), true).map_values(|c: char| replaced(c))
}

/// What `sanitize_name` gives for `name`.
pub open spec fn sanitized(name: Seq<char>) -> Seq<char> {
    if name.len() == 0 {
        seq!['e', 'm', 'p', 't', 'y']
    } else if reserved(cleaned(name).map_values(|c: char| upper_code(c))) {
        seq!['_'] + cleaned(name)
    } else {
        cleaned(name)
    }
}

/// A map: its name and the tiles placed on it.
pub struct GameMap {
    /// The name of the map; meant to be sanitized.
    pub map_name: String,
    pub tiles: TileMap,
}

/// A `hashbrown::HashMap` from the tile ids of a saved map to their written
/// form. Verus does not accept a declaration of `hashbrown::HashMap` itself
/// (its allocator parameter), so the map is held here, opaque, and every
/// operation goes through a trusted method below.
#[verifier::external_body]
pub struct TileNames {
    map: hashbrown::HashMap<Id, IdRaw>,
}

/// What a `TileNames` map holds.
pub uninterp spec fn tile_names(m: TileNames) -> Map<Id, Seq<char>>;

impl TileNames {
    /// An empty map, from `hashbrown::HashMap::new`.
    ///
    /// Trusted: a new map holds nothing.
    #[verifier::external_body]
    pub(crate) fn new() -> (m: TileNames)
        ensures
            tile_names(m).is_empty(),
    {
        TileNames { map: hashbrown::HashMap::new() }
    }

    /// A copy of the name stored for `k`, from `hashbrown::HashMap::get`.
    ///
    /// Trusted: `get` returns the value stored under the key, or `None` when
    /// there is none; the copy has the same text.
    #[verifier::external_body]
    pub(crate) fn get(&self, k: Id) -> (v: Option<IdRaw>)
        ensures
            match v {
                Some(s) => tile_names(*self).contains_key(k) && s@ == tile_names(*self)[k],
                None => !tile_names(*self).contains_key(k),
            },
    {
        self.map.get(&k).cloned()
    }

    /// Whether a name is stored for `k`, from `hashbrown::HashMap::contains_key`.
    ///
    /// Trusted: `contains_key` tells whether the key has a value.
    #[verifier::external_body]
    pub(crate) fn contains_key(&self, k: Id) -> (b: bool)
        ensures
            b == tile_names(*self).contains_key(k),
    {
        self.map.contains_key(&k)
    }

    /// Every entry of the map, from `hashbrown::HashMap::iter`, with the
    /// names copied.
    ///
    /// Trusted: the iterator yields each entry exactly once; the copies have
    /// the same text. The order is the hash table's and is not stated.
    #[verifier::external_body]
    pub(crate) fn entries(&self) -> (es: Vec<(Id, IdRaw)>)
        ensures
            forall|i: int, j: int| 0 <= i < es@.len() && 0 <= j < es@.len() && i != j ==> (#[trigger] es@[i]).0 != (#[trigger] es@[j]).0,
            forall|i: int| 0 <= i < es@.len() ==> {
                let (k, v) = #[trigger] es@[i];
                tile_names(*self).contains_key(k) && tile_names(*self)[k] == v@
            },
            forall|k: Id| #[trigger] tile_names(*self).contains_key(k) ==> exists|i: int| 0 <= i < es@.len() && (#[trigger] es@[i]).0 == k,
    {
        self.map.iter().map(|(k, v)| (*k, v.clone())).collect()
    }

    /// Stores `v` for `k`, from `hashbrown::HashMap::insert`.
    ///
    /// Trusted: afterwards the map is the old one with `k` mapped to `v`.
    #[verifier::external_body]
    pub(crate) fn insert(&mut self, k: Id, v: IdRaw)
        ensures
            tile_names(*final(self)) == tile_names(*old(self)).insert(k, v@),
    {
        self.map.insert(k, v);
    }
}

/// A tile of a saved map: its position, its id when saved, its modifier and
/// its data.
pub type RawTile = (TileCoord, Id, TileModifier, DataMapRaw);

/// The content of a saved tile.
pub type RawTileView = ((int, int, int), Id, TileModifier, Seq<(Seq<char>, DataRawView)>);

/// The content of the tiles of a saved map.
pub open spec fn raw_tiles_view(t: Seq<RawTile>) -> Seq<RawTileView> {
    t.map_values(|e: RawTile| (e.0@, e.1, e.2, raw_data_view(e.3@)))
}

/// The saved form of a map.
pub struct MapRaw {
    pub map_name: String,
    pub tiles: Vec<RawTile>,
    /// The written form of each id in `tiles`.
    pub tile_map: TileNames,
}

/// The key a tile at `c` is stored under.
pub open spec fn key_at(c: (int, int, int)) -> TileKey {
    (c.0 as i32, c.1 as i32)
}

/// The content of the tile entities handed to saving: each one's position
/// and data.
pub open spec fn entities_view(e: Seq<(TileCoord, DataMap)>) -> Seq<((int, int, int), Map<Id, DataView>)> {
    e.map_values(|x: (TileCoord, DataMap)| (x.0@, view_data(x.1@)))
}

/// Whether `raw` saves, in order, every tile entity of `ents` whose
/// position holds a tile in `tiles`: its position, the tile's id and
/// modifier, and the saved form of its data.
pub open spec fn saves_tiles(
    raw: Seq<RawTileView>,
    ents: Seq<((int, int, int), Map<Id, DataView>)>,
    tiles: Map<TileKey, PlacedTile>,
    names: Seq<Seq<char>>,
) -> bool
    decreases ents.len(),
{
    if ents.len() == 0 {
        raw.len() == 0
    } else {
        let (c, d) = ents.last();
        if tiles.contains_key(key_at(c)) {
            &&& raw.len() > 0
            &&& raw.last().0 == c
            &&& raw.last().1 == tiles[key_at(c)].0
            &&& raw.last().2 == tiles[key_at(c)].1
            &&& is_saved_data(raw.last().3, d, names)
            &&& saves_tiles(raw.drop_last(), ents.drop_last(), tiles, names)
        } else {
            saves_tiles(raw, ents.drop_last(), tiles, names)
        }
    }
}

/// The tiles that loading the saved tiles `raw` places: each one whose id
/// has a written form that is interned now, under its current id; a later
/// tile at the same position replaces an earlier one.
pub open spec fn loaded_tiles(
    raw: Seq<RawTileView>,
    written: Map<Id, Seq<char>>,
    names: Seq<Seq<char>>,
) -> Map<TileKey, PlacedTile>
    decreases raw.len(),
{
    if raw.len() == 0 {
        Map::empty()
    } else {
        let prev = loaded_tiles(raw.drop_last(), written, names);
        let (c, id, modifier, _) = raw.last();
        if written.contains_key(id) && is_named(names, written[id]) {
            prev.insert(key_at(c), (id_of_name(names, written[id]) as Id, modifier))
        } else {
            prev
        }
    }
}

/// The tile entities that loading the saved tiles `raw` starts, in order:
/// position, current id, modifier and loaded data.
pub open spec fn loaded_entities(
    raw: Seq<RawTileView>,
    written: Map<Id, Seq<char>>,
    names: Seq<Seq<char>>,
    items: Map<Id, crate::game::item::Item>,
) -> Seq<((int, int, int), Id, TileModifier, Map<Id, DataView>)>
    decreases raw.len(),
{
    if raw.len() == 0 {
        Seq::empty()
    } else {
        let prev = loaded_entities(raw.drop_last(), written, names, items);
        let (c, id, modifier, d) = raw.last();
        if written.contains_key(id) && is_named(names, written[id]) {
            prev.push((c, id_of_name(names, written[id]) as Id, modifier, loaded_data(d, names, items)))
        } else {
            prev
        }
    }
}

/// The content of the tile entities that loading gives.
pub open spec fn loaded_entities_view(
    e: Seq<(TileCoord, Id, TileModifier, DataMap)>,
) -> Seq<((int, int, int), Id, TileModifier, Map<Id, DataView>)> {
    e.map_values(|x: (TileCoord, Id, TileModifier, DataMap)| (x.0@, x.1, x.2, view_data(x.3@)))
}

impl GameMap {
    /// The tile placed at `coord`, if any.
    pub fn get(&self, coord: TileCoord) -> (t: Option<PlacedTile>)
        ensures
            t == (if self.tiles@.contains_key(key_at(coord@)) {
                Some(self.tiles@[key_at(coord@)])
            } else {
                None::<PlacedTile>
            }),
    {
        proof {
            coord.lemma_cube();
        }
        self.tiles.get((coord.q(), coord.r()))
    }

    /// The saved form of the map: every tile entity in `entities` whose
    /// position holds a tile, in that order, with the tile's id and modifier
    /// and the saved form of the entity's data; and the written form of
    /// each saved id.
    pub fn to_raw(&self, entities: Vec<(TileCoord, DataMap)>, interner: &Interner) -> (raw: MapRaw)
        requires
            forall|i: int|
                0 <= i < entities@.len() && self.tiles@.contains_key(key_at((#[trigger] entities@[i]).0@))
                    ==> self.tiles@[key_at(entities@[i].0@)].0 < interner.names().len(),
            forall|i: int, k: Id|
                #![trigger entities@[i].1@.contains_key(k)]
                0 <= i < entities@.len() && entities@[i].1@.contains_key(k) ==> ids_named(
                    entities@[i].1@[k]@,
                    interner.names(),
                ),
        ensures
            raw.map_name@ == self.map_name@,
            saves_tiles(raw_tiles_view(raw.tiles@), entities_view(entities@), self.tiles@, interner.names()),
            forall|j: int| 0 <= j < raw.tiles@.len() ==> tile_names(raw.tile_map).contains_key((#[trigger] raw.tiles@[j]).1),
            forall|id: Id| #[trigger] tile_names(raw.tile_map).contains_key(id) ==> id < interner.names().len()
                && tile_names(raw.tile_map)[id] == interner.names()[id as int],
    {
        broadcast use vstd::std_specs::vec::group_vec_axioms;

        let ghost all = entities@;
        let ghost ev = entities_view(all);
        let ghost names = interner.names();
        let ghost tiles = self.tiles@;
        let mut out: Vec<RawTile> = Vec::new();
        let mut written = TileNames::new();
        for e in it: entities.into_iter()
            invariant
                it.seq() == all,
                ev == entities_view(all),
                names == interner.names(),
                tiles == self.tiles@,
                forall|i: int|
                    0 <= i < all.len() && tiles.contains_key(key_at((#[trigger] all[i]).0@))
                        ==> tiles[key_at(all[i].0@)].0 < names.len(),
                forall|i: int, k: Id|
                    #![trigger all[i].1@.contains_key(k)]
                    0 <= i < all.len() && all[i].1@.contains_key(k) ==> ids_named(all[i].1@[k]@, names),
                saves_tiles(raw_tiles_view(out@), ev.take(it.index()), tiles, names),
                forall|j: int| 0 <= j < out@.len() ==> tile_names(written).contains_key((#[trigger] out@[j]).1),
                forall|id: Id| #[trigger] tile_names(written).contains_key(id) ==> id < names.len()
                    && tile_names(written)[id] == names[id as int],
        {
            let ghost idx = it.index();
            let (coord, data) = e;
            let ghost c = coord@;
            let ghost dv = view_data(data@);
            assert(ev.take(idx + 1).drop_last() =~= ev.take(idx));
            assert(ev.take(idx + 1).last() == (c, dv));
            proof {
                coord.lemma_cube();
                assert(all[idx] == (coord, data));
            }
            let k: TileKey = (coord.q(), coord.r());
            assert(k == key_at(c));
            match self.tiles.get(k) {
                Some(placed) => {
                    let (id, modifier) = placed;
                    if !written.contains_key(id) {
                        let name = interner.resolve(id).unwrap().clone();
                        written.insert(id, name);
                    }
                    let d = data_to_raw(data, interner);
                    let ghost before = out@;
                    out.push((coord, id, modifier, d));
                    proof {
                        assert(raw_tiles_view(out@).drop_last() =~= raw_tiles_view(before));
                        assert forall|j: int| 0 <= j < out@.len() implies tile_names(written).contains_key((#[trigger] out@[j]).1) by {
                            if j < before.len() {
                                assert(out@[j] == before[j]);
                            }
                        }
                    }
                },
                None => {},
            }
        }
        assert(ev.take(all.len() as int) =~= ev);
        MapRaw { map_name: self.map_name.clone(), tiles: out, tile_map: written }
    }

    /// The map a saved form loads to, with the tile entities to start: each
    /// saved tile whose id has a written form that is interned now, under its
    /// current id, with its data loaded.
    pub fn from_raw(raw: MapRaw, interner: &Interner, registry: &Registry) -> (r: (
        GameMap,
        Vec<(TileCoord, Id, TileModifier, DataMap)>,
    ))
        requires
            forall|j: int, i: int|
                #![trigger raw.tiles@[j].3@[i]]
                0 <= j < raw.tiles@.len() && 0 <= i < raw.tiles@[j].3@.len() ==> raw_ids_named(
                    raw.tiles@[j].3@[i].1@,
                    interner.names(),
                ),
        ensures
            r.0.map_name@ == raw.map_name@,
            r.0.tiles@ == loaded_tiles(raw_tiles_view(raw.tiles@), tile_names(raw.tile_map), interner.names()),
            loaded_entities_view(r.1@) == loaded_entities(
                raw_tiles_view(raw.tiles@),
                tile_names(raw.tile_map),
                interner.names(),
                registry.items@,
            ),
    {
        broadcast use vstd::std_specs::vec::group_vec_axioms;

        let MapRaw { map_name, tiles: saved, tile_map } = raw;
        let ghost all = saved@;
        let ghost rv = raw_tiles_view(all);
        let ghost written = tile_names(tile_map);
        let ghost names = interner.names();
        let ghost items = registry.items@;
        let mut tiles = TileMap::new();
        let mut ents: Vec<(TileCoord, Id, TileModifier, DataMap)> = Vec::new();
        for e in it: saved.into_iter()
            invariant
                it.seq() == all,
                rv == raw_tiles_view(all),
                written == tile_names(tile_map),
                names == interner.names(),
                items == registry.items@,
                forall|j: int, i: int|
                    #![trigger all[j].3@[i]]
                    0 <= j < all.len() && 0 <= i < all[j].3@.len() ==> raw_ids_named(all[j].3@[i].1@, names),
                tiles@ == loaded_tiles(rv.take(it.index()), written, names),
                loaded_entities_view(ents@) == loaded_entities(rv.take(it.index()), written, names, items),
        {
            let ghost idx = it.index();
            let (coord, id, modifier, data) = e;
            let ghost dv = raw_data_view(data@);
            assert(rv.take(idx + 1).drop_last() =~= rv.take(idx));
            assert(all[idx] == (coord, id, modifier, data));
            assert(rv.take(idx + 1).last() == (coord@, id, modifier, dv));
            proof {
                coord.lemma_cube();
            }
            match tile_map.get(id) {
                Some(name) => match interner.get(&name) {
                    Some(new_id) => {
                        proof {
                            let x = id_of_name(names, name@);
                            assert(is_named(names, name@));
                            assert(x == new_id as int);
                            assert forall|i: int| 0 <= i < data@.len() implies raw_ids_named((#[trigger] data@[i]).1@, names) by {
                                assert(all[idx].3@[i] == data@[i]);
                            }
                        }
                        let d = data_from_raw(data, interner, registry);
                        let k: TileKey = (coord.q(), coord.r());
                        assert(k == key_at(coord@));
                        tiles.insert(k, (new_id, modifier));
                        let ghost before = ents@;
                        ents.push((coord, new_id, modifier, d));
                        assert(loaded_entities_view(ents@) =~= loaded_entities_view(before).push(
                            (coord@, new_id, modifier, loaded_data(dv, names, items)),
                        ));
                    },
                    None => {},
                },
                None => {},
            }
        }
        assert(rv.take(all.len() as int) =~= rv);
        (GameMap { map_name, tiles }, ents)
    }
}

/// What saving and loading keeps of a tile entity's data: the entries whose
/// key has a name, with their values as `restored_value` states.
pub open spec fn restored_data(
    d: Map<Id, DataView>,
    names: Seq<Seq<char>>,
    items: Map<Id, crate::game::item::Item>,
) -> Map<Id, DataView> {
    Map::new(|k: Id| d.contains_key(k) && k < names.len(), |k: Id| restored_value(d[k], names, items))
}

/// The tile entities of `ents` whose position holds a tile, in order, with
/// the tile's id and modifier and what saving and loading keeps of their
/// data.
pub open spec fn kept_entities(
    ents: Seq<((int, int, int), Map<Id, DataView>)>,
    tiles: Map<TileKey, PlacedTile>,
    names: Seq<Seq<char>>,
    items: Map<Id, crate::game::item::Item>,
) -> Seq<((int, int, int), Id, TileModifier, Map<Id, DataView>)>
    decreases ents.len(),
{
    if ents.len() == 0 {
        Seq::empty()
    } else {
        let prev = kept_entities(ents.drop_last(), tiles, names, items);
        let (c, d) = ents.last();
        if tiles.contains_key(key_at(c)) {
            prev.push((c, tiles[key_at(c)].0, tiles[key_at(c)].1, restored_data(d, names, items)))
        } else {
            prev
        }
    }
}

/// The positions of `ents`.
pub open spec fn entity_keys(ents: Seq<((int, int, int), Map<Id, DataView>)>) -> Set<TileKey> {
    Set::new(|k: TileKey| exists|i: int| 0 <= i < ents.len() && key_at((#[trigger] ents[i]).0) == k)
}

/// Saving a map and loading the saved form again gives back the tiles that
/// have a tile entity to save, with their ids and modifiers, and starts
/// their tile entities again, in the same order, with what saving and
/// loading keeps of their data.
pub proof fn law_map_save_then_load_restores(
    tiles: Map<TileKey, PlacedTile>,
    ents: Seq<((int, int, int), Map<Id, DataView>)>,
    names: Seq<Seq<char>>,
    items: Map<Id, crate::game::item::Item>,
    raw: Seq<RawTileView>,
    written: Map<Id, Seq<char>>,
)
    requires
        valid_names(names),
        forall|x: Id| #[trigger] items.contains_key(x) ==> items[x].id == x,
        saves_tiles(raw, ents, tiles, names),
        forall|j: int| 0 <= j < raw.len() ==> written.contains_key((#[trigger] raw[j]).1),
        forall|id: Id| #[trigger] written.contains_key(id) ==> id < names.len() && written[id] == names[id as int],
    ensures
        loaded_tiles(raw, written, names) == tiles.restrict(entity_keys(ents)),
        loaded_entities(raw, written, names, items) == kept_entities(ents, tiles, names, items),
    decreases ents.len(),
{
    if ents.len() == 0 {
        assert(tiles.restrict(entity_keys(ents)) =~= Map::empty());
    } else {
        let init = ents.drop_last();
        let (c, d) = ents.last();
        let k = key_at(c);
        assert(entity_keys(ents) =~= entity_keys(init).insert(k)) by {
            assert forall|x: TileKey| entity_keys(ents).contains(x) implies entity_keys(init).insert(k).contains(x) by {
                let i = choose|i: int| 0 <= i < ents.len() && key_at((#[trigger] ents[i]).0) == x;
                if i < init.len() {
                    assert(init[i] == ents[i]);
                }
            }
            assert forall|x: TileKey| entity_keys(init).insert(k).contains(x) implies entity_keys(ents).contains(x) by {
                if x != k {
                    let i = choose|i: int| 0 <= i < init.len() && key_at((#[trigger] init[i]).0) == x;
                    assert(ents[i] == init[i]);
                } else {
                    assert(key_at(ents[ents.len() - 1].0) == x);
                }
            }
        }
        if tiles.contains_key(k) {
            let rinit = raw.drop_last();
            assert forall|j: int| 0 <= j < rinit.len() implies written.contains_key((#[trigger] rinit[j]).1) by {
                assert(rinit[j] == raw[j]);
            }
            law_map_save_then_load_restores(tiles, init, names, items, rinit, written);
            let (rc, id, modifier, rd) = raw.last();
            assert(written.contains_key(raw[raw.len() - 1].1));
            assert(written[id] == names[id as int]);
            assert(is_named(names, written[id]));
            let x = id_of_name(names, written[id]);
            if x != id as int {
                assert(names[x] != names[id as int]);
            }
            assert((x as Id) == id);
            assert(loaded_tiles(raw, written, names) =~= tiles.restrict(entity_keys(ents)));
            law_data_save_then_load_restores(d, names, items, rd);
            assert(loaded_data(rd, names, items) =~= restored_data(d, names, items));
        } else {
            law_map_save_then_load_restores(tiles, init, names, items, raw, written);
            assert(tiles.restrict(entity_keys(ents)) =~= tiles.restrict(entity_keys(init)));
        }
    }
}

/// The map from ids to names that storing `written` in order gives.
pub open spec fn names_of(written: Seq<(Id, IdRaw)>) -> Map<Id, Seq<char>>
    decreases written.len(),
{
    if written.len() == 0 {
        Map::empty()
    } else {
        names_of(written.drop_last()).insert(written.last().0, written.last().1@)
    }
}

impl MapRaw {
    /// A saved map from its parts; `written` gives the written form of each
    /// id, a later entry for an id replacing an earlier one.
    pub fn from_parts(map_name: String, tiles: Vec<RawTile>, written: Vec<(Id, IdRaw)>) -> (raw: MapRaw)
        ensures
            raw.map_name@ == map_name@,
            raw_tiles_view(raw.tiles@) == raw_tiles_view(tiles@),
            tile_names(raw.tile_map) == names_of(written@),
    {
        broadcast use vstd::std_specs::vec::group_vec_axioms;

        let ghost all = written@;
        let mut tile_map = TileNames::new();
        for e in it: written.into_iter()
            invariant
                it.seq() == all,
                tile_names(tile_map) == names_of(all.take(it.index())),
        {
            let ghost idx = it.index();
            assert(all.take(idx + 1).drop_last() =~= all.take(idx));
            let (id, name) = e;
            tile_map.insert(id, name);
        }
        assert(all.take(all.len() as int) =~= all);
        MapRaw { map_name, tiles, tile_map }
    }

    /// The written form of each id, once each, in no stated order.
    pub fn written_ids(&self) -> (es: Vec<(Id, IdRaw)>)
        ensures
            forall|i: int, j: int| 0 <= i < es@.len() && 0 <= j < es@.len() && i != j ==> (#[trigger] es@[i]).0 != (#[trigger] es@[j]).0,
            forall|i: int| 0 <= i < es@.len() ==> {
                let (k, v) = #[trigger] es@[i];
                tile_names(self.tile_map).contains_key(k) && tile_names(self.tile_map)[k] == v@
            },
            forall|k: Id| #[trigger] tile_names(self.tile_map).contains_key(k) ==> exists|i: int| 0 <= i < es@.len() && (#[trigger] es@[i]).0 == k,
    {
        self.tile_map.entries()
    }
}

/// Whether the character at `i` is trimmed.
fn trimmed_at(s: &str, i: usize, periods: bool) -> (b: bool)
    requires
        i < s@.len(),
    ensures
        b == trimmed_char(s@[i as int], periods),
{
    let c = s.get_char(i);
    if periods {
        c == '.'
    } else {
        is_whitespace(c)
    }
}

/// Moves `lo` past the trimmed characters at the start of `s[lo..hi]`.
fn skip_front(s: &str, lo: usize, hi: usize, periods: bool) -> (r: usize)
    requires
        lo <= hi <= s@.len(),
    ensures
        lo <= r <= hi,
        s@.subrange(r as int, hi as int) == strip_front(s@.subrange(lo as int, hi as int), periods),
{
    let mut i = lo;
    while i < hi && trimmed_at(s, i, periods)
        invariant
            lo <= i <= hi <= s@.len(),
            strip_front(s@.subrange(i as int, hi as int), periods) == strip_front(
                s@.subrange(lo as int, hi as int),
                periods,
            ),
        decreases hi - i,
    {
        assert(s@.subrange(i as int, hi as int).drop_first() =~= s@.subrange(i + 1, hi as int));
        i = i + 1;
    }
    if i < hi {
        assert(s@.subrange(i as int, hi as int)[0] == s@[i as int]);
    }
    i
}

/// Moves `hi` back past the trimmed characters at the end of `s[lo..hi]`.
fn skip_back(s: &str, lo: usize, hi: usize, periods: bool) -> (r: usize)
    requires
        lo <= hi <= s@.len(),
    ensures
        lo <= r <= hi,
        s@.subrange(lo as int, r as int) == strip_back(s@.subrange(lo as int, hi as int), periods),
{
    let mut j = hi;
    while j > lo && trimmed_at(s, j - 1, periods)
        invariant
            lo <= j <= hi <= s@.len(),
            strip_back(s@.subrange(lo as int, j as int), periods) == strip_back(
                s@.subrange(lo as int, hi as int),
                periods,
            ),
        decreases j - lo,
    {
        assert(s@.subrange(lo as int, j as int).drop_last() =~= s@.subrange(lo as int, j - 1));
        j = j - 1;
    }
    if j > lo {
        assert(s@.subrange(lo as int, j as int).last() == s@[j - 1]);
    }
    j
}

/// Whether the codes in `u` spell `w`.
fn spells(u: &Vec<u32>, start: usize, w: &[u32]) -> (b: bool)
    requires
        start + w@.len() <= u@.len(),
    ensures
        b == (u@.subrange(start as int, start + w@.len()) == w@),
{
    let mut i: usize = 0;
    while i < w.len()
        invariant
            0 <= i <= w@.len(),
            start + w@.len() <= u@.len(),
            u@.subrange(start as int, start + i) == w@.subrange(0, i as int),
        decreases w.len() - i,
    {
        assert(start + i < u.len());
        if u[start + i] != w[i] {
            assert(u@.subrange(start as int, start + w@.len())[i as int] != w@[i as int]);
            return false;
        }
        assert(u@.subrange(start as int, start + i + 1) =~= w@.subrange(0, i + 1));
        i = i + 1;
    }
    assert(w@.subrange(0, w@.len() as int) =~= w@);
    true
}

/// Whether the upper-case codes `u` name a reserved device.
fn is_reserved(u: &Vec<u32>) -> (b: bool)
    ensures
        b == reserved(u@),
{
    let con: [u32; 3] = [67, 79, 78];
    let prn: [u32; 3] = [80, 82, 78];
    let aux: [u32; 3] = [65, 85, 88];
    let nul: [u32; 3] = [78, 85, 76];
    let clock: [u32; 6] = [67, 76, 79, 67, 75, 36];
    let com: [u32; 3] = [67, 79, 77];
    let lpt: [u32; 3] = [76, 80, 84];
    assert(word(seq!['C', 'O', 'N']) =~= con@);
    assert(word(seq!['P', 'R', 'N']) =~= prn@);
    assert(word(seq!['A', 'U', 'X']) =~= aux@);
    assert(word(seq!['N', 'U', 'L']) =~= nul@);
    assert(word(seq!['C', 'L', 'O', 'C', 'K', '$']) =~= clock@);
    assert(word(seq!['C', 'O', 'M']) =~= com@);
    assert(word(seq!['L', 'P', 'T']) =~= lpt@);
    assert(u@.subrange(0, u@.len() as int) =~= u@);
    if u.len() == 3 {
        assert(u@.take(3) =~= u@.subrange(0, 3));
        spells(u, 0, &con) || spells(u, 0, &prn) || spells(u, 0, &aux) || spells(u, 0, &nul)
    } else if u.len() == 6 {
        spells(u, 0, &clock)
    } else if u.len() == 4 {
        assert(u@.take(3) =~= u@.subrange(0, 3));
        (spells(u, 0, &com) || spells(u, 0, &lpt)) && 49 <= u[3] && u[3] <= 57
    } else {
        false
    }
}

impl GameMap {
    /// A map with the given name and no tiles.
    pub fn new_empty(map_name: String) -> (m: GameMap)
        ensures
            m.map_name@ == map_name@,
            m.tiles@.is_empty(),
    {
        GameMap { map_name, tiles: TileMap::new() }
    }

    /// Makes a name usable as a map's file name on every platform: an empty
    /// name becomes `empty`; otherwise whitespace and then periods are
    /// trimmed from both ends, every character that is not alphanumeric
    /// becomes an underscore, and a name that Windows reserves for a device
    /// gets an underscore in front.
    pub fn sanitize_name(name: String) -> (s: String)
        ensures
            s@ == sanitized(name@),
    {
        if name.unicode_len() == 0 {
            proof {
                reveal_strlit("empty");
            }
            return String::from_str("empty");
        }
        let text = name.as_str();
        let n = text.unicode_len();
        let a = skip_front(text, 0, n, false);
        let b = skip_back(text, a, n, false);
        proof {
            assert(text@.subrange(0, n as int) =~= text@);
        }
        let a2 = skip_front(text, a, b, true);
        let b2 = skip_back(text, a2, b, true);
        let ghost kept = text@.subrange(a2 as int, b2 as int);
        assert(kept == trim(trim(name@, false), true));

        let mut chars: Vec<char> = Vec::new();
        let mut upper: Vec<u32> = Vec::new();
        let mut k = a2;
        while k < b2
            invariant
                a2 <= k <= b2 <= text@.len(),
                kept == text@.subrange(a2 as int, b2 as int),
                chars@ == kept.subrange(0, k - a2).map_values(|c: char| replaced(c)),
                upper@ == chars@.map_values(|c: char| upper_code(c)),
            decreases b2 - k,
        {
            let c = text.get_char(k);
            let r = if is_alphanumeric(c) {
                c
            } else {
                '_'
            };
            let code = r as u32;
            let up = if 97 <= code && code <= 122 {
                code - 32
            } else {
                code
            };
            chars.push(r);
            upper.push(up);
            proof {
                assert(kept.subrange(0, k + 1 - a2) =~= kept.subrange(0, k - a2).push(c));
                assert(chars@ =~= kept.subrange(0, k + 1 - a2).map_values(|c: char| replaced(c)));
                assert(upper@ =~= chars@.map_values(|c: char| upper_code(c)));
            }
            k = k + 1;
        }
        assert(kept.subrange(0, b2 - a2) =~= kept);
        assert(chars@ == cleaned(name@));

        let mut out = String::new();
        if is_reserved(&upper) {
            push_char(&mut out, '_');
        }
        let ghost start = out@;
        let mut i: usize = 0;
        while i < chars.len()
            invariant
                0 <= i <= chars@.len(),
                out@ == start + chars@.subrange(0, i as int),
            decreases chars.len() - i,
        {
            push_char(&mut out, chars[i]);
            assert(chars@.subrange(0, i + 1) =~= chars@.subrange(0, i as int).push(chars@[i as int]));
            i = i + 1;
        }
        assert(chars@.subrange(0, chars@.len() as int) =~= chars@);
        assert(start + chars@ =~= sanitized(name@));
        out
    }
}

/// A sanitized name of a non-empty input holds only alphanumeric
/// characters and underscores.
pub proof fn law_sanitized_is_safe(name: Seq<char>)
    requires
        name.len() > 0,
    ensures
        forall|i: int|
            0 <= i < sanitized(name).len() ==> alphanumeric(#[trigger] sanitized(name)[i])
                || sanitized(name)[i] == '_',
{
    let c = cleaned(name);
    if reserved(c.map_values(|c: char| upper_code(c))) {
        assert forall|i: int| 0 <= i < sanitized(name).len() implies alphanumeric(
            #[trigger] sanitized(name)[i],
        ) || sanitized(name)[i] == '_' by {
            if i > 0 {
                assert(sanitized(name)[i] == c[i - 1]);
            }
        }
    }
}

proof fn lemma_strip_front_first(s: Seq<char>, periods: bool)
    ensures
        strip_front(s, periods).len() > 0 ==> !trimmed_char(strip_front(s, periods)[0], periods),
    decreases s.len(),
{
    if s.len() > 0 && trimmed_char(s[0], periods) {
        lemma_strip_front_first(s.drop_first(), periods);
    }
}

proof fn lemma_strip_back_ends(s: Seq<char>, periods: bool)
    ensures
        strip_back(s, periods).len() <= s.len(),
        forall|i: int| 0 <= i < strip_back(s, periods).len() ==> #[trigger] strip_back(s, periods)[i] == s[i],
        strip_back(s, periods).len() > 0 ==> !trimmed_char(strip_back(s, periods).last(), periods),
    decreases s.len(),
{
    if s.len() > 0 && trimmed_char(s.last(), periods) {
        lemma_strip_back_ends(s.drop_last(), periods);
    }
}

/// A sanitized name never starts or ends with a period.
pub proof fn law_sanitized_has_no_edge_periods(name: Seq<char>)
    ensures
        sanitized(name).len() > 0 ==> sanitized(name)[0] != '.',
        sanitized(name).len() > 0 ==> sanitized(name).last() != '.',
{
    let t = trim(name, false);
    lemma_strip_front_first(t, true);
    lemma_strip_back_ends(strip_front(t, true), true);
    let k = trim(t, true);
    let c = cleaned(name);
    assert(c.len() == k.len());
    if k.len() > 0 {
        assert(k[0] == strip_front(t, true)[0]);
        assert(c[0] == replaced(k[0]));
        assert(c.last() == replaced(k.last()));
    }
}

} // verus!
