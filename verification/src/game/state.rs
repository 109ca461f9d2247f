use vstd::prelude::*;

use std::collections::BTreeMap;

use crate::game::registry::{Registry, spec_id_match};
use crate::game::tile::coord::{TileCoord, TileUnit, small, plus, neighbor_vector, tile_fits, tile_distance_fits, distance_fits_to};
use crate::math::hex::cube::{cube_length, cube_of, cube_sub};
use crate::game::tile::entity::{Data, DataMap, TickUnit, TileEntityMsg, TileModifier};
use crate::game::render_cache::{RenderCache, RenderKey};
use crate::game::tiles::{PlacedTile, TileKey, TileMap};
use crate::util::id::Id;

verus! {

broadcast use vstd::laws_cmp::group_laws_cmp, vstd::std_specs::btree::group_btree_axioms;

/// How many user actions can be undone.
pub const UNDO_CACHE_SIZE: usize = 16;

/// What placing a tile did.
#[derive(Debug, Clone, Copy, PartialEq, Eq, Structural)]
pub enum PlaceTileResponse {
    Placed,
    Removed,
    Ignored,
}

/// A message the game receives.
pub enum GameMsg {
    /// Tick every tile once.
    Tick,
    /// The tiles changed in a meaningful way.
    SignalTilesUpdated,
    /// Asks for the last tile update time.
    LastTilesUpdate,
    /// Asks for what to render around `center`, within `range` tiles.
    RenderInfoRequest { center: TileCoord, range: TileUnit },
    /// Places a tile (or, with the "none" id, removes it) at `coord`;
    /// `record` makes the change undoable, `reply` asks for a response.
    PlaceTile { coord: TileCoord, id: Id, tile_modifier: TileModifier, record: bool, reply: bool },
    /// Undoes the last recorded change.
    Undo,
    /// Asks for the tile at a position.
    GetTile(TileCoord),
    /// Asks for the tile entity at a position.
    GetTileEntity(TileCoord),
    /// Passes a message on to the tile entity at a position.
    ForwardMsgToTile(TileCoord, TileEntityMsg),
    /// Checks the tiles around `coord` against a script's adjacency
    /// requirement `adjacent` (a tile that must be next to it, if any), and
    /// tells the tile entity at `self_coord`.
    CheckAdjacent { adjacent: Option<Id>, coord: TileCoord, self_coord: TileCoord },
    /// Takes the map's data out.
    GetDataMap,
    /// Asks for the map's data under a key.
    GetDataValue(Id),
    /// Stores map data under a key.
    SetData(Id, Data),
    /// Removes the map data under a key.
    RemoveData(Id),
    /// Stops the game from handling further changes.
    StopTicking,
}

/// A tile to draw.
#[derive(Debug, Clone, Copy)]
pub struct RenderUnit {
    pub coord: TileCoord,
    pub tile: Id,
    pub model: Id,
}

/// What the game asks its surroundings to do after handling a message.
pub enum GameAction {
    ReplyPlaceTile(PlaceTileResponse),
    ReplyTile(Option<PlacedTile>),
    ReplyLastTilesUpdate(TickUnit),
    ReplyDataMap(DataMap),
    ReplyDataValue(Option<Data>),
    ReplyRenderInfo(Vec<RenderUnit>),
    /// Answer with the tile entity at this position, if there is one.
    ReplyTileEntity(TileCoord),
    /// Stop the tile entity at this position, if there is one, and forget it.
    StopTileEntity(TileCoord),
    /// Start a tile entity for a newly placed tile.
    SpawnTileEntity { coord: TileCoord, id: Id, tile_modifier: TileModifier },
    /// Send a tick with this count to every tile entity.
    TickTileEntities { tick_count: TickUnit },
    /// Send a message to the tile entity at this position, if there is one.
    SendToTileEntity(TileCoord, TileEntityMsg),
    /// Send these messages to the game itself.
    ResendToGame(Vec<GameMsg>),
}

/// The key a coordinate is stored under.
pub open spec fn key_of(c: (int, int, int)) -> (int, int) {
    (c.0, c.1)
}

/// The stored key of a coordinate, as integers.
pub open spec fn key_view(k: TileKey) -> (int, int) {
    (k.0 as int, k.1 as int)
}

/// The tiles as a map from positions to what is placed there.
pub open spec fn tiles_view(m: Map<TileKey, PlacedTile>) -> Map<(int, int), PlacedTile> {
    Map::new(
        |k: (int, int)| i32::MIN <= k.0 <= i32::MAX && i32::MIN <= k.1 <= i32::MAX && m.contains_key((k.0 as i32, k.1 as i32)),
        |k: (int, int)| m[(k.0 as i32, k.1 as i32)],
    )
}

/// The effect of placing `(id, modifier)` at `k` on the tiles: the new
/// tiles, the response, and the step that undoes the change (`None` when
/// nothing changed).
pub open spec fn place_tiles(
    none: Id,
    tiles: Map<(int, int), PlacedTile>,
    k: (int, int),
    id: Id,
    modifier: TileModifier,
) -> (Map<(int, int), PlacedTile>, PlaceTileResponse, Option<PlacedTile>) {
    let previous = if tiles.contains_key(k) { tiles[k] } else { (none, 0) };
    if tiles.contains_key(k) && tiles[k] == (id, modifier) {
        (tiles, PlaceTileResponse::Ignored, None)
    } else if id == none {
        if !tiles.contains_key(k) {
            (tiles, PlaceTileResponse::Ignored, None)
        } else {
            (tiles.remove(k), PlaceTileResponse::Removed, Some(previous))
        }
    } else {
        (tiles.insert(k, (id, modifier)), PlaceTileResponse::Placed, Some(previous))
    }
}

/// The position a slot of the undo ring follows.
pub open spec fn next_slot(i: int) -> int {
    if i == UNDO_CACHE_SIZE - 1 { 0 } else { i + 1 }
}

/// The position a slot of the undo ring comes after.
pub open spec fn prev_slot(i: int) -> int {
    if i == 0 { UNDO_CACHE_SIZE - 1 } else { i - 1 }
}

/// The game: the placed tiles, the map's data, the tick count and the undo
/// ring.
pub struct GameState {
    /// A count of all the ticks that have happened, wrapping around.
    pub tick_count: TickUnit,
    /// The name of the map.
    pub map_name: String,
    /// The placed tiles.
    pub tiles: TileMap,
    /// The map's data.
    pub data: DataMap,
    /// Whether the game ignores further changes.
    pub stopped: bool,
    /// The tick count at the last time the tiles were updated.
    pub last_tiles_update_time: TickUnit,
    /// What to do to undo the last user changes, as a ring.
    pub undo_steps: Vec<Option<Vec<GameMsg>>>,
    /// The slot of the undo ring the next change is recorded in.
    pub undo_steps_index: usize,
    /// The tiles drawn for earlier render requests, by range and center.
    pub render_cache: RenderCache,
}

/// Whether `units` are the tiles to draw around `center` within `range`:
/// each drawn tile once, with its tile and model.
pub open spec fn rendered(
    reg: &Registry,
    tiles: Map<TileKey, PlacedTile>,
    center: (int, int, int),
    range: int,
    units: Seq<RenderUnit>,
) -> bool {
    &&& forall|i: int| 0 <= i < units.len() ==> {
        let u = #[trigger] units[i];
        let k = (u.coord@.0 as TileUnit, u.coord@.1 as TileUnit);
        &&& u.coord@ == cube_of(k.0 as int, k.1 as int)
        &&& drawn(reg, tiles, center, range, k)
        &&& tiles[k].0 == u.tile
        &&& model_of(reg, tiles[k]) == Some(u.model)
    }
    &&& forall|k: TileKey| drawn(reg, tiles, center, range, k) ==> exists|i: int|
        0 <= i < units.len() && (#[trigger] units[i]).coord@ == cube_of(k.0 as int, k.1 as int)
    &&& forall|i: int, j: int| 0 <= i < j < units.len() ==> units[i].coord@ != units[j].coord@
}

/// Whether every entry of the render cache holds the tiles drawn for its
/// range and center.
pub open spec fn cache_ok(reg: &Registry, tiles: Map<TileKey, PlacedTile>, cache: Map<RenderKey, Seq<RenderUnit>>) -> bool {
    forall|k: RenderKey| #[trigger] cache.contains_key(k) ==> rendered(reg, tiles, cube_of(k.1 as int, k.2 as int), k.0 as int, cache[k])
}

/// The key a render request for `range` around `center` is cached under.
pub open spec fn render_key(range: TileUnit, center: TileCoord) -> RenderKey {
    (range, center@.0 as TileUnit, center@.1 as TileUnit)
}

impl GameState {
    /// The internal consistency of the game: the undo ring has its size and
    /// index, no position holds the "none" tile, and every position is small
    /// enough to compute with.
    pub open spec fn wf(&self, reg: &Registry) -> bool {
        &&& self.undo_steps@.len() == UNDO_CACHE_SIZE
        &&& self.undo_steps_index < UNDO_CACHE_SIZE
        &&& forall|k: TileKey| #[trigger] self.tiles@.contains_key(k) ==> {
            &&& self.tiles@[k].0 != reg.none
            &&& tile_fits(k.0 as int, k.1 as int)
        }
        &&& cache_ok(reg, self.tiles@, self.render_cache@)
    }

    /// A new game on an empty map.
    pub fn new(map_name: String) -> (s: GameState)
        ensures
            s.tick_count == 0,
            s.map_name == map_name,
            s.tiles@.is_empty(),
            s.data@.is_empty(),
            !s.stopped,
            s.last_tiles_update_time == 0,
            s.undo_steps@.len() == UNDO_CACHE_SIZE,
            forall|i: int| 0 <= i < UNDO_CACHE_SIZE ==> s.undo_steps@[i] is None,
            s.undo_steps_index == 0,
            s.render_cache@.is_empty(),
    {
        let mut undo_steps: Vec<Option<Vec<GameMsg>>> = Vec::new();
        let mut i: usize = 0;
        while i < UNDO_CACHE_SIZE
            invariant
                0 <= i <= UNDO_CACHE_SIZE,
                undo_steps@.len() == i,
                forall|j: int| 0 <= j < i ==> undo_steps@[j] is None,
            decreases UNDO_CACHE_SIZE - i,
        {
            undo_steps.push(None);
            i = i + 1;
        }
        GameState {
            tick_count: 0,
            map_name,
            tiles: TileMap::new(),
            data: BTreeMap::new(),
            stopped: false,
            last_tiles_update_time: 0,
            undo_steps,
            undo_steps_index: 0,
            render_cache: RenderCache::new(),
        }
    }

    /// Records one undo step in the next slot of the ring, overwriting the
    /// oldest.
    pub fn add_undo_step(&mut self, step: Vec<GameMsg>)
        requires
            old(self).undo_steps@.len() == UNDO_CACHE_SIZE,
            old(self).undo_steps_index < UNDO_CACHE_SIZE,
        ensures
            final(self).undo_steps@ == old(self).undo_steps@.update(old(self).undo_steps_index as int, Some(step)),
            final(self).undo_steps_index == next_slot(old(self).undo_steps_index as int),
            final(self).tick_count == old(self).tick_count,
            final(self).map_name == old(self).map_name,
            final(self).tiles == old(self).tiles,
            final(self).data == old(self).data,
            final(self).stopped == old(self).stopped,
            final(self).last_tiles_update_time == old(self).last_tiles_update_time,
            final(self).render_cache == old(self).render_cache,
    {
        let index = self.undo_steps_index;
        self.undo_steps.set(index, Some(step));
        if self.undo_steps_index == UNDO_CACHE_SIZE - 1 {
            self.undo_steps_index = 0;
        } else {
            self.undo_steps_index = self.undo_steps_index + 1;
        }
    }

    /// Takes the last recorded undo step out of the ring, stepping the ring
    /// back. When every slot is empty nothing changes and `None` comes back.
    pub fn undo_once(&mut self) -> (step: Option<Vec<GameMsg>>)
        requires
            old(self).undo_steps@.len() == UNDO_CACHE_SIZE,
            old(self).undo_steps_index < UNDO_CACHE_SIZE,
        ensures
            final(self).tick_count == old(self).tick_count,
            final(self).map_name == old(self).map_name,
            final(self).tiles == old(self).tiles,
            final(self).data == old(self).data,
            final(self).stopped == old(self).stopped,
            final(self).last_tiles_update_time == old(self).last_tiles_update_time,
            final(self).render_cache == old(self).render_cache,
            final(self).undo_steps@.len() == UNDO_CACHE_SIZE,
            final(self).undo_steps_index < UNDO_CACHE_SIZE,
            (forall|i: int| 0 <= i < UNDO_CACHE_SIZE ==> old(self).undo_steps@[i] is None) ==> {
                &&& step is None
                &&& final(self).undo_steps@ == old(self).undo_steps@
                &&& final(self).undo_steps_index == old(self).undo_steps_index
            },
            !(forall|i: int| 0 <= i < UNDO_CACHE_SIZE ==> old(self).undo_steps@[i] is None) ==> {
                let j = prev_slot(old(self).undo_steps_index as int);
                &&& step == old(self).undo_steps@[j]
                &&& final(self).undo_steps@ == old(self).undo_steps@.update(j, None)
                &&& final(self).undo_steps_index == j
            },
    {
        let mut any = false;
        let mut i: usize = 0;
        while i < UNDO_CACHE_SIZE
            invariant
                0 <= i <= UNDO_CACHE_SIZE,
                self.undo_steps@.len() == UNDO_CACHE_SIZE,
                any == exists|j: int| 0 <= j < i && self.undo_steps@[j] is Some,
            decreases UNDO_CACHE_SIZE - i,
        {
            if self.undo_steps[i].is_some() {
                any = true;
            }
            i = i + 1;
        }
        if !any {
            return None;
        }
        if self.undo_steps_index == 0 {
            self.undo_steps_index = UNDO_CACHE_SIZE - 1;
        } else {
            self.undo_steps_index = self.undo_steps_index - 1;
        }
        let index = self.undo_steps_index;
        let mut taken: Option<Vec<GameMsg>> = None;
        std::mem::swap(&mut taken, &mut self.undo_steps[index]);
        taken
    }
}

/// The model a tile placed as `(id, modifier)` is drawn with, if the
/// registry has one for that modifier.
pub open spec fn model_of(reg: &Registry, placed: PlacedTile) -> Option<Id> {
    let (id, modifier) = placed;
    if reg.tiles@.contains_key(id) && 0 <= modifier < reg.tiles@[id].models@.len() {
        Some(reg.tiles@[id].models@[modifier as int])
    } else {
        None
    }
}

/// Whether the tile stored under `k` is drawn around `center` within
/// `range`: it is close enough and has a model.
pub open spec fn drawn(reg: &Registry, tiles: Map<TileKey, PlacedTile>, center: (int, int, int), range: int, k: TileKey) -> bool {
    &&& tiles.contains_key(k)
    &&& cube_length(cube_sub(center, cube_of(k.0 as int, k.1 as int))) <= range
    &&& model_of(reg, tiles[k]) is Some
}

/// Whether some tile next to `c` matches `adjacent`.
pub open spec fn adjacent_matches(reg: &Registry, tiles: Map<TileKey, PlacedTile>, c: (int, int, int), adjacent: Id) -> bool {
    exists|j: int| 0 <= j < 6 && {
        let n = #[trigger] plus(c, neighbor_vector(j));
        let k = (n.0 as TileUnit, n.1 as TileUnit);
        &&& tiles.contains_key(k)
        &&& spec_id_match(reg.tags@, tiles[k].0, adjacent)
    }
}

impl GameState {
    /// The unit to draw for the tile placed at `k`, if it is drawn.
    fn render_unit_of(&self, reg: &Registry, center: TileCoord, range: TileUnit, k: TileKey, placed: PlacedTile) -> (u: Option<RenderUnit>)
        requires
            self.wf(reg),
            render_fits(self.tiles@, center@),
            self.tiles@.contains_key(k),
            self.tiles@[k] == placed,
        ensures
            u is Some <==> drawn(reg, self.tiles@, center@, range as int, k),
            u matches Some(u) ==> {
                &&& u.coord@ == cube_of(k.0 as int, k.1 as int)
                &&& u.tile == placed.0
                &&& model_of(reg, placed) == Some(u.model)
            },
    {
        let (id, modifier) = placed;
        let coord = TileCoord::new(k.0, k.1);
        let d = center.distance(coord);
        if d > range {
            return None;
        }
        match reg.tile(id) {
            Some(tile) => {
                if modifier >= 0 && (modifier as usize) < tile.models.len() {
                    let model = tile.models[modifier as usize];
                    Some(RenderUnit { coord, tile: id, model })
                } else {
                    None
                }
            },
            None => None,
        }
    }

    /// The tiles to draw around `center`, within `range` steps: each placed
    /// tile that close which has a model for its modifier, once, with that
    /// model. The order is the tile map's and is not stated.
    #[verifier::spinoff_prover]
    #[verifier::rlimit(40)]
    pub fn render_units(&self, reg: &Registry, center: TileCoord, range: TileUnit) -> (units: Vec<RenderUnit>)
        requires
            self.wf(reg),
            render_fits(self.tiles@, center@),
        ensures
            rendered(reg, self.tiles@, center@, range as int, units@),
    {
        let entries = self.tiles.entries();
        let mut units: Vec<RenderUnit> = Vec::new();
        let ghost mut idx: Seq<int> = Seq::empty();
        let mut i: usize = 0;
        while i < entries.len()
            invariant
                0 <= i <= entries.len(),
                self.wf(reg),
                render_fits(self.tiles@, center@),
                entries@.no_duplicates(),
                forall|j: int| 0 <= j < entries@.len() ==> {
                    let (k, v) = #[trigger] entries@[j];
                    self.tiles@.contains_key(k) && self.tiles@[k] == v
                },
                idx.len() == units@.len(),
                forall|j: int| 0 <= j < idx.len() ==> 0 <= #[trigger] idx[j] < i,
                forall|a: int, b: int| 0 <= a < b < idx.len() ==> idx[a] < idx[b],
                forall|j: int| 0 <= j < units@.len() ==> {
                    let u = #[trigger] units@[j];
                    let k = entries@[idx[j]].0;
                    &&& u.coord@ == cube_of(k.0 as int, k.1 as int)
                    &&& drawn(reg, self.tiles@, center@, range as int, k)
                    &&& self.tiles@[k].0 == u.tile
                    &&& model_of(reg, self.tiles@[k]) == Some(u.model)
                },
                forall|e: int| 0 <= e < i && drawn(reg, self.tiles@, center@, range as int, entries@[e].0) ==> idx.contains(e),
            decreases entries.len() - i,
        {
            let (k, placed) = entries[i];
            let ghost idx0 = idx;
            proof {
                assert(self.tiles@.contains_key(k));
            }
            match self.render_unit_of(reg, center, range, k, placed) {
                Some(u) => {
                    let ghost units0 = units@;
                    units.push(u);
                    proof {
                        idx = idx.push(i as int);
                        assert forall|j: int| 0 <= j < units@.len() implies {
                            let u = #[trigger] units@[j];
                            let k = entries@[idx[j]].0;
                            &&& u.coord@ == cube_of(k.0 as int, k.1 as int)
                            &&& drawn(reg, self.tiles@, center@, range as int, k)
                            &&& self.tiles@[k].0 == u.tile
                            &&& model_of(reg, self.tiles@[k]) == Some(u.model)
                        } by {
                            if j < units0.len() {
                                assert(units@[j] == units0[j]);
                                assert(idx[j] == idx0[j]);
                            }
                        }
                    }
                },
                None => {},
            }
            proof {
                assert forall|e: int| 0 <= e < i + 1 && drawn(reg, self.tiles@, center@, range as int, entries@[e].0) implies idx.contains(e) by {
                    if e == i {
                        assert(idx[idx.len() - 1] == e);
                    } else {
                        assert(idx0.contains(e));
                        let w = choose|w: int| 0 <= w < idx0.len() && idx0[w] == e;
                        assert(idx[w] == e);
                    }
                }
                assert forall|j: int| 0 <= j < units@.len() implies {
                    let u = #[trigger] units@[j];
                    let k = entries@[idx[j]].0;
                    &&& u.coord@ == cube_of(k.0 as int, k.1 as int)
                    &&& drawn(reg, self.tiles@, center@, range as int, k)
                    &&& self.tiles@[k].0 == u.tile
                    &&& model_of(reg, self.tiles@[k]) == Some(u.model)
                } by {
                    if j < idx0.len() {
                        assert(idx[j] == idx0[j]);
                    }
                }
            }
            i = i + 1;
        }
        proof {
            assert forall|a: int, b: int| 0 <= a < b < units@.len() implies units@[a].coord@ != units@[b].coord@ by {
                let ka = entries@[idx[a]].0;
                let kb = entries@[idx[b]].0;
                if units@[a].coord@ == units@[b].coord@ {
                    assert(ka == kb);
                    assert(entries@[idx[a]] == entries@[idx[b]]);
                }
            }
            assert forall|j: int| 0 <= j < units@.len() implies {
                let u = #[trigger] units@[j];
                let k = (u.coord@.0 as TileUnit, u.coord@.1 as TileUnit);
                &&& u.coord@ == cube_of(k.0 as int, k.1 as int)
                &&& drawn(reg, self.tiles@, center@, range as int, k)
                &&& self.tiles@[k].0 == u.tile
                &&& model_of(reg, self.tiles@[k]) == Some(u.model)
            } by {
                let k = entries@[idx[j]].0;
                assert((units@[j].coord@.0 as TileUnit, units@[j].coord@.1 as TileUnit) == k);
            }
            assert forall|k: TileKey| drawn(reg, self.tiles@, center@, range as int, k) implies exists|j: int|
                0 <= j < units@.len() && (#[trigger] units@[j]).coord@ == cube_of(k.0 as int, k.1 as int) by {
                let e = choose|e: int| 0 <= e < entries@.len() && entries@[e] == (k, self.tiles@[k]);
                assert(entries@[e].0 == k);
                assert(idx.contains(e));
                let w = choose|w: int| 0 <= w < idx.len() && idx[w] == e;
                assert(units@[w].coord@ == cube_of(k.0 as int, k.1 as int));
            }
        }
        units
    }
}

/// The message that undoes placing at `coord`: placing back what was there.
pub open spec fn undo_message(coord: TileCoord, previous: PlacedTile) -> GameMsg {
    GameMsg::PlaceTile { coord, id: previous.0, tile_modifier: previous.1, record: false, reply: false }
}

/// The relation `place_tile` establishes between the game before and after,
/// and the actions it asks for.
pub open spec fn place_tile_spec(
    reg: &Registry,
    old_s: &GameState,
    new_s: &GameState,
    coord: TileCoord,
    id: Id,
    tile_modifier: TileModifier,
    record: bool,
    reply: bool,
    acts: Seq<GameAction>,
) -> bool {
    let (tiles, response, undo) = place_tiles(reg.none, tiles_view(old_s.tiles@), key_of(coord@), id, tile_modifier);
    let r: int = if reply { 1 } else { 0 };
    &&& tiles_view(new_s.tiles@) == tiles
    &&& new_s.tick_count == old_s.tick_count
    &&& new_s.map_name == old_s.map_name
    &&& new_s.data == old_s.data
    &&& new_s.stopped == old_s.stopped
    &&& reply ==> acts[0] == GameAction::ReplyPlaceTile(response)
    &&& match undo {
        None => {
            &&& acts.len() == r
            &&& new_s.last_tiles_update_time == old_s.last_tiles_update_time
            &&& new_s.undo_steps@ == old_s.undo_steps@
            &&& new_s.undo_steps_index == old_s.undo_steps_index
            &&& new_s.render_cache@ == old_s.render_cache@
        },
        Some(previous) => {
            let spawn: int = if id != reg.none { 1 } else { 0 };
            &&& acts.len() == r + 1 + spawn
            &&& acts[r] == GameAction::StopTileEntity(coord)
            &&& spawn == 1 ==> acts[r + 1] == (GameAction::SpawnTileEntity { coord, id, tile_modifier })
            &&& new_s.render_cache@.is_empty()
            &&& new_s.last_tiles_update_time == old_s.tick_count
            &&& if record {
                &&& new_s.undo_steps@.len() == old_s.undo_steps@.len()
                &&& forall|j: int| 0 <= j < old_s.undo_steps@.len() && j != old_s.undo_steps_index ==> new_s.undo_steps@[j] == old_s.undo_steps@[j]
                &&& new_s.undo_steps@[old_s.undo_steps_index as int] matches Some(step) && step@ == seq![undo_message(coord, previous)]
                &&& new_s.undo_steps_index == next_slot(old_s.undo_steps_index as int)
            } else {
                &&& new_s.undo_steps@ == old_s.undo_steps@
                &&& new_s.undo_steps_index == old_s.undo_steps_index
            }
        },
    }
}

impl GameState {
    /// Places the tile `id` with `tile_modifier` at `coord`, or removes the
    /// tile there when `id` is the "none" tile. Placing what is already there,
    /// or removing from an empty position, is ignored. A change stops the old
    /// tile entity, starts a new one for a placed tile, records the update
    /// time, and, with `record`, the step that undoes it.
    pub fn place_tile(
        &mut self,
        reg: &Registry,
        coord: TileCoord,
        id: Id,
        tile_modifier: TileModifier,
        record: bool,
        reply: bool,
    ) -> (acts: Vec<GameAction>)
        requires
            old(self).wf(reg),
        ensures
            final(self).wf(reg),
            place_tile_spec(reg, &*old(self), &*final(self), coord, id, tile_modifier, record, reply, acts@),
    {
        let k: TileKey = (coord.q(), coord.r());
        let ghost tv = tiles_view(self.tiles@);
        proof {
            coord.lemma_cube();
            assert(key_of(coord@) == key_view(k));
            assert(tv.contains_key(key_view(k)) == self.tiles@.contains_key(k));
        }
        let mut acts: Vec<GameAction> = Vec::new();
        let current = self.tiles.get(k);
        if let Some((old_id, old_modifier)) = current {
            if old_modifier == tile_modifier && old_id == id {
                if reply {
                    acts.push(GameAction::ReplyPlaceTile(PlaceTileResponse::Ignored));
                }
                return acts;
            }
        }
        let previous = if id == reg.none {
            if current.is_none() {
                if reply {
                    acts.push(GameAction::ReplyPlaceTile(PlaceTileResponse::Ignored));
                }
                return acts;
            }
            if reply {
                acts.push(GameAction::ReplyPlaceTile(PlaceTileResponse::Removed));
            }
            acts.push(GameAction::StopTileEntity(coord));
            self.tiles.remove(k)
        } else {
            if reply {
                acts.push(GameAction::ReplyPlaceTile(PlaceTileResponse::Placed));
            }
            acts.push(GameAction::StopTileEntity(coord));
            let old = self.tiles.remove(k);
            acts.push(GameAction::SpawnTileEntity { coord, id, tile_modifier });
            self.tiles.insert(k, (id, tile_modifier));
            old
        };
        proof {
            assert(tiles_view(self.tiles@) =~= place_tiles(reg.none, tv, key_of(coord@), id, tile_modifier).0);
        }
        if record {
            let (undo_id, undo_modifier) = match previous {
                Some(p) => p,
                None => (reg.none, 0),
            };
            let mut step: Vec<GameMsg> = Vec::new();
            step.push(GameMsg::PlaceTile { coord, id: undo_id, tile_modifier: undo_modifier, record: false, reply: false });
            assert(step@ == seq![undo_message(coord, (undo_id, undo_modifier))]);
            self.add_undo_step(step);
        }
        self.last_tiles_update_time = self.tick_count;
        self.render_cache.clear();
        acts
    }
}

/// Whether handling `msg` in `s` cannot overflow: the distance from a
/// render request's center to every tile, and the neighbors of a position
/// whose adjacency is checked, can be computed.
pub open spec fn game_msg_ok(s: &GameState, msg: GameMsg) -> bool {
    match msg {
        GameMsg::RenderInfoRequest { center, .. } => render_fits(s.tiles@, center@),
        GameMsg::CheckAdjacent { coord, .. } => neighbors_fit(coord@),
        _ => true,
    }
}

/// Whether the distance from `center` to every placed tile can be computed.
pub open spec fn render_fits(tiles: Map<TileKey, PlacedTile>, center: (int, int, int)) -> bool {
    forall|k: TileKey| #[trigger] tiles.contains_key(k) ==> tile_distance_fits(center, cube_of(k.0 as int, k.1 as int))
}

/// Whether the six neighbors of `c` are valid coordinates.
pub open spec fn neighbors_fit(c: (int, int, int)) -> bool {
    small(c, 0x7ffffffe)
}

impl GameState {
    /// Whether `handle` may be given `msg`: the game is stopped, or handling
    /// it cannot overflow. Exactly the condition `handle` requires.
    pub fn can_handle(&self, msg: &GameMsg) -> (b: bool)
        ensures
            b == (self.stopped || game_msg_ok(self, *msg)),
    {
        if self.stopped {
            return true;
        }
        match msg {
            GameMsg::RenderInfoRequest { center, .. } => {
                let entries = self.tiles.entries();
                let mut i: usize = 0;
                while i < entries.len()
                    invariant
                        0 <= i <= entries.len(),
                        !self.stopped,
                        game_msg_ok(self, *msg) == render_fits(self.tiles@, center@),
                        forall|j: int| 0 <= j < entries@.len() ==> self.tiles@.contains_key(#[trigger] entries@[j].0),
                        forall|k: TileKey| #[trigger] self.tiles@.contains_key(k) ==> exists|j: int|
                            0 <= j < entries@.len() && entries@[j].0 == k,
                        forall|j: int| 0 <= j < i ==> tile_distance_fits(
                            center@,
                            cube_of((#[trigger] entries@[j]).0.0 as int, entries@[j].0.1 as int),
                        ),
                    decreases entries.len() - i,
                {
                    let (k, _) = entries[i];
                    if !distance_fits_to(*center, k.0, k.1) {
                        proof {
                            let kk = entries@[i as int].0;
                            assert(self.tiles@.contains_key(kk));
                            assert(!tile_distance_fits(center@, cube_of(kk.0 as int, kk.1 as int)));
                            assert(!render_fits(self.tiles@, center@));
                        }
                        return false;
                    }
                    i = i + 1;
                }
                assert forall|k: TileKey| #[trigger] self.tiles@.contains_key(k) implies tile_distance_fits(
                    center@,
                    cube_of(k.0 as int, k.1 as int),
                ) by {
                    let j = choose|j: int| 0 <= j < entries@.len() && entries@[j].0 == k;
                    assert(tile_distance_fits(center@, cube_of(entries@[j].0.0 as int, entries@[j].0.1 as int)));
                }
                true
            },
            GameMsg::CheckAdjacent { coord, .. } => {
                let q = coord.q();
                let r = coord.r();
                let s = coord.s();
                -0x7ffffffe <= q && q <= 0x7ffffffe && -0x7ffffffe <= r && r <= 0x7ffffffe && -0x7ffffffe <= s
                    && s <= 0x7ffffffe
            },
            _ => true,
        }
    }
}

/// A copy of `units`.
fn copy_units(units: &Vec<RenderUnit>) -> (c: Vec<RenderUnit>)
    ensures
        c@ == units@,
{
    let mut c: Vec<RenderUnit> = Vec::new();
    let mut i: usize = 0;
    while i < units.len()
        invariant
            0 <= i <= units.len(),
            c@ == units@.take(i as int),
        decreases units.len() - i,
    {
        c.push(units[i]);
        i = i + 1;
        assert(c@ =~= units@.take(i as int));
    }
    assert(units@.take(units@.len() as int) =~= units@);
    c
}

impl GameState {
    /// The number of render results the game keeps.
    pub fn render_cache_len(&self) -> (n: usize)
        ensures
            n == self.render_cache@.len(),
    {
        self.render_cache.len()
    }
}

/// Whether `msg` is handled even while the game is stopped.
pub open spec fn handled_when_stopped(msg: GameMsg) -> bool {
    msg is GetDataMap || msg is GetDataValue || msg is LastTilesUpdate
}

/// Whether two games agree on everything but the fields a handler may
/// change: the tick count, the tiles, the data, the stopped flag, the update
/// time and the undo ring.
pub open spec fn same_game(a: &GameState, b: &GameState) -> bool {
    &&& a.tick_count == b.tick_count
    &&& a.map_name == b.map_name
    &&& a.tiles == b.tiles
    &&& a.data@ == b.data@
    &&& a.stopped == b.stopped
    &&& a.last_tiles_update_time == b.last_tiles_update_time
    &&& a.undo_steps@ == b.undo_steps@
    &&& a.undo_steps_index == b.undo_steps_index
    &&& a.render_cache@ == b.render_cache@
}

/// The relation `handle` establishes between the game before and after, and
/// the actions it asks for.
pub open spec fn game_handle_spec(reg: &Registry, old_s: &GameState, new_s: &GameState, msg: GameMsg, acts: Seq<GameAction>) -> bool {
    if old_s.stopped && !handled_when_stopped(msg) {
        same_game(old_s, new_s) && acts.len() == 0
    } else {
        match msg {
            GameMsg::Tick => {
                &&& new_s.tick_count == (old_s.tick_count + 1) % 0x10000
                &&& same_game(old_s, &GameState { tick_count: old_s.tick_count, ..*new_s })
                &&& acts == seq![GameAction::TickTileEntities { tick_count: old_s.tick_count }]
            },
            GameMsg::SignalTilesUpdated => {
                &&& same_game(&GameState { last_tiles_update_time: old_s.last_tiles_update_time, ..*new_s }, old_s)
                &&& new_s.last_tiles_update_time == old_s.tick_count
                &&& acts.len() == 0
            },
            GameMsg::LastTilesUpdate => same_game(old_s, new_s) && acts == seq![
                GameAction::ReplyLastTilesUpdate(old_s.last_tiles_update_time),
            ],
            GameMsg::RenderInfoRequest { center, range } => {
                let cache = old_s.render_cache@;
                let key = render_key(range, center);
                &&& same_game(old_s, &GameState { render_cache: old_s.render_cache, ..*new_s })
                &&& acts.len() == 1
                &&& acts[0] matches GameAction::ReplyRenderInfo(units) && {
                    &&& rendered(reg, old_s.tiles@, center@, range as int, units@)
                    &&& if cache.contains_key(key) {
                        &&& new_s.render_cache@ == cache
                        &&& units@ == cache[key]
                    } else {
                        let kept = if cache.len() > 16 { Map::empty() } else { cache };
                        new_s.render_cache@ == kept.insert(key, units@)
                    }
                }
            },
            GameMsg::PlaceTile { coord, id, tile_modifier, record, reply } => place_tile_spec(
                reg,
                old_s,
                new_s,
                coord,
                id,
                tile_modifier,
                record,
                reply,
                acts,
            ),
            GameMsg::Undo => {
                let none_recorded = forall|i: int| 0 <= i < UNDO_CACHE_SIZE ==> old_s.undo_steps@[i] is None;
                let j = prev_slot(old_s.undo_steps_index as int);
                &&& new_s.tick_count == old_s.tick_count
                &&& new_s.tiles == old_s.tiles
                &&& new_s.data@ == old_s.data@
                &&& new_s.stopped == old_s.stopped
                &&& new_s.last_tiles_update_time == old_s.last_tiles_update_time
                &&& new_s.render_cache@ == old_s.render_cache@
                &&& if none_recorded {
                    &&& new_s.undo_steps@ == old_s.undo_steps@
                    &&& new_s.undo_steps_index == old_s.undo_steps_index
                    &&& acts.len() == 0
                } else {
                    &&& new_s.undo_steps@ == old_s.undo_steps@.update(j, None)
                    &&& new_s.undo_steps_index == j
                    &&& match old_s.undo_steps@[j] {
                        Some(step) => acts.len() == 1 && (acts[0] matches GameAction::ResendToGame(msgs) && msgs@ == step@),
                        None => acts.len() == 0,
                    }
                }
            },
            GameMsg::GetTile(coord) => {
                let k = (coord@.0 as TileUnit, coord@.1 as TileUnit);
                &&& same_game(old_s, new_s)
                &&& acts == seq![
                    GameAction::ReplyTile(
                        if old_s.tiles@.contains_key(k) { Some(old_s.tiles@[k]) } else { None },
                    ),
                ]
            },
            GameMsg::GetTileEntity(coord) => same_game(old_s, new_s) && acts == seq![GameAction::ReplyTileEntity(coord)],
            GameMsg::ForwardMsgToTile(coord, m) => {
                &&& same_game(old_s, new_s)
                &&& acts.len() == 1
                &&& acts[0] matches GameAction::SendToTileEntity(c, m2) && c == coord && m2 == m
            },
            GameMsg::CheckAdjacent { adjacent, coord, self_coord } => {
                let fulfilled = match adjacent {
                    Some(adjacent) => adjacent_matches(reg, old_s.tiles@, coord@, adjacent),
                    None => true,
                };
                &&& same_game(old_s, new_s)
                &&& acts == seq![
                    GameAction::SendToTileEntity(self_coord, TileEntityMsg::AdjacentState { fulfilled }),
                ]
            },
            GameMsg::GetDataMap => {
                &&& same_game(&GameState { data: old_s.data, ..*new_s }, old_s)
                &&& new_s.data@.is_empty()
                &&& acts.len() == 1
                &&& acts[0] matches GameAction::ReplyDataMap(d) && d@ == old_s.data@
            },
            GameMsg::GetDataValue(key) => {
                &&& same_game(old_s, new_s)
                &&& acts.len() == 1
                &&& acts[0] matches GameAction::ReplyDataValue(v) && match v {
                    Some(d) => old_s.data@.contains_key(key) && d@ == old_s.data@[key]@,
                    None => !old_s.data@.contains_key(key),
                }
            },
            GameMsg::SetData(key, value) => {
                &&& same_game(&GameState { data: old_s.data, ..*new_s }, old_s)
                &&& new_s.data@ == old_s.data@.insert(key, value)
                &&& acts.len() == 0
            },
            GameMsg::RemoveData(key) => {
                &&& same_game(&GameState { data: old_s.data, ..*new_s }, old_s)
                &&& new_s.data@ == old_s.data@.remove(key)
                &&& acts.len() == 0
            },
            GameMsg::StopTicking => {
                &&& same_game(&GameState { stopped: false, ..*new_s }, &GameState { stopped: false, ..*old_s })
                &&& new_s.stopped
                &&& acts.len() == 0
            },
        }
    }
}

impl GameState {
    /// Whether a tile next to `coord` matches `adjacent`.
    fn check_adjacent(&self, reg: &Registry, coord: TileCoord, adjacent: Id) -> (b: bool)
        requires
            neighbors_fit(coord@),
        ensures
            b == adjacent_matches(reg, self.tiles@, coord@, adjacent),
    {
        proof {
            coord.lemma_cube();
        }
        let mut j: usize = 0;
        while j < 6
            invariant
                0 <= j <= 6,
                neighbors_fit(coord@),
                coord@ == cube_of(coord@.0, coord@.1),
                forall|i: int| 0 <= i < j ==> {
                    let n = #[trigger] plus(coord@, neighbor_vector(i));
                    let k = (n.0 as TileUnit, n.1 as TileUnit);
                    !(self.tiles@.contains_key(k) && spec_id_match(reg.tags@, self.tiles@[k].0, adjacent))
                },
            decreases 6 - j,
        {
            let neighbor = coord.add(TileCoord::neighbor(j));
            let k: TileKey = (neighbor.q(), neighbor.r());
            if let Some((id, _)) = self.tiles.get(k) {
                if reg.id_match(id, adjacent) {
                    assert({
                        let n = plus(coord@, neighbor_vector(j as int));
                        let k = (n.0 as TileUnit, n.1 as TileUnit);
                        &&& self.tiles@.contains_key(k)
                        &&& spec_id_match(reg.tags@, self.tiles@[k].0, adjacent)
                    });
                    return true;
                }
            }
            j = j + 1;
        }
        false
    }

    /// Handles one message and returns what the surroundings are asked to
    /// do. While the game is stopped, only the data and update-time queries
    /// are answered.
    pub fn handle(&mut self, reg: &Registry, msg: GameMsg) -> (acts: Vec<GameAction>)
        requires
            old(self).wf(reg),
            old(self).stopped || game_msg_ok(&*old(self), msg),
        ensures
            final(self).wf(reg),
            game_handle_spec(reg, &*old(self), &*final(self), msg, acts@),
    {
        let mut acts: Vec<GameAction> = Vec::new();
        match msg {
            GameMsg::GetDataMap => {
                let mut taken: DataMap = BTreeMap::new();
                std::mem::swap(&mut taken, &mut self.data);
                acts.push(GameAction::ReplyDataMap(taken));
                return acts;
            },
            GameMsg::GetDataValue(key) => {
                let value = match self.data.get(&key) {
                    Some(d) => Some(d.clone()),
                    None => None,
                };
                acts.push(GameAction::ReplyDataValue(value));
                return acts;
            },
            GameMsg::LastTilesUpdate => {
                acts.push(GameAction::ReplyLastTilesUpdate(self.last_tiles_update_time));
                return acts;
            },
            _ => {},
        }
        if self.stopped {
            return acts;
        }
        match msg {
            GameMsg::SignalTilesUpdated => {
                self.last_tiles_update_time = self.tick_count;
            },
            GameMsg::Tick => {
                acts.push(GameAction::TickTileEntities { tick_count: self.tick_count });
                self.tick_count = self.tick_count.wrapping_add(1);
            },
            GameMsg::RenderInfoRequest { center, range } => {
                let key: RenderKey = (range, center.q(), center.r());
                proof {
                    center.lemma_cube();
                    assert(key == render_key(range, center));
                }
                match self.render_cache.get(key) {
                    Some(units) => {
                        acts.push(GameAction::ReplyRenderInfo(units));
                    },
                    None => {
                        let units = self.render_units(reg, center, range);
                        let stored = copy_units(&units);
                        if self.render_cache.len() > 16 {
                            self.render_cache.clear();
                            assert(self.render_cache@ =~= Map::empty());
                        }
                        self.render_cache.insert(key, stored);
                        acts.push(GameAction::ReplyRenderInfo(units));
                    },
                }
            },
            GameMsg::PlaceTile { coord, id, tile_modifier, record, reply } => {
                return self.place_tile(reg, coord, id, tile_modifier, record, reply);
            },
            GameMsg::GetTile(coord) => {
                let k: TileKey = (coord.q(), coord.r());
                acts.push(GameAction::ReplyTile(self.tiles.get(k)));
            },
            GameMsg::GetTileEntity(coord) => {
                acts.push(GameAction::ReplyTileEntity(coord));
            },
            GameMsg::ForwardMsgToTile(coord, m) => {
                acts.push(GameAction::SendToTileEntity(coord, m));
            },
            GameMsg::SetData(key, value) => {
                self.data.insert(key, value);
            },
            GameMsg::RemoveData(key) => {
                self.data.remove(&key);
            },
            GameMsg::CheckAdjacent { adjacent, coord, self_coord } => {
                let fulfilled = match adjacent {
                    Some(adjacent) => self.check_adjacent(reg, coord, adjacent),
                    None => true,
                };
                acts.push(GameAction::SendToTileEntity(self_coord, TileEntityMsg::AdjacentState { fulfilled }));
            },
            GameMsg::StopTicking => {
                self.stopped = true;
            },
            GameMsg::Undo => {
                if let Some(step) = self.undo_once() {
                    acts.push(GameAction::ResendToGame(step));
                }
            },
            _ => {},
        }
        acts
    }
}

/// Placing a tile and then placing back what was there before restores the
/// tiles exactly, provided no position held the "none" tile.
pub proof fn law_place_then_place_back_restores(
    none: Id,
    tiles: Map<(int, int), PlacedTile>,
    k: (int, int),
    id: Id,
    modifier: TileModifier,
)
    requires
        forall|j: (int, int)| #[trigger] tiles.contains_key(j) ==> tiles[j].0 != none,
    ensures
        place_tiles(none, tiles, k, id, modifier).2 matches Some(previous) ==> place_tiles(
            none,
            place_tiles(none, tiles, k, id, modifier).0,
            k,
            previous.0,
            previous.1,
        ).0 == tiles,
{
    let (t1, _, undo) = place_tiles(none, tiles, k, id, modifier);
    if let Some(previous) = undo {
        if tiles.contains_key(k) {
            assert(previous == tiles[k]);
            if id == none {
                assert(place_tiles(none, t1, k, previous.0, previous.1).0 =~= tiles);
            } else {
                assert(place_tiles(none, t1, k, previous.0, previous.1).0 =~= tiles);
            }
        } else {
            assert(previous.0 == none);
            assert(place_tiles(none, t1, k, previous.0, previous.1).0 =~= tiles);
        }
    }
}

/// A recorded change of the tiles is undone by the next `Undo`: it asks the
/// game to place back what was at the position, and undoing that restores
/// the tiles as they were.
pub proof fn law_undo_restores_recorded_change(
    reg: &Registry,
    g0: &GameState,
    g1: &GameState,
    g2: &GameState,
    g3: &GameState,
    coord: TileCoord,
    id: Id,
    tile_modifier: TileModifier,
    reply: bool,
    acts1: Seq<GameAction>,
    acts2: Seq<GameAction>,
    acts3: Seq<GameAction>,
)
    requires
        g0.wf(reg),
        !g0.stopped,
        place_tiles(reg.none, tiles_view(g0.tiles@), key_of(coord@), id, tile_modifier).2 is Some,
        game_handle_spec(reg, g0, g1, GameMsg::PlaceTile { coord, id, tile_modifier, record: true, reply }, acts1),
        game_handle_spec(reg, g1, g2, GameMsg::Undo, acts2),
        ({
            let previous = place_tiles(reg.none, tiles_view(g0.tiles@), key_of(coord@), id, tile_modifier).2->0;
            game_handle_spec(reg, g2, g3, undo_message(coord, previous), acts3)
        }),
    ensures
        ({
            let previous = place_tiles(reg.none, tiles_view(g0.tiles@), key_of(coord@), id, tile_modifier).2->0;
            &&& acts2.len() == 1
            &&& acts2[0] matches GameAction::ResendToGame(msgs) && msgs@ == seq![undo_message(coord, previous)]
            &&& g2.undo_steps_index == g0.undo_steps_index
            &&& tiles_view(g3.tiles@) == tiles_view(g0.tiles@)
        }),
{
    let i = g0.undo_steps_index as int;
    let previous = place_tiles(reg.none, tiles_view(g0.tiles@), key_of(coord@), id, tile_modifier).2->0;
    assert(g1.undo_steps@[i] is Some);
    assert(prev_slot(next_slot(i)) == i);
    assert forall|j: (int, int)| #[trigger] tiles_view(g0.tiles@).contains_key(j) implies tiles_view(g0.tiles@)[j].0 != reg.none by {
        let kk = (j.0 as i32, j.1 as i32);
        assert(g0.tiles@.contains_key(kk));
    }
    law_place_then_place_back_restores(reg.none, tiles_view(g0.tiles@), key_of(coord@), id, tile_modifier);
}

/// Undoing with nothing recorded changes nothing and asks for nothing.
pub proof fn law_undo_with_nothing_recorded(reg: &Registry, g0: &GameState, g1: &GameState, acts: Seq<GameAction>)
    requires
        g0.wf(reg),
        forall|i: int| 0 <= i < UNDO_CACHE_SIZE ==> g0.undo_steps@[i] is None,
        game_handle_spec(reg, g0, g1, GameMsg::Undo, acts),
    ensures
        acts.len() == 0,
        g1.tiles == g0.tiles,
        g1.undo_steps@ == g0.undo_steps@,
        g1.undo_steps_index == g0.undo_steps_index,
{
}


/// The position `x` of the undo ring, for `0 <= x < 2 * UNDO_CACHE_SIZE`.
pub open spec fn slot(x: int) -> int {
    if x < UNDO_CACHE_SIZE { x } else { x - UNDO_CACHE_SIZE }
}

/// Whether a slot of the undo ring holds the step made of `msg` alone.
pub open spec fn holds_step(slot_value: Option<Vec<GameMsg>>, msg: GameMsg) -> bool {
    slot_value matches Some(step) && step@ == seq![msg]
}

/// Whether no position of `tiles` holds the "none" tile.
pub open spec fn no_none(none: Id, tiles: Map<(int, int), PlacedTile>) -> bool {
    forall|j: (int, int)| #[trigger] tiles.contains_key(j) ==> tiles[j].0 != none
}

/// What was at the position of the `i`-th placement before it.
pub open spec fn replaced(reg: &Registry, gs: Seq<GameState>, places: Seq<(TileCoord, Id, TileModifier)>, i: int) -> PlacedTile {
    place_tiles(reg.none, tiles_view(gs[i].tiles@), key_of(places[i].0@), places[i].1, places[i].2).2->0
}

/// The message that places a tile and records the step that undoes it.
pub open spec fn recorded_place(p: (TileCoord, Id, TileModifier)) -> GameMsg {
    GameMsg::PlaceTile { coord: p.0, id: p.1, tile_modifier: p.2, record: true, reply: false }
}

/// Whether `gs[0]` is a running game and `gs[i + 1]` follows from `gs[i]`
/// by the `i`-th of at most a ring's worth of recorded placements, each of
/// which changes the tiles.
pub open spec fn record_run(
    reg: &Registry,
    gs: Seq<GameState>,
    places: Seq<(TileCoord, Id, TileModifier)>,
    pacts: Seq<Seq<GameAction>>,
) -> bool {
    let n = places.len() as int;
    &&& n <= UNDO_CACHE_SIZE
    &&& gs.len() >= n + 1
    &&& pacts.len() == n
    &&& gs[0].wf(reg)
    &&& !gs[0].stopped
    &&& forall|i: int| 0 <= i < n ==> (place_tiles(
        reg.none,
        tiles_view(#[trigger] gs[i].tiles@),
        key_of(places[i].0@),
        places[i].1,
        places[i].2,
    ).2 is Some)
    &&& forall|i: int| 0 <= i < n ==> game_handle_spec(reg, &gs[i], &gs[i + 1], recorded_place(places[i]), #[trigger] pacts[i])
}

/// The premises of `law_undo_restores_recorded_changes`: the recorded
/// placements of `record_run`; then, for each `k`, an `Undo` leads from
/// `gs[n + 2k]` to `gs[n + 2k + 1]`, and handling the message that undoes the
/// `(n - 1 - k)`-th placement leads on to `gs[n + 2k + 2]`.
pub open spec fn undo_run(
    reg: &Registry,
    gs: Seq<GameState>,
    places: Seq<(TileCoord, Id, TileModifier)>,
    pacts: Seq<Seq<GameAction>>,
    uacts: Seq<Seq<GameAction>>,
    racts: Seq<Seq<GameAction>>,
) -> bool {
    let n = places.len() as int;
    &&& record_run(reg, gs, places, pacts)
    &&& gs.len() == 3 * n + 1
    &&& uacts.len() == n && racts.len() == n
    &&& forall|k: int| 0 <= k < n ==> game_handle_spec(reg, &gs[n + 2 * k], &gs[n + 2 * k + 1], GameMsg::Undo, #[trigger] uacts[k])
    &&& forall|k: int| 0 <= k < n ==> game_handle_spec(
        reg,
        &gs[n + 2 * k + 1],
        &gs[n + 2 * k + 2],
        undo_message(places[n - 1 - k].0, replaced(reg, gs, places, n - 1 - k)),
        #[trigger] racts[k],
    )
}

proof fn lemma_record_phase(
    reg: &Registry,
    gs: Seq<GameState>,
    places: Seq<(TileCoord, Id, TileModifier)>,
    pacts: Seq<Seq<GameAction>>,
    i: int,
)
    requires
        record_run(reg, gs, places, pacts),
        0 <= i <= places.len(),
    ensures
        !gs[i].stopped,
        no_none(reg.none, tiles_view(gs[i].tiles@)),
        gs[i].undo_steps@.len() == UNDO_CACHE_SIZE,
        gs[i].undo_steps_index as int == slot(gs[0].undo_steps_index + i),
        forall|j: int| 0 <= j < i ==> holds_step((#[trigger] gs[i].undo_steps@[slot(gs[0].undo_steps_index + j)]), undo_message(places[j].0, replaced(reg, gs, places, j))),
    decreases i,
{
    let i0 = gs[0].undo_steps_index as int;
    if i == 0 {
        assert forall|j: (int, int)| #[trigger] tiles_view(gs[0].tiles@).contains_key(j) implies tiles_view(gs[0].tiles@)[j].0 != reg.none by {
            assert(gs[0].tiles@.contains_key((j.0 as i32, j.1 as i32)));
        }
    } else {
        lemma_record_phase(reg, gs, places, pacts, i - 1);
        let p = places[i - 1];
        let g = gs[i - 1];
        assert(game_handle_spec(reg, &gs[i - 1], &gs[i], recorded_place(places[i - 1]), pacts[i - 1]));
        assert(place_tiles(reg.none, tiles_view(g.tiles@), key_of(p.0@), p.1, p.2).2 is Some);
        let t0 = tiles_view(g.tiles@);
        let t1 = tiles_view(gs[i].tiles@);
        assert forall|j: (int, int)| #[trigger] t1.contains_key(j) implies t1[j].0 != reg.none by {
            if j != key_of(p.0@) {
                assert(t0.contains_key(j));
            }
        }
        assert forall|j: int| 0 <= j < i implies holds_step((#[trigger] gs[i].undo_steps@[slot(i0 + j)]), undo_message(places[j].0, replaced(reg, gs, places, j))) by {
            if j < i - 1 {
                assert(slot(i0 + j) != slot(i0 + i - 1));
                assert(holds_step(gs[i - 1].undo_steps@[slot(i0 + j)], undo_message(places[j].0, replaced(reg, gs, places, j))));
            }
        }
    }
}

proof fn lemma_undo_phase(
    reg: &Registry,
    gs: Seq<GameState>,
    places: Seq<(TileCoord, Id, TileModifier)>,
    pacts: Seq<Seq<GameAction>>,
    uacts: Seq<Seq<GameAction>>,
    racts: Seq<Seq<GameAction>>,
    k: int,
)
    requires
        undo_run(reg, gs, places, pacts, uacts, racts),
        0 <= k <= places.len(),
    ensures
        ({
            let n = places.len() as int;
            let g = gs[n + 2 * k];
            &&& !g.stopped
            &&& g.undo_steps@.len() == UNDO_CACHE_SIZE
            &&& g.undo_steps_index as int == slot(gs[0].undo_steps_index + n - k)
            &&& forall|j: int| 0 <= j < n - k ==> holds_step((#[trigger] g.undo_steps@[slot(gs[0].undo_steps_index + j)]), undo_message(places[j].0, replaced(reg, gs, places, j)))
            &&& tiles_view(g.tiles@) == tiles_view(gs[n - k].tiles@)
            &&& forall|k2: int| 0 <= k2 < k ==> {
                &&& (#[trigger] uacts[k2]).len() == 1
                &&& uacts[k2][0] matches GameAction::ResendToGame(msgs)
                    && msgs@ == seq![undo_message(places[n - 1 - k2].0, replaced(reg, gs, places, n - 1 - k2))]
            }
        }),
    decreases k,
{
    let n = places.len() as int;
    let i0 = gs[0].undo_steps_index as int;
    if k == 0 {
        lemma_record_phase(reg, gs, places, pacts, n);
    } else {
        lemma_undo_phase(reg, gs, places, pacts, uacts, racts, k - 1);
        let m = n - k;
        let ga = gs[n + 2 * (k - 1)];
        let gb = gs[n + 2 * (k - 1) + 1];
        let gc = gs[n + 2 * (k - 1) + 2];
        assert(n + 2 * (k - 1) + 2 == n + 2 * k);
        assert(game_handle_spec(reg, &gs[n + 2 * (k - 1)], &gs[n + 2 * (k - 1) + 1], GameMsg::Undo, uacts[k - 1]));
        assert(game_handle_spec(
            reg,
            &gs[n + 2 * (k - 1) + 1],
            &gs[n + 2 * (k - 1) + 2],
            undo_message(places[n - 1 - (k - 1)].0, replaced(reg, gs, places, n - 1 - (k - 1))),
            racts[k - 1],
        ));
        assert(n - 1 - (k - 1) == m);
        let j = slot(i0 + m);
        assert(ga.undo_steps@[j] is Some);
        assert(prev_slot(slot(i0 + m + 1)) == j);
        assert(!(forall|i: int| 0 <= i < UNDO_CACHE_SIZE ==> ga.undo_steps@[i] is None));
        assert(gb.undo_steps@ == ga.undo_steps@.update(j, None));
        assert forall|jj: int| 0 <= jj < n - k implies holds_step((#[trigger] gc.undo_steps@[slot(i0 + jj)]), undo_message(places[jj].0, replaced(reg, gs, places, jj))) by {
            assert(slot(i0 + jj) != j);
            assert(holds_step(ga.undo_steps@[slot(i0 + jj)], undo_message(places[jj].0, replaced(reg, gs, places, jj))));
        }
        lemma_record_phase(reg, gs, places, pacts, m);
        assert(game_handle_spec(reg, &gs[m], &gs[m + 1], recorded_place(places[m]), pacts[m]));
        assert(place_tiles(reg.none, tiles_view(gs[m].tiles@), key_of(places[m].0@), places[m].1, places[m].2).2 is Some);
        law_place_then_place_back_restores(reg.none, tiles_view(gs[m].tiles@), key_of(places[m].0@), places[m].1, places[m].2);
        assert(tiles_view(gc.tiles@) == tiles_view(gs[m].tiles@));
    }
}

/// Up to a ring's worth of recorded changes are undone in reverse order:
/// after `n` recorded placements that each change the tiles, `n` undos each
/// ask the game to place back what the latest remaining placement
/// replaced, and handling those messages restores the tiles and the ring's
/// position as they were before the placements.
pub proof fn law_undo_restores_recorded_changes(
    reg: &Registry,
    gs: Seq<GameState>,
    places: Seq<(TileCoord, Id, TileModifier)>,
    pacts: Seq<Seq<GameAction>>,
    uacts: Seq<Seq<GameAction>>,
    racts: Seq<Seq<GameAction>>,
)
    requires
        undo_run(reg, gs, places, pacts, uacts, racts),
    ensures
        ({
            let n = places.len() as int;
            &&& forall|k: int| 0 <= k < n ==> {
                &&& (#[trigger] uacts[k]).len() == 1
                &&& uacts[k][0] matches GameAction::ResendToGame(msgs)
                    && msgs@ == seq![undo_message(places[n - 1 - k].0, replaced(reg, gs, places, n - 1 - k))]
            }
            &&& tiles_view(gs[3 * n].tiles@) == tiles_view(gs[0].tiles@)
            &&& gs[3 * n].undo_steps_index == gs[0].undo_steps_index
        }),
{
    let n = places.len() as int;
    lemma_undo_phase(reg, gs, places, pacts, uacts, racts, n);
    assert(n + 2 * n == 3 * n);
}


/// The premises of `law_undos_in_a_row_go_newest_first`: the recorded
/// placements of `record_run`, then `n` undos in a row, the `k`-th leading
/// from `gs[n + k]` to `gs[n + k + 1]`.
pub open spec fn undos_in_a_row(
    reg: &Registry,
    gs: Seq<GameState>,
    places: Seq<(TileCoord, Id, TileModifier)>,
    pacts: Seq<Seq<GameAction>>,
    uacts: Seq<Seq<GameAction>>,
) -> bool {
    let n = places.len() as int;
    &&& record_run(reg, gs, places, pacts)
    &&& gs.len() == 2 * n + 1
    &&& uacts.len() == n
    &&& forall|k: int| 0 <= k < n ==> game_handle_spec(reg, &gs[n + k], &gs[n + k + 1], GameMsg::Undo, #[trigger] uacts[k])
}

proof fn lemma_undos_in_a_row(
    reg: &Registry,
    gs: Seq<GameState>,
    places: Seq<(TileCoord, Id, TileModifier)>,
    pacts: Seq<Seq<GameAction>>,
    uacts: Seq<Seq<GameAction>>,
    k: int,
)
    requires
        undos_in_a_row(reg, gs, places, pacts, uacts),
        0 <= k <= places.len(),
    ensures
        ({
            let n = places.len() as int;
            let g = gs[n + k];
            &&& !g.stopped
            &&& g.undo_steps@.len() == UNDO_CACHE_SIZE
            &&& g.undo_steps_index as int == slot(gs[0].undo_steps_index + n - k)
            &&& forall|j: int| 0 <= j < n - k ==> holds_step((#[trigger] g.undo_steps@[slot(gs[0].undo_steps_index + j)]), undo_message(places[j].0, replaced(reg, gs, places, j)))
            &&& g.tiles == gs[n].tiles
            &&& forall|k2: int| 0 <= k2 < k ==> {
                &&& (#[trigger] uacts[k2]).len() == 1
                &&& uacts[k2][0] matches GameAction::ResendToGame(msgs)
                    && msgs@ == seq![undo_message(places[n - 1 - k2].0, replaced(reg, gs, places, n - 1 - k2))]
            }
        }),
    decreases k,
{
    let n = places.len() as int;
    let i0 = gs[0].undo_steps_index as int;
    if k == 0 {
        lemma_record_phase(reg, gs, places, pacts, n);
    } else {
        lemma_undos_in_a_row(reg, gs, places, pacts, uacts, k - 1);
        let m = n - k;
        let ga = gs[n + k - 1];
        let gb = gs[n + k];
        assert(game_handle_spec(reg, &gs[n + (k - 1)], &gs[n + (k - 1) + 1], GameMsg::Undo, uacts[k - 1]));
        assert(n - 1 - (k - 1) == m);
        let j = slot(i0 + m);
        assert(ga.undo_steps@[j] is Some);
        assert(prev_slot(slot(i0 + m + 1)) == j);
        assert(!(forall|i: int| 0 <= i < UNDO_CACHE_SIZE ==> ga.undo_steps@[i] is None));
        assert(gb.undo_steps@ == ga.undo_steps@.update(j, None));
        assert forall|jj: int| 0 <= jj < n - k implies holds_step((#[trigger] gb.undo_steps@[slot(i0 + jj)]), undo_message(places[jj].0, replaced(reg, gs, places, jj))) by {
            assert(slot(i0 + jj) != j);
            assert(holds_step(ga.undo_steps@[slot(i0 + jj)], undo_message(places[jj].0, replaced(reg, gs, places, jj))));
        }
    }
}

/// Undos in a row take back recorded changes newest first: after `n`
/// recorded placements (at most a ring's worth) that each change the tiles,
/// the `k`-th of `n` undos in a row asks the game to place back what the
/// `(n - 1 - k)`-th placement replaced, with a message that records nothing.
/// The undos themselves leave the tiles alone, and afterwards the ring is
/// back at its position before the placements.
pub proof fn law_undos_in_a_row_go_newest_first(
    reg: &Registry,
    gs: Seq<GameState>,
    places: Seq<(TileCoord, Id, TileModifier)>,
    pacts: Seq<Seq<GameAction>>,
    uacts: Seq<Seq<GameAction>>,
)
    requires
        undos_in_a_row(reg, gs, places, pacts, uacts),
    ensures
        ({
            let n = places.len() as int;
            &&& forall|k: int| 0 <= k < n ==> {
                let p = places[n - 1 - k];
                let o = replaced(reg, gs, places, n - 1 - k);
                &&& (#[trigger] uacts[k]).len() == 1
                &&& uacts[k][0] matches GameAction::ResendToGame(msgs) && msgs@ == seq![
                    GameMsg::PlaceTile { coord: p.0, id: o.0, tile_modifier: o.1, record: false, reply: false },
                ]
            }
            &&& gs[2 * n].tiles == gs[n].tiles
            &&& gs[2 * n].undo_steps_index == gs[0].undo_steps_index
        }),
{
    let n = places.len() as int;
    lemma_undos_in_a_row(reg, gs, places, pacts, uacts, n);
    assert(n + n == 2 * n);
}

} // verus!
