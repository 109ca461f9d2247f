use vstd::prelude::*;

use crate::game::tile::coord::TileUnit;
use crate::game::tile::entity::TileModifier;
use crate::util::id::Id;

verus! {

/// The key a tile is stored under: the q and r of its coordinate.
pub type TileKey = (TileUnit, TileUnit);

/// What is placed on a tile: the tile's id and its modifier.
pub type PlacedTile = (Id, TileModifier);

/// A `hashbrown::HashMap` from tile positions to the tiles placed there.
/// Verus does not accept a declaration of `hashbrown::HashMap` itself (its
/// allocator parameter), so the map is held here, opaque, and every
/// operation goes through a trusted method below.
#[verifier::external_body]
pub struct TileMap {
    map: hashbrown::HashMap<TileKey, PlacedTile>,
}

/// What a `TileMap` holds.
pub uninterp spec fn tile_entries(m: TileMap) -> Map<TileKey, PlacedTile>;

impl View for TileMap {
    type V = Map<TileKey, PlacedTile>;

    open spec fn view(&self) -> Map<TileKey, PlacedTile> {
        tile_entries(*self)
    }
}

impl TileMap {
    /// An empty map, from `hashbrown::HashMap::new`.
    ///
    /// Trusted: a new map holds nothing.
    #[verifier::external_body]
    pub(crate) fn new() -> (tiles: TileMap)
        ensures
            tile_entries(tiles).is_empty(),
    {
        TileMap { map: hashbrown::HashMap::new() }
    }

    /// The tile at `k`, from `hashbrown::HashMap::get`.
    ///
    /// Trusted: `get` returns the value stored under the key, or `None` when
    /// there is none.
    #[verifier::external_body]
    pub(crate) fn get(&self, k: TileKey) -> (v: Option<PlacedTile>)
        ensures
            v == (if tile_entries(*self).contains_key(k) {
                Some(tile_entries(*self)[k])
            } else {
                None::<PlacedTile>
            }),
    {
        self.map.get(&k).cloned()
    }

    /// Whether a tile is placed at `k`, from `hashbrown::HashMap::contains_key`.
    ///
    /// Trusted: `contains_key` tells whether the key has a value.
    #[verifier::external_body]
    pub(crate) fn contains_key(&self, k: TileKey) -> (b: bool)
        ensures
            b == tile_entries(*self).contains_key(k),
    {
        self.map.contains_key(&k)
    }

    /// Places `v` at `k`, from `hashbrown::HashMap::insert`.
    ///
    /// Trusted: afterwards the map is the old one with `k` mapped to `v`; the
    /// old value, if any, is returned.
    #[verifier::external_body]
    pub(crate) fn insert(&mut self, k: TileKey, v: PlacedTile) -> (old_v: Option<PlacedTile>)
        ensures
            tile_entries(*final(self)) == tile_entries(*old(self)).insert(k, v),
            old_v == (if tile_entries(*old(self)).contains_key(k) {
                Some(tile_entries(*old(self))[k])
            } else {
                None::<PlacedTile>
            }),
    {
        self.map.insert(k, v)
    }

    /// Removes the tile at `k`, from `hashbrown::HashMap::remove`.
    ///
    /// Trusted: afterwards the map is the old one without `k`; the removed
    /// value, if any, is returned.
    #[verifier::external_body]
    pub(crate) fn remove(&mut self, k: TileKey) -> (old_v: Option<PlacedTile>)
        ensures
            tile_entries(*final(self)) == tile_entries(*old(self)).remove(k),
            old_v == (if tile_entries(*old(self)).contains_key(k) {
                Some(tile_entries(*old(self))[k])
            } else {
                None::<PlacedTile>
            }),
    {
        self.map.remove(&k)
    }

    /// The number of placed tiles, from `hashbrown::HashMap::len`.
    ///
    /// Trusted: `len` is the number of entries.
    #[verifier::external_body]
    pub(crate) fn len(&self) -> (n: usize)
        ensures
            n == tile_entries(*self).len(),
    {
        self.map.len()
    }

    /// Every placed tile, from `hashbrown::HashMap::iter`.
    ///
    /// Trusted: the iterator yields each entry exactly once. The order is
    /// the hash table's and is not stated.
    #[verifier::external_body]
    pub(crate) fn entries(&self) -> (es: Vec<(TileKey, PlacedTile)>)
        ensures
            es@.no_duplicates(),
            forall|i: int| 0 <= i < es@.len() ==> {
                let (k, v) = #[trigger] es@[i];
                tile_entries(*self).contains_key(k) && tile_entries(*self)[k] == v
            },
            forall|k: TileKey| #[trigger] tile_entries(*self).contains_key(k) ==> es@.contains((k, tile_entries(*self)[k])),
    {
        self.map.iter().map(|(k, v)| (*k, *v)).collect()
    }
}

} // verus!
