use vstd::prelude::*;

use crate::game::state::RenderUnit;
use crate::game::tile::coord::TileUnit;

verus! {

/// The key a render result is cached under: the range, and the q and r of
/// the center.
pub type RenderKey = (TileUnit, TileUnit, TileUnit);

/// A `hashbrown::HashMap` from render requests to the tiles drawn for them.
/// Verus does not accept a declaration of `hashbrown::HashMap` itself (its
/// allocator parameter), so the map is held here, opaque, and every
/// operation goes through a trusted method below.
#[verifier::external_body]
pub struct RenderCache {
    map: hashbrown::HashMap<RenderKey, Vec<RenderUnit>>,
}

/// What a `RenderCache` holds.
pub uninterp spec fn render_entries(c: RenderCache) -> Map<RenderKey, Seq<RenderUnit>>;

impl View for RenderCache {
    type V = Map<RenderKey, Seq<RenderUnit>>;

    open spec fn view(&self) -> Map<RenderKey, Seq<RenderUnit>> {
        render_entries(*self)
    }
}

impl RenderCache {
    /// An empty cache, from `hashbrown::HashMap::new`.
    ///
    /// Trusted: a new map holds nothing.
    #[verifier::external_body]
    pub(crate) fn new() -> (c: RenderCache)
        ensures
            render_entries(c).is_empty(),
    {
        RenderCache { map: hashbrown::HashMap::new() }
    }

    /// A copy of the units cached under `k`, from `hashbrown::HashMap::get`.
    ///
    /// Trusted: `get` returns the value stored under the key, or `None` when
    /// there is none; cloning a `Vec` of a `Copy` type copies its elements.
    #[verifier::external_body]
    pub(crate) fn get(&self, k: RenderKey) -> (v: Option<Vec<RenderUnit>>)
        ensures
            match v {
                Some(units) => render_entries(*self).contains_key(k) && units@ == render_entries(*self)[k],
                None => !render_entries(*self).contains_key(k),
            },
    {
        self.map.get(&k).cloned()
    }

    /// Caches `units` under `k`, from `hashbrown::HashMap::insert`.
    ///
    /// Trusted: afterwards the map is the old one with `k` mapped to `units`.
    #[verifier::external_body]
    pub(crate) fn insert(&mut self, k: RenderKey, units: Vec<RenderUnit>)
        ensures
            render_entries(*final(self)) == render_entries(*old(self)).insert(k, units@),
    {
        self.map.insert(k, units);
    }

    /// The number of cached results, from `hashbrown::HashMap::len`.
    ///
    /// Trusted: `len` is the number of entries.
    #[verifier::external_body]
    pub(crate) fn len(&self) -> (n: usize)
        ensures
            n == render_entries(*self).len(),
    {
        self.map.len()
    }

    /// Forgets every cached result, from `hashbrown::HashMap::clear`.
    ///
    /// Trusted: afterwards the map holds nothing.
    #[verifier::external_body]
    pub(crate) fn clear(&mut self)
        ensures
            render_entries(*final(self)).is_empty(),
    {
        self.map.clear();
    }
}

} // verus!
