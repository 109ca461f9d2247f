use vstd::prelude::*;

use std::collections::BTreeMap;

use crate::game::item::ItemStack;
use crate::util::id::Id;

verus! {

broadcast use vstd::laws_cmp::group_laws_cmp, vstd::std_specs::btree::group_btree_axioms;

/// The ids of the tiles whose behavior the game logic knows.
#[derive(Debug, Clone, Copy, PartialEq, Eq, Structural)]
pub struct TileIds {
    pub machine: Id,
    pub storage: Id,
    pub void: Id,
    pub merger: Id,
    pub splitter: Id,
    pub node: Id,
    pub master_node: Id,
    pub transfer: Id,
}

/// The keys under which tile entities keep their data.
#[derive(Debug, Clone, Copy, PartialEq, Eq, Structural)]
pub struct DataIds {
    pub target: Id,
    pub link: Id,
    pub script: Id,
    pub buffer: Id,
    pub storage: Id,
    pub amount: Id,
}

/// What a machine consumes and produces.
#[derive(Debug, Clone)]
pub struct Instructions {
    pub inputs: Option<Vec<ItemStack>>,
    pub output: Option<ItemStack>,
}

/// A recipe a machine can run.
#[derive(Debug, Clone)]
pub struct Script {
    pub instructions: Instructions,
    /// The tile that must be next to the machine, if any.
    pub adjacent: Option<Id>,
}

/// A tile type.
#[derive(Debug, Clone)]
pub struct TileDef {
    /// The kind of tile, such as machine or storage, if it has one.
    pub tile_type: Option<Id>,
    /// The models of the tile, one per tile modifier.
    pub models: Vec<Id>,
}

/// The registered resources that the game logic reads.
pub struct Registry {
    /// The id that stands for "no tile".
    pub none: Id,
    pub tile_ids: TileIds,
    pub data_ids: DataIds,
    pub tiles: BTreeMap<Id, TileDef>,
    pub scripts: BTreeMap<Id, Script>,
    /// The items of each tag: an id matches a tag when it is one of them.
    pub tags: BTreeMap<Id, Vec<Id>>,
    /// The registered items.
    pub items: BTreeMap<Id, crate::game::item::Item>,
}

/// Whether `id` matches `other`: `other` is a tag that lists `id`, or
/// `other` is not a tag and equals `id`.
pub open spec fn spec_id_match(tags: Map<Id, Vec<Id>>, id: Id, other: Id) -> bool {
    if tags.contains_key(other) {
        tags[other]@.contains(id)
    } else {
        id == other
    }
}

impl Registry {
    /// The tile registered under `id`.
    pub fn tile(&self, id: Id) -> (t: Option<&TileDef>)
        ensures
            match t {
                Some(d) => self.tiles@.contains_key(id) && *d == self.tiles@[id],
                None => !self.tiles@.contains_key(id),
            },
    {
        self.tiles.get(&id)
    }

    /// The script registered under `id`.
    pub fn script(&self, id: Id) -> (s: Option<&Script>)
        ensures
            match s {
                Some(d) => self.scripts@.contains_key(id) && *d == self.scripts@[id],
                None => !self.scripts@.contains_key(id),
            },
    {
        self.scripts.get(&id)
    }

    /// The item registered under `id`.
    pub fn item(&self, id: Id) -> (i: Option<crate::game::item::Item>)
        ensures
            match i {
                Some(d) => self.items@.contains_key(id) && d == self.items@[id],
                None => !self.items@.contains_key(id),
            },
    {
        match self.items.get(&id) {
            Some(item) => Some(*item),
            None => None,
        }
    }

    /// Whether `id` matches `other` (see `spec_id_match`).
    pub fn id_match(&self, id: Id, other: Id) -> (b: bool)
        ensures
            b == spec_id_match(self.tags@, id, other),
    {
        match self.tags.get(&other) {
            Some(members) => {
                let mut i: usize = 0;
                while i < members.len()
                    invariant
                        0 <= i <= members.len(),
                        self.tags@.contains_key(other),
                        *members == self.tags@[other],
                        forall|j: int| 0 <= j < i ==> members@[j] != id,
                    decreases members.len() - i,
                {
                    if members[i] == id {
                        assert(members@[i as int] == id);
                        return true;
                    }
                    i = i + 1;
                }
                false
            },
            None => id == other,
        }
    }
}

} // verus!
