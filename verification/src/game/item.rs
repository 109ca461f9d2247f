use vstd::prelude::*;

use crate::util::id::Id;

verus! {

/// A number of items.
pub type ItemAmount = u32;

/// An item type.
#[derive(Debug, Clone, Copy, PartialEq, Eq, Hash, Structural)]
pub struct Item {
    pub id: Id,
}

/// A number of items of one type.
#[derive(Debug, Clone, Copy, PartialEq, Eq, Hash, Structural)]
pub struct ItemStack {
    pub item: Item,
    pub amount: ItemAmount,
}

} // verus!
