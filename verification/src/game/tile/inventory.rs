use vstd::prelude::*;

use crate::game::item::{Item, ItemAmount};
use crate::game::registry::Registry;
use crate::util::id::{valid_names, Id, IdRaw, Interner};

verus! {

/// A `hashbrown::HashMap` from item ids to amounts. Verus does not accept a
/// declaration of `hashbrown::HashMap` itself (its allocator parameter), so
/// the map is held here, opaque, and every operation goes through a trusted
/// method below.
#[verifier::external_body]
pub struct ItemCounts {
    map: hashbrown::HashMap<Id, ItemAmount>,
}

/// What an `ItemCounts` map holds.
pub uninterp spec fn item_counts(m: ItemCounts) -> Map<Id, ItemAmount>;

impl View for ItemCounts {
    type V = Map<Id, ItemAmount>;

    open spec fn view(&self) -> Map<Id, ItemAmount> {
        item_counts(*self)
    }
}

impl ItemCounts {
    /// An empty map, from `hashbrown::HashMap::new`.
    ///
    /// Trusted: a new map holds nothing.
    #[verifier::external_body]
    pub(crate) fn new() -> (counts: ItemCounts)
        ensures
            item_counts(counts).is_empty(),
    {
        ItemCounts { map: hashbrown::HashMap::new() }
    }

    /// The amount stored for `k`, from `hashbrown::HashMap::get`.
    ///
    /// Trusted: `get` returns the value stored under the key, or `None` when
    /// there is none; the map is unchanged.
    #[verifier::external_body]
    pub(crate) fn get(&self, k: Id) -> (v: Option<ItemAmount>)
        ensures
            v == (if item_counts(*self).contains_key(k) {
                Some(item_counts(*self)[k])
            } else {
                None::<ItemAmount>
            }),
    {
        self.map.get(&k).cloned()
    }

    /// Stores `v` under `k`, from `hashbrown::HashMap::insert`.
    ///
    /// Trusted: afterwards the map is the old one with `k` mapped to `v`;
    /// the old value under `k`, if any, is returned.
    #[verifier::external_body]
    pub(crate) fn insert(&mut self, k: Id, v: ItemAmount) -> (old_v: Option<ItemAmount>)
        ensures
            item_counts(*final(self)) == item_counts(*old(self)).insert(k, v),
            old_v == (if item_counts(*old(self)).contains_key(k) {
                Some(item_counts(*old(self))[k])
            } else {
                None::<ItemAmount>
            }),
    {
        self.map.insert(k, v)
    }

    /// The amount under `k`, inserting zero first when there is none, from
    /// `hashbrown::HashMap::entry` and `Entry::or_insert`.
    ///
    /// Trusted: `or_insert(0)` leaves a present entry as it is and inserts
    /// zero for an absent one, then hands out the entry's value; what is
    /// written through the reference is what the map holds afterwards.
    #[verifier::external_body]
    pub(crate) fn entry_or_zero(&mut self, k: Id) -> (r: &mut ItemAmount)
        ensures
            *r == (if item_counts(*old(self)).contains_key(k) {
                item_counts(*old(self))[k]
            } else {
                0
            }),
            item_counts(*final(self)) == item_counts(*old(self)).insert(k, *final(r)),
    {
        self.map.entry(k).or_insert(0)
    }

    /// Every entry of the map, from `hashbrown::HashMap::iter`.
    ///
    /// Trusted: the iterator yields each entry exactly once. The order is
    /// the hash table's and is not stated.
    #[verifier::external_body]
    pub(crate) fn entries(&self) -> (es: Vec<(Id, ItemAmount)>)
        ensures
            es@.no_duplicates(),
            forall|i: int| 0 <= i < es@.len() ==> {
                let (k, v) = #[trigger] es@[i];
                item_counts(*self).contains_key(k) && item_counts(*self)[k] == v
            },
            forall|k: Id| #[trigger] item_counts(*self).contains_key(k) ==> es@.contains((k, item_counts(*self)[k])),
    {
        self.map.iter().map(|(k, v)| (*k, *v)).collect()
    }
}

impl Clone for ItemCounts {
    /// A copy of the map, from `hashbrown::HashMap::clone`.
    ///
    /// Trusted: the copy holds the same entries.
    #[verifier::external_body]
    fn clone(&self) -> (copy: ItemCounts)
        ensures
            item_counts(copy) == item_counts(*self),
    {
        ItemCounts { map: self.map.clone() }
    }
}

/// The items a tile or player holds, with their amounts.
pub struct Inventory {
    counts: ItemCounts,
}

impl Clone for Inventory {
    fn clone(&self) -> (copy: Inventory)
        ensures
            copy@ == self@,
    {
        Inventory { counts: self.counts.clone() }
    }
}

impl View for Inventory {
    type V = Map<Id, ItemAmount>;

    closed spec fn view(&self) -> Map<Id, ItemAmount> {
        self.counts@
    }
}

/// The amount `m` holds of `item`, zero when it holds none.
pub open spec fn amount_of(m: Map<Id, ItemAmount>, item: Id) -> ItemAmount {
    if m.contains_key(item) { m[item] } else { 0 }
}

impl Inventory {
    /// An empty inventory.
    pub fn new() -> (inv: Inventory)
        ensures
            inv@ == Map::<Id, ItemAmount>::empty(),
    {
        Inventory { counts: ItemCounts::new() }
    }

    /// The amount stored of `item`, or `None` when the inventory has no entry
    /// for it.
    pub fn try_get(&self, item: Id) -> (v: Option<ItemAmount>)
        ensures
            v == (if self@.contains_key(item) { Some(self@[item]) } else { None::<ItemAmount> }),
    {
        self.counts.get(item)
    }

    /// The amount stored of `item`; an absent entry is created with zero.
    pub fn get(&mut self, item: Id) -> (v: ItemAmount)
        ensures
            v == amount_of(old(self)@, item),
            final(self)@ == old(self)@.insert(item, v),
    {
        *self.counts.entry_or_zero(item)
    }

    /// A reference to the amount stored of `item`; an absent entry is
    /// created with zero. What is written through it is stored.
    pub fn get_mut(&mut self, item: Id) -> (v: &mut ItemAmount)
        ensures
            *v == amount_of(old(self)@, item),
            final(self)@ == old(self)@.insert(item, *final(v)),
    {
        self.counts.entry_or_zero(item)
    }

    /// Stores `amount` of `item`, replacing what was stored.
    pub fn insert(&mut self, item: Id, amount: ItemAmount)
        ensures
            final(self)@ == old(self)@.insert(item, amount),
    {
        self.counts.insert(item, amount);
    }

    /// Takes up to `amount` of `item` out of the inventory. Gives `None`, and
    /// changes nothing, when there is no entry for `item` or it holds zero;
    /// otherwise takes and returns the smaller of `amount` and what is stored.
    pub fn take(&mut self, item: Id, amount: ItemAmount) -> (taken: Option<ItemAmount>)
        ensures
            !old(self)@.contains_key(item) || old(self)@[item] == 0 ==> taken is None && final(self)@ == old(self)@,
            old(self)@.contains_key(item) && old(self)@[item] > 0 ==> {
                let stored = old(self)@[item];
                let taking = if amount < stored { amount } else { stored };
                &&& taken == Some(taking)
                &&& final(self)@ == old(self)@.insert(item, (stored - taking) as ItemAmount)
            },
    {
        let stored = match self.counts.get(item) {
            Some(v) => v,
            None => {
                return None;
            },
        };
        if stored == 0 {
            return None;
        }
        let taking = if amount < stored { amount } else { stored };
        self.insert(item, stored - taking);
        Some(taking)
    }

    /// Every entry of the inventory; the order is not stated.
    pub fn entries(&self) -> (es: Vec<(Id, ItemAmount)>)
        ensures
            es@.no_duplicates(),
            forall|i: int| 0 <= i < es@.len() ==> {
                let (k, v) = #[trigger] es@[i];
                self@.contains_key(k) && self@[k] == v
            },
            forall|k: Id| #[trigger] self@.contains_key(k) ==> es@.contains((k, self@[k])),
    {
        self.counts.entries()
    }
}

/// Taking from an inventory conserves items: what is taken plus what is
/// left is what was stored, and no more than asked is taken.
pub proof fn law_take_conserves(old_inv: Map<Id, ItemAmount>, new_inv: Map<Id, ItemAmount>, item: Id, amount: ItemAmount, taken: Option<ItemAmount>)
    requires
        !old_inv.contains_key(item) || old_inv[item] == 0 ==> taken is None && new_inv == old_inv,
        old_inv.contains_key(item) && old_inv[item] > 0 ==> {
            let stored = old_inv[item];
            let taking = if amount < stored { amount } else { stored };
            &&& taken == Some(taking)
            &&& new_inv == old_inv.insert(item, (stored - taking) as ItemAmount)
        },
    ensures
        taken matches Some(t) ==> t <= amount && t + amount_of(new_inv, item) == amount_of(old_inv, item),
        taken is None ==> new_inv == old_inv,
        forall|other: Id| other != item ==> amount_of(new_inv, other) == amount_of(old_inv, other),
{
}

/// The written form of saved entries: each name with its amount.
pub open spec fn raw_view(raw: Seq<(IdRaw, ItemAmount)>) -> Seq<(Seq<char>, ItemAmount)> {
    raw.map_values(|e: (IdRaw, ItemAmount)| (e.0@, e.1))
}

/// Whether `n` is one of `names`.
pub open spec fn is_named(names: Seq<Seq<char>>, n: Seq<char>) -> bool {
    exists|x: int| 0 <= x < names.len() && names[x] == n
}

/// The id of `n` among `names`.
pub open spec fn id_of_name(names: Seq<Seq<char>>, n: Seq<char>) -> int {
    choose|x: int| 0 <= x < names.len() && names[x] == n
}

/// The inventory that loading `raw` gives: every entry whose name is
/// interned, under an id that has a registered item, is stored under that
/// item; a later entry replaces an earlier one.
pub open spec fn loaded(
    raw: Seq<(Seq<char>, ItemAmount)>,
    names: Seq<Seq<char>>,
    items: Map<Id, Item>,
) -> Map<Id, ItemAmount>
    decreases raw.len(),
{
    if raw.len() == 0 {
        Map::empty()
    } else {
        let prev = loaded(raw.drop_last(), names, items);
        let (n, a) = raw.last();
        if is_named(names, n) && items.contains_key(id_of_name(names, n) as Id) {
            prev.insert(items[id_of_name(names, n) as Id].id, a)
        } else {
            prev
        }
    }
}

/// Whether `e` is an entry of `inv` with a positive amount, by its name.
pub open spec fn saves_entry(
    e: (Seq<char>, ItemAmount),
    inv: Map<Id, ItemAmount>,
    names: Seq<Seq<char>>,
) -> bool {
    exists|id: Id|
        #![trigger inv[id]]
        inv.contains_key(id) && inv[id] == e.1 && e.1 > 0 && id < names.len() && names[id as int]
            == e.0
}

/// The names of the entries of `raw`, in order.
pub open spec fn entry_names(raw: Seq<(Seq<char>, ItemAmount)>) -> Seq<Seq<char>> {
    raw.map_values(|e: (Seq<char>, ItemAmount)| e.0)
}

/// The names after interning each of `ns` in turn.
pub open spec fn interned(names: Seq<Seq<char>>, ns: Seq<Seq<char>>) -> Seq<Seq<char>>
    decreases ns.len(),
{
    if ns.len() == 0 {
        names
    } else {
        let prev = interned(names, ns.drop_last());
        if is_named(prev, ns.last()) {
            prev
        } else {
            prev.push(ns.last())
        }
    }
}

/// Whether `raw` is a saved form of `inv`: it lists, once each and in any
/// order, exactly the entries of `inv` with a positive amount and an
/// interned id, each by its name.
pub open spec fn is_saved_form(
    raw: Seq<(Seq<char>, ItemAmount)>,
    inv: Map<Id, ItemAmount>,
    names: Seq<Seq<char>>,
) -> bool {
    &&& forall|i: int| 0 <= i < raw.len() ==> #[trigger] saves_entry(raw[i], inv, names)
    &&& forall|id: Id|
        inv.contains_key(id) && inv[id] > 0 && id < names.len() ==> exists|i: int|
            0 <= i < raw.len() && #[trigger] raw[i] == (names[id as int], #[trigger] inv[id])
    &&& forall|i: int, j: int|
        0 <= i < raw.len() && 0 <= j < raw.len() && i != j ==> (#[trigger] raw[i]).0 != (
        #[trigger] raw[j]).0
}

/// The saved form of an inventory: each item by its written id, with its
/// amount.
pub struct InventoryRaw(pub Vec<(IdRaw, ItemAmount)>);

impl InventoryRaw {
    /// The inventory this saved form loads to: each entry whose id is
    /// interned and has a registered item, the later of two entries for one
    /// item winning.
    pub fn to_inventory(self, interner: &Interner, registry: &Registry) -> (inv: Inventory)
        ensures
            inv@ == loaded(raw_view(self.0@), interner.names(), registry.items@),
    {
        let raw = self.0;
        let ghost rv = raw_view(raw@);
        let mut inv = Inventory::new();
        let mut k: usize = 0;
        while k < raw.len()
            invariant
                0 <= k <= raw@.len(),
                rv == raw_view(raw@),
                inv@ == loaded(rv.take(k as int), interner.names(), registry.items@),
            decreases raw.len() - k,
        {
            let (name, amount) = (&raw[k].0, raw[k].1);
            assert(rv.take(k + 1).drop_last() =~= rv.take(k as int));
            assert(rv.take(k + 1).last() == (name@, amount));
            match interner.get(name) {
                Some(id) => {
                    assert(is_named(interner.names(), name@));
                    let ghost x = id_of_name(interner.names(), name@);
                    assert(x == id as int);
                    match registry.item(id) {
                        Some(item) => {
                            inv.insert(item.id, amount);
                        },
                        None => {},
                    }
                },
                None => {},
            }
            k = k + 1;
        }
        assert(rv.take(raw@.len() as int) =~= rv);
        inv
    }

    /// The inventory this saved form loads to, interning every id that is
    /// not interned yet.
    pub fn intern_to_inventory(self, interner: &mut Interner, registry: &Registry) -> (inv: Inventory)
        requires
            old(interner).names().len() + self.0@.len() < u32::MAX,
        ensures
            final(interner).names() == interned(old(interner).names(), entry_names(raw_view(self.0@))),
            inv@ == loaded(raw_view(self.0@), final(interner).names(), registry.items@),
    {
        let raw = self.0;
        let ghost rv = raw_view(raw@);
        let ghost start = interner.names();
        let mut inv = Inventory::new();
        let mut k: usize = 0;
        while k < raw.len()
            invariant
                0 <= k <= raw@.len(),
                rv == raw_view(raw@),
                start.len() + raw@.len() < u32::MAX,
                interner.names() == interned(start, entry_names(rv.take(k as int))),
                interner.names().len() <= start.len() + k,
                forall|i: int| 0 <= i < k ==> is_named(interner.names(), #[trigger] rv[i].0),
                inv@ == loaded(rv.take(k as int), interner.names(), registry.items@),
            decreases raw.len() - k,
        {
            let name = raw[k].0.clone();
            let amount = raw[k].1;
            assert(rv.take(k + 1).drop_last() =~= rv.take(k as int));
            assert(rv.take(k + 1).last() == (name@, amount));
            assert(entry_names(rv.take(k + 1)).drop_last() =~= entry_names(rv.take(k as int)));
            let ghost before = interner.names();
            let id = interner.get_or_intern(name);
            proof {
                lemma_loaded_extend(rv.take(k as int), before, interner.names(), registry.items@);
                assert(is_named(interner.names(), name@));
                let x = id_of_name(interner.names(), name@);
                assert(interner.names()[id as int] == name@);
                assert(x == id as int);
                assert forall|i: int| 0 <= i < k + 1 implies is_named(interner.names(), #[trigger] rv[i].0) by {
                    if i < k {
                        assert(is_named(before, rv[i].0));
                        let y = choose|y: int| 0 <= y < before.len() && before[y] == rv[i].0;
                        assert(interner.names()[y] == before[y]);
                    }
                }
            }
            match registry.item(id) {
                Some(item) => {
                    inv.insert(item.id, amount);
                },
                None => {},
            }
            k = k + 1;
        }
        assert(rv.take(raw@.len() as int) =~= rv);
        inv
    }

    /// The saved form of `inventory`: its entries with a positive amount
    /// and an interned id, each by its name, in the map's order.
    pub fn from_inventory(inventory: Inventory, interner: &Interner) -> (raw: InventoryRaw)
        ensures
            is_saved_form(raw_view(raw.0@), inventory@, interner.names()),
    {
        let entries = inventory.entries();
        let ghost inv = inventory@;
        let ghost names = interner.names();
        let mut out: Vec<(IdRaw, ItemAmount)> = Vec::new();
        let ghost mut src: Seq<Id> = Seq::empty();
        let mut k: usize = 0;
        while k < entries.len()
            invariant
                0 <= k <= entries@.len(),
                inv == inventory@,
                names == interner.names(),
                entries@.no_duplicates(),
                forall|i: int| 0 <= i < entries@.len() ==> {
                    let (id, v) = #[trigger] entries@[i];
                    inv.contains_key(id) && inv[id] == v
                },
                forall|id: Id| #[trigger] inv.contains_key(id) ==> entries@.contains((id, inv[id])),
                src.len() == out@.len(),
                forall|i: int| 0 <= i < out@.len() ==> {
                    &&& inv.contains_key(#[trigger] src[i])
                    &&& src[i] < names.len()
                    &&& out@[i].0@ == names[src[i] as int]
                    &&& out@[i].1 == inv[src[i]]
                    &&& out@[i].1 > 0
                },
                forall|i: int, j: int| 0 <= i < src.len() && 0 <= j < src.len() && i != j ==> #[trigger] src[i] != #[trigger] src[j],
                forall|i: int| 0 <= i < src.len() ==> exists|e: int| 0 <= e < k && (#[trigger] src[i]) == entries@[e].0,
                forall|e: int|
                    0 <= e < k && entries@[e].1 > 0 && entries@[e].0 < names.len() ==> exists|i: int|
                        0 <= i < src.len() && src[i] == (#[trigger] entries@[e]).0,
                forall|i: int, j: int|
                    0 <= i < src.len() && 0 <= j < names.len() && j != src[i] ==> #[trigger] names[j] != names[(#[trigger] src[i]) as int],
            decreases entries.len() - k,
        {
            let (id, amount) = entries[k];
            if amount > 0 {
                match interner.resolve(id) {
                    Some(name) => {
                        proof {
                            assert forall|i: int| 0 <= i < src.len() implies src[i] != id by {
                                let e = choose|e: int| 0 <= e < k && src[i] == entries@[e].0;
                                if src[i] == id {
                                    assert(entries@[e] == (id, inv[id]));
                                    assert(entries@[k as int] == (id, inv[id]));
                                }
                            }
                        }
                        out.push((name.clone(), amount));
                        proof {
                            let old_src = src;
                            src = src.push(id);
                            assert forall|e: int|
                                0 <= e < k && entries@[e].1 > 0 && entries@[e].0 < names.len() implies exists|i: int|
                                    0 <= i < src.len() && src[i] == (#[trigger] entries@[e]).0 by {
                                let i = choose|i: int| 0 <= i < old_src.len() && old_src[i] == (#[trigger] entries@[e]).0;
                                assert(src[i] == old_src[i]);
                            }
                        }
                    },
                    None => {},
                }
            }
            proof {
                if amount > 0 && id < names.len() {
                    assert(src[src.len() - 1] == entries@[k as int].0);
                }
                assert forall|i: int| 0 <= i < src.len() implies exists|e: int| 0 <= e < k + 1 && (#[trigger] src[i]) == entries@[e].0 by {
                    if i < src.len() - 1 || !(amount > 0 && id < names.len()) {
                        let e = choose|e: int| 0 <= e < k && src[i] == entries@[e].0;
                        assert(0 <= e < k + 1 && src[i] == entries@[e].0);
                    } else {
                        assert(src[i] == entries@[k as int].0);
                    }
                }
            }
            k = k + 1;
        }
        let raw = InventoryRaw(out);
        proof {
            let rv = raw_view(raw.0@);
            assert forall|i: int| 0 <= i < rv.len() implies #[trigger] saves_entry(rv[i], inv, names) by {
                let id = src[i];
                assert(inv[id] == rv[i].1);
            }
            assert forall|id: Id|
                inv.contains_key(id) && inv[id] > 0 && id < names.len() implies exists|i: int|
                    0 <= i < rv.len() && #[trigger] rv[i] == (names[id as int], #[trigger] inv[id]) by {
                assert(entries@.contains((id, inv[id])));
                let e = choose|e: int| 0 <= e < entries@.len() && entries@[e] == (id, inv[id]);
                assert(entries@[e].1 > 0);
                let i = choose|i: int| 0 <= i < src.len() && src[i] == (#[trigger] entries@[e]).0;
                assert(rv[i] == (names[id as int], inv[id]));
            }
            assert forall|i: int, j: int|
                0 <= i < rv.len() && 0 <= j < rv.len() && i != j implies (#[trigger] rv[i]).0 != (
                #[trigger] rv[j]).0 by {
                assert(src[i] != src[j]);
                assert(names[src[j] as int] != names[src[i] as int]);
            }
            assert(is_saved_form(rv, inv, names));
        }
        raw
    }
}

/// Loading entries whose names are all interned gives the same inventory
/// after more names are interned.
pub(crate) proof fn lemma_loaded_extend(
    raw: Seq<(Seq<char>, ItemAmount)>,
    names: Seq<Seq<char>>,
    more: Seq<Seq<char>>,
    items: Map<Id, Item>,
)
    requires
        valid_names(more),
        names.len() <= more.len(),
        forall|i: int| 0 <= i < names.len() ==> #[trigger] more[i] == names[i],
        forall|i: int| 0 <= i < raw.len() ==> is_named(names, #[trigger] raw[i].0),
    ensures
        loaded(raw, more, items) == loaded(raw, names, items),
    decreases raw.len(),
{
    if raw.len() > 0 {
        let init = raw.drop_last();
        assert forall|i: int| 0 <= i < init.len() implies is_named(names, #[trigger] init[i].0) by {
            assert(init[i] == raw[i]);
        }
        lemma_loaded_extend(init, names, more, items);
        let n = raw.last().0;
        assert(is_named(names, raw[raw.len() - 1].0));
        let x = id_of_name(names, n);
        let y = id_of_name(more, n);
        assert(more[x] == n);
        assert(is_named(more, n));
        assert(x == y);
    }
}

proof fn lemma_loaded_at(
    raw: Seq<(Seq<char>, ItemAmount)>,
    names: Seq<Seq<char>>,
    items: Map<Id, Item>,
    id: Id,
)
    requires
        valid_names(names),
        forall|x: Id| #[trigger] items.contains_key(x) ==> items[x].id == x,
        forall|i: int, j: int| 0 <= i < raw.len() && 0 <= j < raw.len() && i != j ==> (#[trigger] raw[i]).0 != (#[trigger] raw[j]).0,
    ensures
        loaded(raw, names, items).contains_key(id) <==> (id < names.len() && items.contains_key(id)
            && exists|i: int| 0 <= i < raw.len() && (#[trigger] raw[i]).0 == names[id as int]),
        forall|i: int|
            0 <= i < raw.len() && id < names.len() && items.contains_key(id) && (#[trigger] raw[i]).0
                == names[id as int] ==> loaded(raw, names, items)[id] == raw[i].1,
    decreases raw.len(),
{
    if raw.len() > 0 {
        let init = raw.drop_last();
        lemma_loaded_at(init, names, items, id);
        let (n, a) = raw.last();
        let last = raw.len() - 1;
        if is_named(names, n) {
            let x = id_of_name(names, n);
            assert(0 <= x < names.len() && names[x] == n);
        }
        assert forall|i: int| 0 <= i < init.len() implies #[trigger] init[i] == raw[i] by {}
        if id < names.len() && items.contains_key(id) && raw[last].0 == names[id as int] {
            assert(is_named(names, n));
            let x = id_of_name(names, n);
            assert(x == id as int);
            assert forall|i: int| 0 <= i < raw.len() && (#[trigger] raw[i]).0 == names[id as int] implies i == last by {
                if i != last {
                    assert(raw[i].0 != raw[last].0);
                }
            }
        } else {
            assert forall|i: int| 0 <= i < raw.len() && (#[trigger] raw[i]).0 == names[id as int] && id < names.len() && items.contains_key(id) implies i < last && init[i] == raw[i] by {}
            if is_named(names, n) && items.contains_key(id_of_name(names, n) as Id) {
                let x = id_of_name(names, n);
                assert(items[x as Id].id == x as Id);
                if x as Id == id {
                    assert(names[x] == names[id as int]);
                }
            }
        }
    }
}

/// Saving an inventory and loading the saved form again gives back the
/// inventory, less its entries with a zero amount and those whose id is
/// not interned or has no registered item.
pub proof fn law_save_then_load_restores(
    inv: Map<Id, ItemAmount>,
    names: Seq<Seq<char>>,
    items: Map<Id, Item>,
    raw: Seq<(Seq<char>, ItemAmount)>,
)
    requires
        valid_names(names),
        forall|x: Id| #[trigger] items.contains_key(x) ==> items[x].id == x,
        is_saved_form(raw, inv, names),
    ensures
        loaded(raw, names, items) == inv.restrict(
            Set::new(|id: Id| inv.contains_key(id) && inv[id] > 0 && id < names.len() && items.contains_key(id)),
        ),
{
    let l = loaded(raw, names, items);
    let want = inv.restrict(
        Set::new(|id: Id| inv.contains_key(id) && inv[id] > 0 && id < names.len() && items.contains_key(id)),
    );
    assert forall|id: Id| #[trigger] l.contains_key(id) <==> want.contains_key(id) by {
        lemma_loaded_at(raw, names, items, id);
        if l.contains_key(id) {
            let i = choose|i: int| 0 <= i < raw.len() && (#[trigger] raw[i]).0 == names[id as int];
            assert(saves_entry(raw[i], inv, names));
            let other = choose|o: Id| #![trigger inv[o]] inv.contains_key(o) && inv[o] == raw[i].1 && raw[i].1 > 0 && o < names.len() && names[o as int] == raw[i].0;
            assert(other == id);
        }
        if want.contains_key(id) {
            let i = choose|i: int| 0 <= i < raw.len() && #[trigger] raw[i] == (names[id as int], #[trigger] inv[id]);
            assert(raw[i].0 == names[id as int]);
        }
    }
    assert forall|id: Id| #[trigger] l.contains_key(id) implies l[id] == want[id] by {
        lemma_loaded_at(raw, names, items, id);
        let i = choose|i: int| 0 <= i < raw.len() && #[trigger] raw[i] == (names[id as int], #[trigger] inv[id]);
        assert(raw[i].0 == names[id as int]);
    }
    assert(l =~= want);
}

} // verus!
