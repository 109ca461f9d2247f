use vstd::prelude::*;
use vstd::std_specs::iter::IteratorSpec;

use std::collections::BTreeMap;

use crate::game::item::{Item, ItemAmount};
use crate::game::registry::Registry;
use crate::game::tile::coord::TileCoord;
use crate::game::tile::entity::{view_data, Data, DataMap, DataView};
use crate::game::tile::inventory::{
    entry_names, id_of_name, interned, is_named, is_saved_form, law_save_then_load_restores,
    lemma_loaded_extend, loaded, raw_view, InventoryRaw,
};
use crate::util::id::{valid_names, Id, IdRaw, Interner};

verus! {

/// The saved form of a data value: ids are written by name.
pub enum DataRaw {
    Inventory(InventoryRaw),
    Coord(TileCoord),
    VecCoord(Vec<TileCoord>),
    Id(IdRaw),
    VecId(Vec<IdRaw>),
    Amount(ItemAmount),
    Bool(bool),
}

/// The saved form of a data map: each key by its name, with its value;
/// no name occurs twice.
pub type DataMapRaw = Vec<(String, DataRaw)>;

/// The mathematical content of a `DataRaw` value.
pub enum DataRawView {
    Inventory(Seq<(Seq<char>, ItemAmount)>),
    Coord((int, int, int)),
    VecCoord(Seq<(int, int, int)>),
    Id(Seq<char>),
    VecId(Seq<Seq<char>>),
    Amount(ItemAmount),
    Bool(bool),
}

impl View for DataRaw {
    type V = DataRawView;

    open spec fn view(&self) -> DataRawView {
        match self {
            DataRaw::Inventory(v) => DataRawView::Inventory(raw_view(v.0@)),
            DataRaw::Coord(v) => DataRawView::Coord(v@),
            DataRaw::VecCoord(v) => DataRawView::VecCoord(v@.map_values(|c: TileCoord| c@)),
            DataRaw::Id(v) => DataRawView::Id(v@),
            DataRaw::VecId(v) => DataRawView::VecId(v@.map_values(|s: IdRaw| s@)),
            DataRaw::Amount(v) => DataRawView::Amount(*v),
            DataRaw::Bool(v) => DataRawView::Bool(*v),
        }
    }
}

/// The content of a saved data map.
pub open spec fn raw_data_view(raw: Seq<(String, DataRaw)>) -> Seq<(Seq<char>, DataRawView)> {
    raw.map_values(|e: (String, DataRaw)| (e.0@, e.1@))
}

/// Whether every id in `d` has a name.
pub open spec fn ids_named(d: DataView, names: Seq<Seq<char>>) -> bool {
    match d {
        DataView::Id(id) => id < names.len(),
        DataView::VecId(ids) => forall|i: int| 0 <= i < ids.len() ==> (#[trigger] ids[i]) < names.len(),
        _ => true,
    }
}

/// Whether `r` is a saved form of the value `d`.
pub open spec fn saves_value(r: DataRawView, d: DataView, names: Seq<Seq<char>>) -> bool {
    match (d, r) {
        (DataView::Inventory(m), DataRawView::Inventory(s)) => is_saved_form(s, m, names),
        (DataView::Coord(a), DataRawView::Coord(b)) => a == b,
        (DataView::VecCoord(a), DataRawView::VecCoord(b)) => a == b,
        (DataView::Id(id), DataRawView::Id(n)) => id < names.len() && names[id as int] == n,
        (DataView::VecId(ids), DataRawView::VecId(ns)) => {
            &&& ns.len() == ids.len()
            &&& forall|i: int| 0 <= i < ids.len() ==> ids[i] < names.len() && #[trigger] ns[i] == names[ids[i] as int]
        },
        (DataView::Amount(a), DataRawView::Amount(b)) => a == b,
        (DataView::Bool(a), DataRawView::Bool(b)) => a == b,
        _ => false,
    }
}

/// Whether `raw` is a saved form of the data map `data`: it holds, once
/// each and in any order, every entry whose key has a name, by that name.
pub open spec fn is_saved_data(
    raw: Seq<(Seq<char>, DataRawView)>,
    data: Map<Id, DataView>,
    names: Seq<Seq<char>>,
) -> bool {
    &&& forall|i: int, j: int|
        0 <= i < raw.len() && 0 <= j < raw.len() && i != j ==> (#[trigger] raw[i]).0 != (#[trigger] raw[j]).0
    &&& forall|i: int| 0 <= i < raw.len() ==> #[trigger] saves_entry_of(raw[i], data, names)
    &&& forall|k: Id|
        data.contains_key(k) && k < names.len() ==> exists|i: int|
            0 <= i < raw.len() && (#[trigger] raw[i]).0 == names[k as int] && #[trigger] data.contains_key(k)
}

/// Whether the saved entry `e` is the entry of `data` under the key it names.
pub open spec fn saves_entry_of(
    e: (Seq<char>, DataRawView),
    data: Map<Id, DataView>,
    names: Seq<Seq<char>>,
) -> bool {
    exists|k: Id|
        #![trigger data[k]]
        data.contains_key(k) && k < names.len() && names[k as int] == e.0 && saves_value(e.1, data[k], names)
}

/// The value that loading `v` gives: names are turned back into ids, and
/// names that are not interned are dropped from lists.
pub open spec fn load_value(v: DataRawView, names: Seq<Seq<char>>, items: Map<Id, Item>) -> DataView {
    match v {
        DataRawView::Inventory(s) => DataView::Inventory(loaded(s, names, items)),
        DataRawView::Coord(c) => DataView::Coord(c),
        DataRawView::VecCoord(c) => DataView::VecCoord(c),
        DataRawView::Id(n) => DataView::Id(id_of_name(names, n) as Id),
        DataRawView::VecId(ns) => DataView::VecId(
            ns.filter(|n: Seq<char>| is_named(names, n)).map_values(|n: Seq<char>| id_of_name(names, n) as Id),
        ),
        DataRawView::Amount(a) => DataView::Amount(a),
        DataRawView::Bool(b) => DataView::Bool(b),
    }
}

/// Whether every single id named in `v` is interned.
pub open spec fn raw_ids_named(v: DataRawView, names: Seq<Seq<char>>) -> bool {
    match v {
        DataRawView::Id(n) => is_named(names, n),
        _ => true,
    }
}

/// The data map that loading `raw` gives: each entry whose name is
/// interned, under its id; a later entry replaces an earlier one.
pub open spec fn loaded_data(
    raw: Seq<(Seq<char>, DataRawView)>,
    names: Seq<Seq<char>>,
    items: Map<Id, Item>,
) -> Map<Id, DataView>
    decreases raw.len(),
{
    if raw.len() == 0 {
        Map::empty()
    } else {
        let prev = loaded_data(raw.drop_last(), names, items);
        let (n, v) = raw.last();
        if is_named(names, n) {
            prev.insert(id_of_name(names, n) as Id, load_value(v, names, items))
        } else {
            prev
        }
    }
}

/// What saving and loading keeps of a value: an inventory keeps its
/// entries with a positive amount, a name and a registered item; every
/// other value is kept whole.
pub open spec fn restored_value(d: DataView, names: Seq<Seq<char>>, items: Map<Id, Item>) -> DataView {
    match d {
        DataView::Inventory(m) => DataView::Inventory(
            m.restrict(Set::new(|id: Id| m.contains_key(id) && m[id] > 0 && id < names.len() && items.contains_key(id))),
        ),
        _ => d,
    }
}

fn keys_of(data: &DataMap) -> (ks: Vec<Id>)
    ensures
        ks@.to_set() == data@.dom(),
        ks@.no_duplicates(),
{
    broadcast use vstd::laws_cmp::group_laws_cmp, vstd::std_specs::btree::group_btree_axioms;

    let mut ks: Vec<Id> = Vec::new();
    let ghost all = vstd::std_specs::btree::spec_keys_iter(data).remaining();
    for k in it: data.keys()
        invariant
            it.seq() == all,
            ks@ == it.seq().subrange(0, it.index()).map_values(|r: &Id| *r),
    {
        ks.push(*k);
    }
    assert(ks@ =~= all.unref());
    ks
}

/// The saved form of one value.
fn value_to_raw(value: Data, interner: &Interner) -> (r: DataRaw)
    requires
        ids_named(value@, interner.names()),
    ensures
        saves_value(r@, value@, interner.names()),
{
    let ghost v = value@;
    match value {
        Data::Inventory(inventory) => DataRaw::Inventory(InventoryRaw::from_inventory(inventory, interner)),
        Data::Coord(c) => DataRaw::Coord(c),
        Data::VecCoord(v) => DataRaw::VecCoord(v),
        Data::Id(id) => {
            let name = interner.resolve(id).unwrap();
            DataRaw::Id(name.clone())
        },
        Data::VecId(ids) => {
            assert(v == DataView::VecId(ids@));
            assert(ids_named(v, interner.names()));
            assert(ids_named(DataView::VecId(ids@), interner.names()));
            assert forall|j: int| 0 <= j < ids@.len() implies (#[trigger] ids@[j]) < interner.names().len() by {
                let d = DataView::VecId(ids@);
                assert(ids_named(d, interner.names()));
                match d {
                    DataView::VecId(s) => {
                        assert(s == ids@);
                        assert(s[j] < interner.names().len());
                    },
                    _ => {},
                }
            }
            assert(forall|j: int| 0 <= j < ids@.len() ==> #[trigger] ids@[j] < interner.names().len());
            let mut out: Vec<IdRaw> = Vec::new();
            let mut i: usize = 0;
            while i < ids.len()
                invariant
                    0 <= i <= ids@.len(),
                    forall|j: int| 0 <= j < ids@.len() ==> #[trigger] ids@[j] < interner.names().len(),
                    out@.len() == i,
                    forall|j: int| 0 <= j < i ==> (#[trigger] out@[j])@ == interner.names()[ids@[j] as int],
                decreases ids.len() - i,
            {
                let name = interner.resolve(ids[i]).unwrap();
                out.push(name.clone());
                i = i + 1;
            }
            let r = DataRaw::VecId(out);
            assert(saves_value(r@, Data::VecId(ids)@, interner.names())) by {
                let ns = out@.map_values(|s: IdRaw| s@);
                assert forall|j: int| 0 <= j < ids@.len() implies ids@[j] < interner.names().len()
                    && #[trigger] ns[j] == interner.names()[ids@[j] as int] by {
                    assert(ns[j] == out@[j]@);
                }
            }
            r
        },
        Data::Amount(a) => DataRaw::Amount(a),
        Data::Bool(b) => DataRaw::Bool(b),
    }
}

/// The saved entries `out` come, in order, from the keys `src` of `dv`.
#[verifier::opaque]
spec fn sourced(
    out: Seq<(Seq<char>, DataRawView)>,
    src: Seq<Id>,
    dv: Map<Id, DataView>,
    names: Seq<Seq<char>>,
) -> bool {
    &&& out.len() == src.len()
    &&& forall|a: int| 0 <= a < src.len() ==> {
        &&& dv.contains_key(#[trigger] src[a])
        &&& src[a] < names.len()
        &&& out[a].0 == names[src[a] as int]
        &&& saves_value(out[a].1, dv[src[a]], names)
    }
    &&& forall|a: int, b: int| 0 <= a < src.len() && 0 <= b < src.len() && a != b ==> #[trigger] src[a] != #[trigger] src[b]
    &&& forall|a: int, j: int|
        0 <= a < src.len() && 0 <= j < names.len() && j != src[a] ==> #[trigger] names[j] != names[(#[trigger] src[a]) as int]
}

/// The keys `src` are exactly those of `keys[..i]` that have a name.
#[verifier::opaque]
spec fn covers(src: Seq<Id>, keys: Seq<Id>, i: int, n: int) -> bool {
    &&& forall|a: int| #![trigger src[a]] 0 <= a < src.len() ==> exists|j: int| #![trigger keys[j]] 0 <= j < i && src[a] == keys[j]
    &&& forall|j: int| #![trigger keys[j]] 0 <= j < i && keys[j] < n ==> exists|a: int| #![trigger src[a]] 0 <= a < src.len() && src[a] == keys[j]
}

proof fn lemma_covers_step(keys: Seq<Id>, i: int, old_src: Seq<Id>, src: Seq<Id>, k: Id, n: int)
    requires
        0 <= i < keys.len(),
        keys.no_duplicates(),
        keys[i] == k,
        k < n ==> src == old_src.push(k),
        k >= n ==> src == old_src,
        covers(old_src, keys, i, n),
    ensures
        covers(src, keys, i + 1, n),
        k < n ==> forall|a: int| 0 <= a < old_src.len() ==> old_src[a] != k,
{
    reveal(covers);
    assert forall|a: int| #![trigger src[a]] 0 <= a < src.len() implies exists|j: int| #![trigger keys[j]] 0 <= j < i + 1 && src[a] == keys[j] by {
        if a < old_src.len() {
            let j = choose|j: int| #![trigger keys[j]] 0 <= j < i && old_src[a] == keys[j];
            assert(src[a] == keys[j]);
        } else {
            assert(src[a] == keys[i]);
        }
    }
    assert forall|j: int| #![trigger keys[j]] 0 <= j < i + 1 && keys[j] < n implies exists|a: int| #![trigger src[a]] 0 <= a < src.len() && src[a] == keys[j] by {
        if j == i {
            assert(src[old_src.len() as int] == keys[j]);
        } else {
            let a = choose|a: int| #![trigger old_src[a]] 0 <= a < old_src.len() && old_src[a] == keys[j];
            assert(src[a] == keys[j]);
        }
    }
    if k < n {
        assert forall|a: int| 0 <= a < old_src.len() implies old_src[a] != k by {
            let j = choose|j: int| #![trigger keys[j]] 0 <= j < i && old_src[a] == keys[j];
            assert(keys[j] != keys[i]);
        }
    }
}

proof fn lemma_sourced_push(
    out: Seq<(Seq<char>, DataRawView)>,
    src: Seq<Id>,
    dv: Map<Id, DataView>,
    names: Seq<Seq<char>>,
    k: Id,
    e: (Seq<char>, DataRawView),
)
    requires
        sourced(out, src, dv, names),
        dv.contains_key(k),
        k < names.len(),
        e.0 == names[k as int],
        saves_value(e.1, dv[k], names),
        forall|a: int| 0 <= a < src.len() ==> src[a] != k,
        forall|j: int| 0 <= j < names.len() && j != k ==> names[j] != names[k as int],
    ensures
        sourced(out.push(e), src.push(k), dv, names),
{
    reveal(sourced);
    let o2 = out.push(e);
    let s2 = src.push(k);
    assert forall|a: int| 0 <= a < s2.len() implies {
        &&& dv.contains_key(#[trigger] s2[a])
        &&& s2[a] < names.len()
        &&& o2[a].0 == names[s2[a] as int]
        &&& saves_value(o2[a].1, dv[s2[a]], names)
    } by {
        if a < src.len() {
            assert(s2[a] == src[a] && o2[a] == out[a]);
        }
    }
    assert forall|a: int, b: int| 0 <= a < s2.len() && 0 <= b < s2.len() && a != b implies #[trigger] s2[a] != #[trigger] s2[b] by {
        if a < src.len() && b < src.len() {
            assert(s2[a] == src[a] && s2[b] == src[b]);
        }
    }
    assert forall|a: int, j: int|
        0 <= a < s2.len() && 0 <= j < names.len() && j != s2[a] implies #[trigger] names[j] != names[(#[trigger] s2[a]) as int] by {
        if a < src.len() {
            assert(s2[a] == src[a]);
        }
    }
}

proof fn lemma_sourced_saved(
    out: Seq<(Seq<char>, DataRawView)>,
    src: Seq<Id>,
    keys: Seq<Id>,
    dv: Map<Id, DataView>,
    names: Seq<Seq<char>>,
)
    requires
        sourced(out, src, dv, names),
        covers(src, keys, keys.len() as int, names.len() as int),
        keys.to_set() == dv.dom(),
    ensures
        is_saved_data(out, dv, names),
{
    reveal(sourced);
    reveal(covers);
    assert forall|a: int, b: int| 0 <= a < out.len() && 0 <= b < out.len() && a != b implies (#[trigger] out[a]).0 != (#[trigger] out[b]).0 by {
        assert(src[a] != src[b]);
        assert(names[src[b] as int] != names[src[a] as int]);
    }
    assert forall|a: int| 0 <= a < out.len() implies #[trigger] saves_entry_of(out[a], dv, names) by {
        let k = src[a];
        assert(dv[k] == dv[k]);
    }
    assert forall|k: Id| dv.contains_key(k) && k < names.len() implies exists|a: int|
        0 <= a < out.len() && (#[trigger] out[a]).0 == names[k as int] && #[trigger] dv.contains_key(k) by {
        assert(keys.to_set().contains(k));
        let j = choose|j: int| 0 <= j < keys.len() && keys[j] == k;
        let a = choose|a: int| #![trigger src[a]] 0 <= a < src.len() && src[a] == keys[j];
        assert(out[a].0 == names[k as int]);
    }
}

/// The saved form of a tile's data: every entry whose key has a name, by
/// that name, with ids in values written by name.
pub fn data_to_raw(data: DataMap, interner: &Interner) -> (raw: DataMapRaw)
    requires
        forall|k: Id| #[trigger] data@.contains_key(k) ==> ids_named(data@[k]@, interner.names()),
    ensures
        is_saved_data(raw_data_view(raw@), view_data(data@), interner.names()),
{
    let keys = keys_of(&data);
    let ghost dv = view_data(data@);
    let ghost names = interner.names();
    let mut data = data;
    let mut out: DataMapRaw = Vec::new();
    let ghost mut src: Seq<Id> = Seq::empty();
    proof {
        reveal(sourced);
        reveal(covers);
        assert(raw_data_view(out@) =~= Seq::empty());
    }
    let mut i: usize = 0;
    while i < keys.len()
        invariant
            0 <= i <= keys@.len(),
            keys@.to_set() == dv.dom(),
            keys@.no_duplicates(),
            names == interner.names(),
            forall|k: Id| #[trigger] dv.contains_key(k) ==> ids_named(dv[k], names),
            forall|j: int| i <= j < keys@.len() ==> data@.contains_key(#[trigger] keys@[j]) && data@[keys@[j]]@ == dv[keys@[j]],
            sourced(raw_data_view(out@), src, dv, names),
            covers(src, keys@, i as int, names.len() as int),
        decreases keys.len() - i,
    {
        let k = keys[i];
        let ghost old_src = src;
        assert(dv.contains_key(k)) by {
            assert(keys@.to_set().contains(keys@[i as int]));
        }
        let value = data.remove(&k).unwrap();
        proof {
            assert forall|j: int| i + 1 <= j < keys@.len() implies data@.contains_key(#[trigger] keys@[j]) && data@[keys@[j]]@ == dv[keys@[j]] by {
                assert(keys@[j] != keys@[i as int]);
            }
        }
        let r = value_to_raw(value, interner);
        match interner.resolve(k) {
            Some(name) => {
                let entry = (name.clone(), r);
                let ghost before = raw_data_view(out@);
                proof {
                    lemma_covers_step(keys@, i as int, old_src, old_src.push(k), k, names.len() as int);
                    lemma_sourced_push(raw_data_view(out@), src, dv, names, k, (entry.0@, entry.1@));
                }
                out.push(entry);
                proof {
                    src = src.push(k);
                    assert(raw_data_view(out@) =~= before.push((entry.0@, entry.1@)));
                }
            },
            None => {
                proof {
                    lemma_covers_step(keys@, i as int, old_src, old_src, k, names.len() as int);
                }
            },
        }
        i = i + 1;
    }
    proof {
        lemma_sourced_saved(raw_data_view(out@), src, keys@, dv, names);
    }
    out
}

/// The value that loading one saved value gives.
fn value_from_raw(value: DataRaw, interner: &Interner, registry: &Registry) -> (d: Data)
    requires
        raw_ids_named(value@, interner.names()),
    ensures
        d@ == load_value(value@, interner.names(), registry.items@),
{
    let ghost v = value@;
    let ghost names = interner.names();
    match value {
        DataRaw::Inventory(inv) => Data::Inventory(inv.to_inventory(interner, registry)),
        DataRaw::Coord(c) => Data::Coord(c),
        DataRaw::VecCoord(c) => Data::VecCoord(c),
        DataRaw::Id(name) => {
            let id = interner.get(&name).unwrap();
            proof {
                let x = id_of_name(names, name@);
                assert(0 <= x < names.len() && names[x] == name@);
            }
            Data::Id(id)
        },
        DataRaw::VecId(list) => {
            let ghost ns = list@.map_values(|s: IdRaw| s@);
            let ghost is_n = |n: Seq<char>| is_named(names, n);
            let ghost to_id = |n: Seq<char>| id_of_name(names, n) as Id;
            let mut out: Vec<Id> = Vec::new();
            let mut i: usize = 0;
            while i < list.len()
                invariant
                    0 <= i <= list@.len(),
                    ns == list@.map_values(|s: IdRaw| s@),
                    names == interner.names(),
                    is_n == (|n: Seq<char>| is_named(names, n)),
                    to_id == (|n: Seq<char>| id_of_name(names, n) as Id),
                    out@ == ns.take(i as int).filter(is_n).map_values(to_id),
                decreases list.len() - i,
            {
                let ghost before = ns.take(i as int);
                assert(ns.take(i + 1) =~= before.push(ns[i as int]));
                proof {
                    before.lemma_filter_push(ns[i as int], is_n);
                }
                match interner.get(&list[i]) {
                    Some(id) => {
                        proof {
                            let x = id_of_name(names, list@[i as int]@);
                            assert(names[id as int] == list@[i as int]@);
                            assert(x == id as int);
                            assert(is_n(ns[i as int]));
                        }
                        out.push(id);
                        assert(out@ =~= ns.take(i + 1).filter(is_n).map_values(to_id));
                    },
                    None => {
                        assert(!is_n(ns[i as int]));
                        assert(out@ =~= ns.take(i + 1).filter(is_n).map_values(to_id));
                    },
                }
                i = i + 1;
            }
            assert(ns.take(list@.len() as int) =~= ns);
            Data::VecId(out)
        },
        DataRaw::Amount(a) => Data::Amount(a),
        DataRaw::Bool(b) => Data::Bool(b),
    }
}

/// The data map a saved form loads to: each entry whose name is interned,
/// under its id, with names in values turned back into ids; a later entry
/// replaces an earlier one.
pub fn data_from_raw(raw: DataMapRaw, interner: &Interner, registry: &Registry) -> (data: DataMap)
    requires
        forall|i: int| 0 <= i < raw@.len() ==> raw_ids_named((#[trigger] raw@[i]).1@, interner.names()),
    ensures
        view_data(data@) == loaded_data(raw_data_view(raw@), interner.names(), registry.items@),
{
    broadcast use vstd::std_specs::vec::group_vec_axioms;

    let ghost rv = raw_data_view(raw@);
    let ghost all = raw@;
    let ghost names = interner.names();
    let mut data: DataMap = BTreeMap::new();
    for e in it: raw.into_iter()
        invariant
            it.seq() == all,
            rv == raw_data_view(all),
            names == interner.names(),
            forall|i: int| 0 <= i < all.len() ==> raw_ids_named((#[trigger] all[i]).1@, names),
            view_data(data@) == loaded_data(rv.take(it.index()), names, registry.items@),
    {
        let ghost idx = it.index();
        let (name, value) = e;
        assert(rv.take(idx + 1).drop_last() =~= rv.take(idx));
        assert(rv.take(idx + 1).last() == (name@, value@));
        let d = value_from_raw(value, interner, registry);
        match interner.get(&name) {
            Some(k) => {
                proof {
                    let x = id_of_name(names, name@);
                    assert(names[k as int] == name@);
                    assert(x == k as int);
                }
                data.insert(k, d);
                assert(view_data(data@) =~= loaded_data(rv.take(idx + 1), names, registry.items@));
            },
            None => {},
        }
    }
    assert(rv.take(all.len() as int) =~= rv);
    data
}

proof fn lemma_filter_all<A>(s: Seq<A>, p: spec_fn(A) -> bool)
    requires
        forall|i: int| 0 <= i < s.len() ==> p(#[trigger] s[i]),
    ensures
        s.filter(p) == s,
    decreases s.len(),
{
    if s.len() == 0 {
        assert(s.filter(p) =~= s);
    } else {
        let init = s.drop_last();
        assert forall|i: int| 0 <= i < init.len() implies p(#[trigger] init[i]) by {
            assert(init[i] == s[i]);
        }
        lemma_filter_all(init, p);
        init.lemma_filter_push(s.last(), p);
        assert(init.push(s.last()) =~= s);
    }
}

proof fn lemma_id_of_own_name(names: Seq<Seq<char>>, id: Id)
    requires
        valid_names(names),
        id < names.len(),
    ensures
        is_named(names, names[id as int]),
        id_of_name(names, names[id as int]) == id as int,
{
    let x = id_of_name(names, names[id as int]);
    assert(is_named(names, names[id as int]));
    if x != id as int {
        assert(names[x] != names[id as int]);
    }
}

/// Loading a saved value gives back what saving keeps of it.
proof fn lemma_load_saved_value(r: DataRawView, d: DataView, names: Seq<Seq<char>>, items: Map<Id, Item>)
    requires
        valid_names(names),
        forall|x: Id| #[trigger] items.contains_key(x) ==> items[x].id == x,
        saves_value(r, d, names),
    ensures
        load_value(r, names, items) == restored_value(d, names, items),
        raw_ids_named(r, names),
{
    match (d, r) {
        (DataView::Inventory(m), DataRawView::Inventory(s)) => {
            law_save_then_load_restores(m, names, items, s);
        },
        (DataView::Id(id), DataRawView::Id(n)) => {
            lemma_id_of_own_name(names, id);
        },
        (DataView::VecId(ids), DataRawView::VecId(ns)) => {
            let is_n = |n: Seq<char>| is_named(names, n);
            let to_id = |n: Seq<char>| id_of_name(names, n) as Id;
            assert forall|i: int| 0 <= i < ns.len() implies is_n(#[trigger] ns[i]) by {
                assert(ns[i] == names[ids[i] as int]);
                lemma_id_of_own_name(names, ids[i]);
            }
            lemma_filter_all(ns, is_n);
            assert forall|i: int| 0 <= i < ns.len() implies #[trigger] ns.map_values(to_id)[i] == ids[i] by {
                assert(ns[i] == names[ids[i] as int]);
                lemma_id_of_own_name(names, ids[i]);
            }
            assert(ns.map_values(to_id) =~= ids);
        },
        _ => {},
    }
}

proof fn lemma_loaded_data_at(
    raw: Seq<(Seq<char>, DataRawView)>,
    names: Seq<Seq<char>>,
    items: Map<Id, Item>,
    k: Id,
)
    requires
        valid_names(names),
        forall|i: int, j: int| 0 <= i < raw.len() && 0 <= j < raw.len() && i != j ==> (#[trigger] raw[i]).0 != (#[trigger] raw[j]).0,
    ensures
        loaded_data(raw, names, items).contains_key(k) <==> (k < names.len() && exists|i: int|
            0 <= i < raw.len() && (#[trigger] raw[i]).0 == names[k as int]),
        forall|i: int|
            0 <= i < raw.len() && k < names.len() && (#[trigger] raw[i]).0 == names[k as int]
                ==> loaded_data(raw, names, items)[k] == load_value(raw[i].1, names, items),
    decreases raw.len(),
{
    if raw.len() > 0 {
        let init = raw.drop_last();
        lemma_loaded_data_at(init, names, items, k);
        let (n, v) = raw.last();
        let last = raw.len() - 1;
        assert forall|i: int| 0 <= i < init.len() implies #[trigger] init[i] == raw[i] by {}
        if is_named(names, n) {
            let x = id_of_name(names, n);
            assert(0 <= x < names.len() && names[x] == n);
            let xi = x as Id;
            assert(xi as int == x);
            if xi == k {
                assert(raw[last].0 == names[k as int]);
                assert forall|i: int| 0 <= i < raw.len() && (#[trigger] raw[i]).0 == names[k as int] implies i == last by {
                    if i != last {
                        assert(raw[i].0 != raw[last].0);
                    }
                }
            } else {
                if k < names.len() {
                    assert(names[k as int] != n);
                    assert forall|i: int| 0 <= i < raw.len() && (#[trigger] raw[i]).0 == names[k as int] implies i < last && init[i] == raw[i] by {}
                }
            }
        } else {
            if k < names.len() {
                assert(raw[last].0 != names[k as int]);
                assert forall|i: int| 0 <= i < raw.len() && (#[trigger] raw[i]).0 == names[k as int] implies i < last && init[i] == raw[i] by {}
            }
        }
    }
}

/// Saving a tile's data and loading the saved form again gives back the
/// entries whose key has a name, each value whole except inventories,
/// which keep their entries with a positive amount, a name and a
/// registered item. What is saved also meets what loading asks of it.
pub proof fn law_data_save_then_load_restores(
    data: Map<Id, DataView>,
    names: Seq<Seq<char>>,
    items: Map<Id, Item>,
    raw: Seq<(Seq<char>, DataRawView)>,
)
    requires
        valid_names(names),
        forall|x: Id| #[trigger] items.contains_key(x) ==> items[x].id == x,
        is_saved_data(raw, data, names),
    ensures
        forall|i: int| 0 <= i < raw.len() ==> raw_ids_named((#[trigger] raw[i]).1, names),
        loaded_data(raw, names, items) == Map::new(
            |k: Id| data.contains_key(k) && k < names.len(),
            |k: Id| restored_value(data[k], names, items),
        ),
{
    let l = loaded_data(raw, names, items);
    let want = Map::new(
        |k: Id| data.contains_key(k) && k < names.len(),
        |k: Id| restored_value(data[k], names, items),
    );
    assert forall|i: int| 0 <= i < raw.len() implies raw_ids_named((#[trigger] raw[i]).1, names) by {
        assert(saves_entry_of(raw[i], data, names));
        let k = choose|k: Id| #![trigger data[k]] data.contains_key(k) && k < names.len() && names[k as int] == raw[i].0 && saves_value(raw[i].1, data[k], names);
        lemma_load_saved_value(raw[i].1, data[k], names, items);
    }
    assert forall|k: Id| #[trigger] l.contains_key(k) <==> want.contains_key(k) by {
        lemma_loaded_data_at(raw, names, items, k);
        if l.contains_key(k) {
            let i = choose|i: int| 0 <= i < raw.len() && (#[trigger] raw[i]).0 == names[k as int];
            assert(saves_entry_of(raw[i], data, names));
            let k2 = choose|k2: Id| #![trigger data[k2]] data.contains_key(k2) && k2 < names.len() && names[k2 as int] == raw[i].0 && saves_value(raw[i].1, data[k2], names);
            if k2 != k {
                assert(names[k2 as int] != names[k as int]);
            }
        }
        if want.contains_key(k) {
            assert(data.contains_key(k) && k < names.len());
        }
    }
    assert forall|k: Id| #[trigger] l.contains_key(k) implies l[k] == want[k] by {
        lemma_loaded_data_at(raw, names, items, k);
        let i = choose|i: int| 0 <= i < raw.len() && (#[trigger] raw[i]).0 == names[k as int];
        assert(saves_entry_of(raw[i], data, names));
        let k2 = choose|k2: Id| #![trigger data[k2]] data.contains_key(k2) && k2 < names.len() && names[k2 as int] == raw[i].0 && saves_value(raw[i].1, data[k2], names);
        if k2 != k {
            assert(names[k2 as int] != names[k as int]);
        }
        lemma_load_saved_value(raw[i].1, data[k], names, items);
    }
    assert(l =~= want);
}

/// The names that loading `v` interns, in order.
pub open spec fn value_names(v: DataRawView) -> Seq<Seq<char>> {
    match v {
        DataRawView::Inventory(s) => entry_names(s),
        DataRawView::Id(n) => seq![n],
        DataRawView::VecId(ns) => ns,
        _ => Seq::empty(),
    }
}

/// The names that loading `raw` interns, in order: for each entry, the
/// names in its value, then its own name.
pub open spec fn all_names(raw: Seq<(Seq<char>, DataRawView)>) -> Seq<Seq<char>>
    decreases raw.len(),
{
    if raw.len() == 0 {
        Seq::empty()
    } else {
        all_names(raw.drop_last()) + value_names(raw.last().1).push(raw.last().0)
    }
}

proof fn lemma_all_names_prefix(raw: Seq<(Seq<char>, DataRawView)>, m: int)
    requires
        0 <= m <= raw.len(),
    ensures
        all_names(raw.take(m)).len() <= all_names(raw).len(),
    decreases raw.len(),
{
    if m < raw.len() {
        let init = raw.drop_last();
        assert(raw.take(m) =~= init.take(m));
        lemma_all_names_prefix(init, m);
    } else {
        assert(raw.take(m) =~= raw);
    }
}

proof fn lemma_interned_append(names: Seq<Seq<char>>, a: Seq<Seq<char>>, b: Seq<Seq<char>>)
    ensures
        interned(names, a + b) == interned(interned(names, a), b),
    decreases b.len(),
{
    if b.len() == 0 {
        assert(a + b =~= a);
    } else {
        lemma_interned_append(names, a, b.drop_last());
        assert((a + b).drop_last() =~= a + b.drop_last());
        assert((a + b).last() == b.last());
    }
}

proof fn lemma_interned_grows(names: Seq<Seq<char>>, ns: Seq<Seq<char>>)
    ensures
        names.len() <= interned(names, ns).len() <= names.len() + ns.len(),
        forall|i: int| 0 <= i < names.len() ==> #[trigger] interned(names, ns)[i] == names[i],
        forall|i: int| 0 <= i < ns.len() ==> is_named(interned(names, ns), #[trigger] ns[i]),
    decreases ns.len(),
{
    if ns.len() > 0 {
        let init = ns.drop_last();
        lemma_interned_grows(names, init);
        let prev = interned(names, init);
        let r = interned(names, ns);
        assert forall|i: int| 0 <= i < ns.len() implies is_named(r, #[trigger] ns[i]) by {
            if i < init.len() {
                assert(ns[i] == init[i]);
                assert(is_named(prev, init[i]));
                let x = choose|x: int| 0 <= x < prev.len() && prev[x] == init[i];
                assert(r[x] == prev[x]);
            } else if !is_named(prev, ns.last()) {
                assert(r[prev.len() as int] == ns.last());
            }
        }
    }
}

proof fn lemma_all_names_contains(raw: Seq<(Seq<char>, DataRawView)>, i: int)
    requires
        0 <= i < raw.len(),
    ensures
        all_names(raw).contains(raw[i].0),
        forall|j: int| 0 <= j < value_names(raw[i].1).len() ==> all_names(raw).contains(#[trigger] value_names(raw[i].1)[j]),
    decreases raw.len(),
{
    let init = raw.drop_last();
    let tail = value_names(raw.last().1).push(raw.last().0);
    assert(all_names(raw) == all_names(init) + tail);
    if i < init.len() {
        lemma_all_names_contains(init, i);
        assert(init[i] == raw[i]);
        let a = all_names(init);
        let x = choose|x: int| 0 <= x < a.len() && a[x] == raw[i].0;
        assert(all_names(raw)[x] == raw[i].0);
        assert forall|j: int| 0 <= j < value_names(raw[i].1).len() implies all_names(raw).contains(#[trigger] value_names(raw[i].1)[j]) by {
            let y = choose|y: int| 0 <= y < a.len() && a[y] == value_names(raw[i].1)[j];
            assert(all_names(raw)[y] == a[y]);
        }
    } else {
        let a = all_names(init);
        assert(all_names(raw)[a.len() + tail.len() - 1] == raw[i].0);
        assert forall|j: int| 0 <= j < value_names(raw[i].1).len() implies all_names(raw).contains(#[trigger] value_names(raw[i].1)[j]) by {
            assert(all_names(raw)[a.len() + j] == value_names(raw[i].1)[j]);
        }
    }
}

proof fn lemma_named_in_prefix(names: Seq<Seq<char>>, more: Seq<Seq<char>>, n: Seq<char>)
    requires
        valid_names(more),
        names.len() <= more.len(),
        forall|i: int| 0 <= i < names.len() ==> #[trigger] more[i] == names[i],
        is_named(names, n),
    ensures
        is_named(more, n),
        id_of_name(more, n) == id_of_name(names, n),
{
    let x = id_of_name(names, n);
    assert(more[x] == n);
    let y = id_of_name(more, n);
    if y != x {
        assert(more[y] != more[x]);
    }
}

proof fn lemma_load_value_extend(v: DataRawView, names: Seq<Seq<char>>, more: Seq<Seq<char>>, items: Map<Id, Item>)
    requires
        valid_names(more),
        names.len() <= more.len(),
        forall|i: int| 0 <= i < names.len() ==> #[trigger] more[i] == names[i],
        forall|j: int| 0 <= j < value_names(v).len() ==> is_named(names, #[trigger] value_names(v)[j]),
    ensures
        load_value(v, more, items) == load_value(v, names, items),
{
    match v {
        DataRawView::Inventory(s) => {
            assert forall|i: int| 0 <= i < s.len() implies is_named(names, #[trigger] s[i].0) by {
                assert(value_names(v)[i] == s[i].0);
            }
            lemma_loaded_extend(s, names, more, items);
        },
        DataRawView::Id(n) => {
            assert(value_names(v)[0] == n);
            lemma_named_in_prefix(names, more, n);
        },
        DataRawView::VecId(ns) => {
            let in_names = |n: Seq<char>| is_named(names, n);
            let in_more = |n: Seq<char>| is_named(more, n);
            assert forall|i: int| 0 <= i < ns.len() implies in_names(#[trigger] ns[i]) && in_more(ns[i]) by {
                assert(value_names(v)[i] == ns[i]);
                lemma_named_in_prefix(names, more, ns[i]);
            }
            lemma_filter_all(ns, in_names);
            lemma_filter_all(ns, in_more);
            let f = |n: Seq<char>| id_of_name(names, n) as Id;
            let g = |n: Seq<char>| id_of_name(more, n) as Id;
            assert forall|i: int| 0 <= i < ns.len() implies #[trigger] ns.map_values(g)[i] == ns.map_values(f)[i] by {
                assert(value_names(v)[i] == ns[i]);
                lemma_named_in_prefix(names, more, ns[i]);
            }
            assert(ns.map_values(g) =~= ns.map_values(f));
        },
        _ => {},
    }
}

proof fn lemma_loaded_data_extend(
    raw: Seq<(Seq<char>, DataRawView)>,
    names: Seq<Seq<char>>,
    more: Seq<Seq<char>>,
    items: Map<Id, Item>,
)
    requires
        valid_names(more),
        names.len() <= more.len(),
        forall|i: int| 0 <= i < names.len() ==> #[trigger] more[i] == names[i],
        forall|k: int| 0 <= k < all_names(raw).len() ==> is_named(names, #[trigger] all_names(raw)[k]),
    ensures
        loaded_data(raw, more, items) == loaded_data(raw, names, items),
    decreases raw.len(),
{
    if raw.len() > 0 {
        let init = raw.drop_last();
        let tail = value_names(raw.last().1).push(raw.last().0);
        assert(all_names(raw) == all_names(init) + tail);
        assert forall|k: int| 0 <= k < all_names(init).len() implies is_named(names, #[trigger] all_names(init)[k]) by {
            assert(all_names(raw)[k] == all_names(init)[k]);
        }
        lemma_loaded_data_extend(init, names, more, items);
        let a = all_names(init).len();
        let n = raw.last().0;
        assert(all_names(raw)[a + tail.len() - 1] == n);
        lemma_named_in_prefix(names, more, n);
        assert forall|j: int| 0 <= j < value_names(raw.last().1).len() implies is_named(names, #[trigger] value_names(raw.last().1)[j]) by {
            assert(all_names(raw)[a + j] == value_names(raw.last().1)[j]);
        }
        lemma_load_value_extend(raw.last().1, names, more, items);
    }
}

/// The value that loading one saved value gives, interning the names in
/// it that are new.
fn value_intern(value: DataRaw, interner: &mut Interner, registry: &Registry) -> (d: Data)
    requires
        old(interner).names().len() + value_names(value@).len() < u32::MAX,
    ensures
        final(interner).names() == interned(old(interner).names(), value_names(value@)),
        d@ == load_value(value@, final(interner).names(), registry.items@),
{
    let ghost v = value@;
    let ghost start = interner.names();
    match value {
        DataRaw::Inventory(inv) => {
            assert(entry_names(raw_view(inv.0@)).len() == inv.0@.len());
            let m = InventoryRaw::intern_to_inventory(inv, interner, registry);
            Data::Inventory(m)
        },
        DataRaw::Coord(c) => {
            assert(interned(start, value_names(v)) == start);
            Data::Coord(c)
        },
        DataRaw::VecCoord(c) => {
            assert(interned(start, value_names(v)) == start);
            Data::VecCoord(c)
        },
        DataRaw::Id(name) => {
            let ghost n = name@;
            assert(seq![n].drop_last() =~= Seq::<Seq<char>>::empty());
            assert(interned(start, Seq::<Seq<char>>::empty()) == start);
            let id = interner.get_or_intern(name);
            proof {
                let x = id_of_name(interner.names(), n);
                assert(is_named(interner.names(), n));
                if x != id as int {
                    assert(interner.names()[x] != interner.names()[id as int]);
                }
                assert(v == DataRawView::Id(n));
                assert((x as Id) == id);
            }
            let d = Data::Id(id);
            assert(d@ == load_value(v, interner.names(), registry.items@));
            d
        },
        DataRaw::VecId(list) => {
            let ghost ns = list@.map_values(|s: IdRaw| s@);
            let mut out: Vec<Id> = Vec::new();
            let mut i: usize = 0;
            while i < list.len()
                invariant
                    0 <= i <= list@.len(),
                    ns == list@.map_values(|s: IdRaw| s@),
                    start.len() + ns.len() < u32::MAX,
                    interner.names() == interned(start, ns.take(i as int)),
                    interner.names().len() <= start.len() + i,
                    i > 0 ==> valid_names(interner.names()),
                    out@.len() == i,
                    forall|j: int| 0 <= j < i ==> (#[trigger] out@[j]) < interner.names().len() && interner.names()[out@[j] as int] == ns[j],
                decreases list.len() - i,
            {
                let ghost before = interner.names();
                assert(ns.take(i + 1).drop_last() =~= ns.take(i as int));
                assert(ns.take(i + 1).last() == list@[i as int]@);
                let id = interner.get_or_intern(list[i].clone());
                proof {
                    lemma_interned_grows(before, seq![list@[i as int]@]);
                    assert(seq![list@[i as int]@].drop_last() =~= Seq::<Seq<char>>::empty());
                    assert forall|j: int| 0 <= j < i implies (#[trigger] out@[j]) < interner.names().len() && interner.names()[out@[j] as int] == ns[j] by {
                        assert(interner.names()[out@[j] as int] == before[out@[j] as int]);
                    }
                }
                out.push(id);
                i = i + 1;
            }
            proof {
                assert(ns.take(list@.len() as int) =~= ns);
                assert(v == DataRawView::VecId(ns));
                let names = interner.names();
                if ns.len() > 0 {
                    let is_n = |n: Seq<char>| is_named(names, n);
                    let to_id = |n: Seq<char>| id_of_name(names, n) as Id;
                    assert forall|j: int| 0 <= j < ns.len() implies is_n(#[trigger] ns[j]) by {
                        assert(names[out@[j] as int] == ns[j]);
                    }
                    lemma_filter_all(ns, is_n);
                    assert forall|j: int| 0 <= j < ns.len() implies #[trigger] ns.map_values(to_id)[j] == out@[j] by {
                        assert(names[out@[j] as int] == ns[j]);
                        let x = id_of_name(names, ns[j]);
                        assert(is_n(ns[j]));
                        if x != out@[j] as int {
                            assert(names[x] != names[out@[j] as int]);
                        }
                    }
                    assert(ns.map_values(to_id) =~= out@);
                    assert(is_n == (|n: Seq<char>| is_named(names, n)));
                    assert(to_id == (|n: Seq<char>| id_of_name(names, n) as Id));
                    assert(ns.filter(|n: Seq<char>| is_named(names, n)) == ns);
                    assert(ns.map_values(|n: Seq<char>| id_of_name(names, n) as Id) == out@);
                } else {
                    assert(ns.filter(|n: Seq<char>| is_named(names, n)) =~= ns);
                    assert(out@ =~= Seq::<Id>::empty());
                    assert(ns.map_values(|n: Seq<char>| id_of_name(names, n) as Id) =~= out@);
                }
                assert(load_value(v, names, registry.items@) == DataView::VecId(
                    ns.filter(|n: Seq<char>| is_named(names, n)).map_values(|n: Seq<char>| id_of_name(names, n) as Id),
                ));
                assert(load_value(v, names, registry.items@) == DataView::VecId(out@));
            }
            let d = Data::VecId(out);
            assert(d@ == load_value(v, interner.names(), registry.items@));
            d
        },
        DataRaw::Amount(a) => {
            assert(v == DataRawView::Amount(a));
            assert(interned(start, value_names(v)) == start);
            let d = Data::Amount(a);
            assert(d@ == load_value(v, interner.names(), registry.items@));
            d
        },
        DataRaw::Bool(b) => {
            assert(v == DataRawView::Bool(b));
            assert(interned(start, value_names(v)) == start);
            let d = Data::Bool(b);
            assert(d@ == load_value(v, interner.names(), registry.items@));
            d
        },
    }
}

/// The data map a saved form loads to, interning every name in it that is
/// new: for each entry, the names in its value and then its own name.
pub fn intern_data_from_raw(raw: DataMapRaw, interner: &mut Interner, registry: &Registry) -> (data: DataMap)
    requires
        old(interner).names().len() + all_names(raw_data_view(raw@)).len() < u32::MAX,
    ensures
        final(interner).names() == interned(old(interner).names(), all_names(raw_data_view(raw@))),
        view_data(data@) == loaded_data(raw_data_view(raw@), final(interner).names(), registry.items@),
{
    broadcast use vstd::std_specs::vec::group_vec_axioms;

    let ghost rv = raw_data_view(raw@);
    let ghost all = raw@;
    let ghost start = interner.names();
    let mut data: DataMap = BTreeMap::new();
    for e in it: raw.into_iter()
        invariant
            it.seq() == all,
            rv == raw_data_view(all),
            start.len() + all_names(rv).len() < u32::MAX,
            interner.names() == interned(start, all_names(rv.take(it.index()))),
            view_data(data@) == loaded_data(rv.take(it.index()), interner.names(), registry.items@),
    {
        let ghost idx = it.index();
        let ghost pre = rv.take(idx);
        let ghost post = rv.take(idx + 1);
        let (name, value) = e;
        let ghost v = value@;
        let ghost n = name@;
        assert(post.drop_last() =~= pre);
        assert(post.last() == (n, v));
        assert(all_names(post) == all_names(pre) + value_names(v).push(n));
        proof {
            lemma_interned_grows(start, all_names(pre));
            lemma_all_names_prefix(rv, idx + 1);
        }
        let ghost n0 = interner.names();
        let d = value_intern(value, interner, registry);
        let ghost n1 = interner.names();
        assert(seq![n].drop_last() =~= Seq::<Seq<char>>::empty());
        assert(interned(n1, Seq::<Seq<char>>::empty()) == n1);
        proof {
            lemma_interned_grows(n0, value_names(v));
        }
        let k = interner.get_or_intern(name);
        let ghost n2 = interner.names();
        proof {
            lemma_interned_grows(n1, seq![n]);
            assert(all_names(pre) + value_names(v).push(n) =~= (all_names(pre) + value_names(v)) + seq![n]);
            lemma_interned_append(start, all_names(pre), value_names(v));
            lemma_interned_append(start, all_names(pre) + value_names(v), seq![n]);
            assert forall|i: int| 0 <= i < n0.len() implies #[trigger] n2[i] == n0[i] by {
                assert(n1[i] == n0[i]);
            }
            assert forall|x: int| 0 <= x < all_names(pre).len() implies is_named(n0, #[trigger] all_names(pre)[x]) by {}
            lemma_loaded_data_extend(pre, n0, n2, registry.items@);
            assert forall|j: int| 0 <= j < value_names(v).len() implies is_named(n1, #[trigger] value_names(v)[j]) by {}
            lemma_load_value_extend(v, n1, n2, registry.items@);
            let x = id_of_name(n2, n);
            assert(is_named(n2, n));
            if x != k as int {
                assert(n2[x] != n2[k as int]);
            }
        }
        data.insert(k, d);
        assert(view_data(data@) =~= loaded_data(post, n2, registry.items@));
    }
    assert(rv.take(all.len() as int) =~= rv);
    data
}

} // verus!
