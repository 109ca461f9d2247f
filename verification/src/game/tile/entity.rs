use vstd::prelude::*;

use std::collections::BTreeMap;

use crate::game::item::{Item, ItemAmount, ItemStack};
use crate::game::registry::{Registry, Script, spec_id_match};
use crate::game::tile::coord::{TileCoord, plus, small};
use crate::game::tile::inventory::{Inventory, amount_of};
use crate::util::id::Id;

verus! {

broadcast use vstd::laws_cmp::group_laws_cmp, vstd::std_specs::btree::group_btree_axioms;

/// The state a tile is placed with, such as its rotation.
pub type TileModifier = i32;

/// A count of game ticks, wrapping around.
pub type TickUnit = u16;

/// The errors a tile can run into when handed items.
#[derive(Debug, Clone, Copy, PartialEq, Eq, Structural)]
pub enum TransactionError {
    /// Tried to execute a script but could not find one.
    NoScript,
    /// The transaction cannot be applied to this tile.
    NotSuitable,
    /// The target inventory is full.
    Full,
}

/// A value a tile entity keeps in its data map.
pub enum Data {
    /// An inventory.
    Inventory(Inventory),
    /// A coordinate.
    Coord(TileCoord),
    /// A list of coordinates.
    VecCoord(Vec<TileCoord>),
    /// An id.
    Id(Id),
    /// A list of ids.
    VecId(Vec<Id>),
    /// An amount of items.
    Amount(ItemAmount),
    /// A flag.
    Bool(bool),
}

/// The mathematical content of a `Data` value.
pub enum DataView {
    Inventory(Map<Id, ItemAmount>),
    Coord((int, int, int)),
    VecCoord(Seq<(int, int, int)>),
    Id(Id),
    VecId(Seq<Id>),
    Amount(ItemAmount),
    Bool(bool),
}

impl View for Data {
    type V = DataView;

    open spec fn view(&self) -> DataView {
        match self {
            Data::Inventory(v) => DataView::Inventory(v@),
            Data::Coord(v) => DataView::Coord(v@),
            Data::VecCoord(v) => DataView::VecCoord(v@.map_values(|c: TileCoord| c@)),
            Data::Id(v) => DataView::Id(*v),
            Data::VecId(v) => DataView::VecId(v@),
            Data::Amount(v) => DataView::Amount(*v),
            Data::Bool(v) => DataView::Bool(*v),
        }
    }
}

impl Clone for Data {
    fn clone(&self) -> (d: Data)
        ensures
            d@ == self@,
    {
        match self {
            Data::Inventory(v) => Data::Inventory(v.clone()),
            Data::Coord(v) => Data::Coord(*v),
            Data::VecCoord(v) => {
                let mut out: Vec<TileCoord> = Vec::new();
                let mut i: usize = 0;
                while i < v.len()
                    invariant
                        0 <= i <= v.len(),
                        out@ == v@.subrange(0, i as int),
                    decreases v.len() - i,
                {
                    out.push(v[i]);
                    i = i + 1;
                    assert(out@ =~= v@.subrange(0, i as int));
                }
                assert(out@ =~= v@);
                Data::VecCoord(out)
            },
            Data::Id(v) => Data::Id(*v),
            Data::VecId(v) => {
                let mut out: Vec<Id> = Vec::new();
                let mut i: usize = 0;
                while i < v.len()
                    invariant
                        0 <= i <= v.len(),
                        out@ == v@.subrange(0, i as int),
                    decreases v.len() - i,
                {
                    out.push(v[i]);
                    i = i + 1;
                    assert(out@ =~= v@.subrange(0, i as int));
                }
                assert(out@ =~= v@);
                Data::VecId(out)
            },
            Data::Amount(v) => Data::Amount(*v),
            Data::Bool(v) => Data::Bool(*v),
        }
    }
}

impl Data {
    /// An empty inventory.
    pub fn inventory() -> (d: Data)
        ensures
            d@ == DataView::Inventory(Map::empty()),
    {
        Data::Inventory(Inventory::new())
    }

    /// An empty list of coordinates.
    pub fn vec_coord() -> (d: Data)
        ensures
            d@ == DataView::VecCoord(Seq::empty()),
    {
        let v: Vec<TileCoord> = Vec::new();
        assert(v@.map_values(|c: TileCoord| c@) =~= Seq::empty());
        let d = Data::VecCoord(v);
        d
    }

    /// The inventory, if this is one.
    pub fn as_inventory(&self) -> (r: Option<&Inventory>)
        ensures
            match self {
                Data::Inventory(v) => r == Some(v),
                _ => r is None,
            },
    {
        if let Data::Inventory(v) = self {
            return Some(v);
        }
        None
    }

    /// The coordinate, if this is one.
    pub fn as_coord(&self) -> (r: Option<&TileCoord>)
        ensures
            match self {
                Data::Coord(v) => r == Some(v),
                _ => r is None,
            },
    {
        if let Data::Coord(v) = self {
            return Some(v);
        }
        None
    }

    /// The flag, if this is one.
    pub fn as_bool(&self) -> (r: Option<&bool>)
        ensures
            match self {
                Data::Bool(v) => r == Some(v),
                _ => r is None,
            },
    {
        if let Data::Bool(v) = self {
            return Some(v);
        }
        None
    }

    /// The list of coordinates, if this is one.
    pub fn as_vec_coord(&self) -> (r: Option<&Vec<TileCoord>>)
        ensures
            match self {
                Data::VecCoord(v) => r == Some(v),
                _ => r is None,
            },
    {
        if let Data::VecCoord(v) = self {
            return Some(v);
        }
        None
    }

    /// The id, if this is one.
    pub fn as_id(&self) -> (r: Option<&Id>)
        ensures
            match self {
                Data::Id(v) => r == Some(v),
                _ => r is None,
            },
    {
        if let Data::Id(v) = self {
            return Some(v);
        }
        None
    }

    /// The list of ids, if this is one.
    pub fn as_vec_id(&self) -> (r: Option<&Vec<Id>>)
        ensures
            match self {
                Data::VecId(v) => r == Some(v),
                _ => r is None,
            },
    {
        if let Data::VecId(v) = self {
            return Some(v);
        }
        None
    }

    /// The amount, if this is one.
    pub fn as_amount(&self) -> (r: Option<&ItemAmount>)
        ensures
            match self {
                Data::Amount(v) => r == Some(v),
                _ => r is None,
            },
    {
        if let Data::Amount(v) = self {
            return Some(v);
        }
        None
    }

    /// A reference to the inventory, if this is one; what is written
    /// through it is stored.
    pub fn as_inventory_mut(&mut self) -> (r: Option<&mut Inventory>)
        ensures
            match *old(self) {
                Data::Inventory(v) => r is Some && *r->0 == v && *final(self) == Data::Inventory(*final(r->0)),
                _ => r is None && *final(self) == *old(self),
            },
    {
        if let Data::Inventory(v) = self {
            return Some(v);
        }
        None
    }

    /// A reference to the coordinate, if this is one; what is written through it
    /// is stored.
    pub fn as_coord_mut(&mut self) -> (r: Option<&mut TileCoord>)
        ensures
            match *old(self) {
                Data::Coord(v) => r is Some && *r->0 == v && *final(self) == Data::Coord(*final(r->0)),
                _ => r is None && *final(self) == *old(self),
            },
    {
        if let Data::Coord(v) = self {
            return Some(v);
        }
        None
    }

    /// A reference to the flag, if this is one; what is written through it
    /// is stored.
    pub fn as_bool_mut(&mut self) -> (r: Option<&mut bool>)
        ensures
            match *old(self) {
                Data::Bool(v) => r is Some && *r->0 == v && *final(self) == Data::Bool(*final(r->0)),
                _ => r is None && *final(self) == *old(self),
            },
    {
        if let Data::Bool(v) = self {
            return Some(v);
        }
        None
    }

    /// A reference to the list of coordinates, if this is one; what is written through it
    /// is stored.
    pub fn as_vec_coord_mut(&mut self) -> (r: Option<&mut Vec<TileCoord>>)
        ensures
            match *old(self) {
                Data::VecCoord(v) => r is Some && *r->0 == v && *final(self) == Data::VecCoord(*final(r->0)),
                _ => r is None && *final(self) == *old(self),
            },
    {
        if let Data::VecCoord(v) = self {
            return Some(v);
        }
        None
    }

    /// A reference to the id, if this is one; what is written through it
    /// is stored.
    pub fn as_id_mut(&mut self) -> (r: Option<&mut Id>)
        ensures
            match *old(self) {
                Data::Id(v) => r is Some && *r->0 == v && *final(self) == Data::Id(*final(r->0)),
                _ => r is None && *final(self) == *old(self),
            },
    {
        if let Data::Id(v) = self {
            return Some(v);
        }
        None
    }

    /// A reference to the list of ids, if this is one; what is written through it
    /// is stored.
    pub fn as_vec_id_mut(&mut self) -> (r: Option<&mut Vec<Id>>)
        ensures
            match *old(self) {
                Data::VecId(v) => r is Some && *r->0 == v && *final(self) == Data::VecId(*final(r->0)),
                _ => r is None && *final(self) == *old(self),
            },
    {
        if let Data::VecId(v) = self {
            return Some(v);
        }
        None
    }

    /// A reference to the amount, if this is one; what is written through it
    /// is stored.
    pub fn as_amount_mut(&mut self) -> (r: Option<&mut ItemAmount>)
        ensures
            match *old(self) {
                Data::Amount(v) => r is Some && *r->0 == v && *final(self) == Data::Amount(*final(r->0)),
                _ => r is None && *final(self) == *old(self),
            },
    {
        if let Data::Amount(v) = self {
            return Some(v);
        }
        None
    }
}

/// The data a tile entity keeps, by key.
pub type DataMap = BTreeMap<Id, Data>;

/// The content of a data map.
pub open spec fn view_data(m: Map<Id, Data>) -> Map<Id, DataView> {
    m.map_values(|d: Data| d@)
}

/// The coordinate stored under `k`, if the value there is one.
pub open spec fn coord_of(m: Map<Id, Data>, k: Id) -> Option<TileCoord> {
    if m.contains_key(k) {
        match m[k] {
            Data::Coord(c) => Some(c),
            _ => None,
        }
    } else {
        None
    }
}

/// The id stored under `k`, if the value there is one.
pub open spec fn id_of(m: Map<Id, Data>, k: Id) -> Option<Id> {
    if m.contains_key(k) {
        match m[k] {
            Data::Id(v) => Some(v),
            _ => None,
        }
    } else {
        None
    }
}

/// The amount stored under `k`, if the value there is one.
pub open spec fn amount_at(m: Map<Id, Data>, k: Id) -> Option<ItemAmount> {
    if m.contains_key(k) {
        match m[k] {
            Data::Amount(v) => Some(v),
            _ => None,
        }
    } else {
        None
    }
}

/// The content of the inventory stored under `k`, if the value there is one.
pub open spec fn inventory_at(m: Map<Id, Data>, k: Id) -> Option<Map<Id, ItemAmount>> {
    if m.contains_key(k) {
        match m[k] {
            Data::Inventory(v) => Some(v@),
            _ => None,
        }
    } else {
        None
    }
}

/// The coordinate stored under `k`, if the value there is one.
pub fn get_coord(data: &DataMap, k: Id) -> (r: Option<TileCoord>)
    ensures
        r == coord_of(data@, k),
{
    match data.get(&k) {
        Some(Data::Coord(c)) => Some(*c),
        _ => None,
    }
}

/// The id stored under `k`, if the value there is one.
pub fn get_id(data: &DataMap, k: Id) -> (r: Option<Id>)
    ensures
        r == id_of(data@, k),
{
    match data.get(&k) {
        Some(Data::Id(v)) => Some(*v),
        _ => None,
    }
}

/// The amount stored under `k`, if the value there is one.
pub fn get_amount(data: &DataMap, k: Id) -> (r: Option<ItemAmount>)
    ensures
        r == amount_at(data@, k),
{
    match data.get(&k) {
        Some(Data::Amount(v)) => Some(*v),
        _ => None,
    }
}

/// Whether every component of a coordinate is at most 2^28 in absolute
/// value, so that sums and negations of two of them cannot overflow.
pub open spec fn coord_ok(c: TileCoord) -> bool {
    small(c@, 0x10000000)
}

/// The state of a tile entity: the actor that lets a tile take, process and
/// output items.
pub struct TileEntityState {
    /// The id of the tile.
    pub id: Id,
    /// The position of the tile.
    pub coord: TileCoord,
    /// The modifier the tile was placed with.
    pub tile_modifier: TileModifier,
    /// The data the tile keeps.
    pub data: DataMap,
    /// Whether the last adjacency check found the tiles the script needs.
    pub adjacent_fulfilled: bool,
}

/// Whether the coordinate stored under `key`, if any, can be added to the
/// tile's position and negated without overflow.
pub open spec fn offset_ok(s: &TileEntityState, key: Id) -> bool {
    coord_of(s.data@, key) matches Some(t) ==> coord_ok(s.coord) && coord_ok(t)
}

impl TileEntityState {
    /// A new tile entity with no data, whose adjacency is not yet fulfilled.
    pub fn new(id: Id, coord: TileCoord, tile_modifier: TileModifier) -> (s: TileEntityState)
        ensures
            s.id == id,
            s.coord == coord,
            s.tile_modifier == tile_modifier,
            s.data@ == Map::<Id, Data>::empty(),
            !s.adjacent_fulfilled,
    {
        TileEntityState { id, coord, tile_modifier, data: BTreeMap::new(), adjacent_fulfilled: false }
    }
}

/// Where a machine sends its output, and what.
pub struct MachineTickResult {
    /// The position of the receiving tile.
    pub target: TileCoord,
    /// The direction the items come from, as the receiver sees it.
    pub direction: TileCoord,
    /// The items sent.
    pub item_stack: ItemStack,
}

/// The index of the first input that the buffer does not hold enough of,
/// searching from `i`; the number of inputs when it holds enough of each.
pub open spec fn first_short(buf: Map<Id, ItemAmount>, ins: Seq<ItemStack>, i: int) -> int
    decreases ins.len() - i,
{
    if i >= ins.len() {
        ins.len() as int
    } else if amount_of(buf, ins[i].item.id) < ins[i].amount {
        i
    } else {
        first_short(buf, ins, i + 1)
    }
}

/// The buffer with a zero entry added for each of `ids` that it has no
/// entry for.
pub open spec fn zero_fill(buf: Map<Id, ItemAmount>, ids: Seq<Id>) -> Map<Id, ItemAmount> {
    Map::new(|k: Id| buf.contains_key(k) || ids.contains(k), |k: Id| amount_of(buf, k))
}

/// The item ids of the first `n` of `ins`.
pub open spec fn input_ids(ins: Seq<ItemStack>, n: int) -> Seq<Id> {
    ins.take(n).map_values(|s: ItemStack| s.item.id)
}

/// The number of inputs a machine looks at before it stops: up to and
/// including the first it lacks, or all of them.
pub open spec fn examined(buf: Map<Id, ItemAmount>, ins: Seq<ItemStack>) -> int {
    let k = first_short(buf, ins, 0);
    if k < ins.len() { k + 1 } else { ins.len() as int }
}

/// The script a tile's data selects, if the data holds a script id that the
/// registry knows.
pub open spec fn script_of(reg: Map<Id, Script>, m: Map<Id, Data>, k: Id) -> Option<Script> {
    match id_of(m, k) {
        Some(id) => if reg.contains_key(id) { Some(reg[id]) } else { None },
        None => None,
    }
}

/// Whether `a` and `b` hold the same data, except possibly under `k`.
pub open spec fn same_except(a: Map<Id, Data>, b: Map<Id, Data>, k: Id) -> bool {
    &&& a.dom() =~= b.dom()
    &&& forall|j: Id| #[trigger] a.contains_key(j) && j != k ==> a[j] == b[j]
}

/// The relation `machine_tick` establishes between the tile before and
/// after, and its result.
pub open spec fn machine_tick_spec(
    reg: &Registry,
    old_s: &TileEntityState,
    new_s: &TileEntityState,
    r: Option<MachineTickResult>,
) -> bool {
    let m = old_s.data@;
    let ids = reg.data_ids;
    let target = coord_of(m, ids.target);
    let script = script_of(reg.scripts@, m, ids.script);
    let sent = |out: ItemStack| {
        &&& r matches Some(res)
        &&& res.target@ == plus(old_s.coord@, target->0@)
        &&& res.direction@ == (-target->0@.0, -target->0@.1, -target->0@.2)
        &&& res.item_stack == out
    };
    &&& new_s.id == old_s.id
    &&& new_s.coord == old_s.coord
    &&& new_s.tile_modifier == old_s.tile_modifier
    &&& new_s.adjacent_fulfilled == old_s.adjacent_fulfilled
    &&& if target is None || script is None || script->0.instructions.output is None {
        r is None && new_s.data@ == m
    } else {
        let out = script->0.instructions.output->0;
        match script->0.instructions.inputs {
            None => sent(out) && new_s.data@ == m,
            Some(ins) => match inventory_at(m, ids.buffer) {
                None => r is None && new_s.data@ == m,
                Some(buf) => {
                    &&& same_except(new_s.data@, m, ids.buffer)
                    &&& inventory_at(new_s.data@, ids.buffer) == Some(
                        zero_fill(buf, input_ids(ins@, examined(buf, ins@))),
                    )
                    &&& if first_short(buf, ins@, 0) < ins@.len() {
                        r is None
                    } else {
                        sent(out)
                    }
                },
            },
        }
    }
}

impl TileEntityState {
    /// A machine's tick: when it has a target and a script with an output,
    /// and its buffer holds every input, it sends the output to the target.
    /// Looking at the buffer records a zero for each input it had no entry
    /// for, up to the first input it lacks.
    pub fn machine_tick(&mut self, reg: &Registry) -> (r: Option<MachineTickResult>)
        requires
            offset_ok(&*old(self), reg.data_ids.target),
        ensures
            machine_tick_spec(reg, &*old(self), &*final(self), r),
    {
        let ids = reg.data_ids;
        let target = match get_coord(&self.data, ids.target) {
            Some(t) => t,
            None => {
                return None;
            },
        };
        let script = match get_id(&self.data, ids.script) {
            Some(id) => match reg.script(id) {
                Some(s) => s,
                None => {
                    return None;
                },
            },
            None => {
                return None;
            },
        };
        let output = match script.instructions.output {
            Some(o) => o,
            None => {
                return None;
            },
        };
        proof {
            assert(self.data@.contains_key(ids.target));
            assert(coord_ok(target));
            target.lemma_cube();
            self.coord.lemma_cube();
        }
        let coord = self.coord.add(target);
        let direction = target.neg();
        match &script.instructions.inputs {
            None => Some(MachineTickResult { target: coord, direction, item_stack: output }),
            Some(inputs) => {
                let ghost m = self.data@;
                let taken = self.data.remove(&ids.buffer);
                match taken {
                    Some(Data::Inventory(mut buffer)) => {
                        let ghost buf = buffer@;
                        let mut i: usize = 0;
                        let mut short = false;
                        while i < inputs.len()
                            invariant_except_break
                                !short,
                                first_short(buf, inputs@, 0) == first_short(buf, inputs@, i as int),
                            invariant
                                0 <= i <= inputs.len(),
                                buffer@ == zero_fill(buf, input_ids(inputs@, i as int)),
                            ensures
                                short ==> first_short(buf, inputs@, 0) == i - 1 && i >= 1,
                                !short ==> i == inputs.len() && first_short(buf, inputs@, 0) == inputs@.len(),
                            decreases inputs.len() - i,
                        {
                            let input = inputs[i];
                            let ghost before = buffer@;
                            let stored = buffer.get(input.item.id);
                            proof {
                                let prev = input_ids(inputs@, i as int);
                                let next = input_ids(inputs@, i + 1);
                                assert(next =~= prev.push(input.item.id));
                                assert(stored == amount_of(buf, input.item.id));
                                assert forall|k: Id| #[trigger] next.contains(k) <==> (prev.contains(k) || k == input.item.id) by {
                                    if k == input.item.id {
                                        assert(next[prev.len() as int] == k);
                                    }
                                    if prev.contains(k) {
                                        let j = choose|j: int| 0 <= j < prev.len() && prev[j] == k;
                                        assert(next[j] == k);
                                    }
                                    if next.contains(k) && k != input.item.id {
                                        let j = choose|j: int| 0 <= j < next.len() && next[j] == k;
                                        assert(prev[j] == k);
                                    }
                                }
                                assert(buffer@ =~= zero_fill(buf, next));
                            }
                            i = i + 1;
                            if stored < input.amount {
                                short = true;
                                assert(first_short(buf, inputs@, (i - 1) as int) == i - 1);
                                break;
                            }
                            assert(first_short(buf, inputs@, (i - 1) as int) == first_short(buf, inputs@, i as int));
                        }
                        proof {
                            assert(buffer@ == zero_fill(buf, input_ids(inputs@, examined(buf, inputs@))));
                        }
                        self.data.insert(ids.buffer, Data::Inventory(buffer));
                        proof {
                            assert(same_except(self.data@, m, ids.buffer));
                        }
                        if short {
                            None
                        } else {
                            Some(MachineTickResult { target: coord, direction, item_stack: output })
                        }
                    },
                    Some(other) => {
                        self.data.insert(ids.buffer, other);
                        assert(self.data@ =~= m);
                        None
                    },
                    None => {
                        assert(self.data@ =~= m);
                        None
                    },
                }
            },
        }
    }
}

/// The index of the first of `ins` whose item `id` matches, searching from
/// `i`; the number of inputs when none does.
pub open spec fn first_match(tags: Map<Id, Vec<Id>>, id: Id, ins: Seq<ItemStack>, i: int) -> int
    decreases ins.len() - i,
{
    if i >= ins.len() {
        ins.len() as int
    } else if spec_id_match(tags, id, ins[i].item.id) {
        i
    } else {
        first_match(tags, id, ins, i + 1)
    }
}

/// The buffer a machine keeps, once it was created if absent: its content,
/// or `None` when the value under the buffer key is not an inventory.
pub open spec fn buffer_or_empty(m: Map<Id, Data>, k: Id) -> Option<Map<Id, ItemAmount>> {
    if m.contains_key(k) {
        inventory_at(m, k)
    } else {
        Some(Map::empty())
    }
}

/// Whether adding `stack` to a machine's buffer cannot overflow.
pub open spec fn machine_transaction_fits(reg: &Registry, m: Map<Id, Data>, stack: ItemStack) -> bool {
    match script_of(reg.scripts@, m, reg.data_ids.script) {
        Some(script) => match (script.instructions.inputs, buffer_or_empty(m, reg.data_ids.buffer)) {
            (Some(ins), Some(buf)) => {
                let k = first_match(reg.tags@, stack.item.id, ins@, 0);
                k < ins@.len() && amount_of(buf, stack.item.id) < ins@[k].amount ==> amount_of(
                    buf,
                    stack.item.id,
                ) + stack.amount <= ItemAmount::MAX
            },
            _ => true,
        },
        None => true,
    }
}

/// The relation `machine_transaction` establishes.
pub open spec fn machine_transaction_spec(
    reg: &Registry,
    old_s: &TileEntityState,
    new_s: &TileEntityState,
    stack: ItemStack,
    r: Result<ItemStack, TransactionError>,
) -> bool {
    let m = old_s.data@;
    let ids = reg.data_ids;
    &&& new_s.id == old_s.id
    &&& new_s.coord == old_s.coord
    &&& new_s.tile_modifier == old_s.tile_modifier
    &&& new_s.adjacent_fulfilled == old_s.adjacent_fulfilled
    &&& if !m.contains_key(ids.script) {
        r == Err::<ItemStack, TransactionError>(TransactionError::NoScript) && new_s.data@ == m
    } else {
        match script_of(reg.scripts@, m, ids.script) {
            Some(script) if script.instructions.inputs is Some => {
                let ins = script.instructions.inputs->0@;
                match buffer_or_empty(m, ids.buffer) {
                    None => r == Err::<ItemStack, TransactionError>(TransactionError::NotSuitable)
                        && new_s.data@ == m,
                    Some(buf) => {
                        let k = first_match(reg.tags@, stack.item.id, ins, 0);
                        let id = stack.item.id;
                        let amount = amount_of(buf, id);
                        &&& same_except(new_s.data@, m.insert(ids.buffer, new_s.data@[ids.buffer]), ids.buffer)
                        &&& new_s.data@.contains_key(ids.buffer)
                        &&& if k >= ins.len() {
                            &&& r == Err::<ItemStack, TransactionError>(TransactionError::NotSuitable)
                            &&& inventory_at(new_s.data@, ids.buffer) == Some(buf)
                        } else if amount >= ins[k].amount {
                            &&& r == Err::<ItemStack, TransactionError>(TransactionError::Full)
                            &&& inventory_at(new_s.data@, ids.buffer) == Some(buf.insert(id, amount))
                        } else {
                            let sum = amount + stack.amount;
                            let stored = if sum > ins[k].amount { ins[k].amount as int } else { sum };
                            &&& r == Ok::<ItemStack, TransactionError>(ins[k])
                            &&& inventory_at(new_s.data@, ids.buffer) == Some(buf.insert(id, stored as ItemAmount))
                        }
                    },
                }
            },
            _ => r == Err::<ItemStack, TransactionError>(TransactionError::NotSuitable) && new_s.data@ == m,
        }
    }
}

impl TileEntityState {
    /// A machine receiving `item_stack`: it takes the items into its buffer
    /// when they match one of its script's inputs and the buffer is not yet
    /// full of that input, keeping at most the input's amount, and answers
    /// with the matched input. Errors: no script at all; no inputs or no
    /// matching input (not suitable); the buffer already full of it.
    pub fn machine_transaction(&mut self, reg: &Registry, item_stack: ItemStack) -> (r: Result<
        ItemStack,
        TransactionError,
    >)
        requires
            machine_transaction_fits(reg, old(self).data@, item_stack),
        ensures
            machine_transaction_spec(reg, &*old(self), &*final(self), item_stack, r),
    {
        let ids = reg.data_ids;
        let ghost m = self.data@;
        if !self.data.contains_key(&ids.script) {
            return Err(TransactionError::NoScript);
        }
        let inputs = match get_id(&self.data, ids.script) {
            Some(id) => match reg.script(id) {
                Some(script) => match &script.instructions.inputs {
                    Some(inputs) => inputs,
                    None => {
                        return Err(TransactionError::NotSuitable);
                    },
                },
                None => {
                    return Err(TransactionError::NotSuitable);
                },
            },
            None => {
                return Err(TransactionError::NotSuitable);
            },
        };
        let mut buffer = match self.data.remove(&ids.buffer) {
            Some(Data::Inventory(buffer)) => buffer,
            Some(other) => {
                self.data.insert(ids.buffer, other);
                assert(self.data@ =~= m);
                return Err(TransactionError::NotSuitable);
            },
            None => Inventory::new(),
        };
        let ghost buf = buffer@;
        let mut i: usize = 0;
        while i < inputs.len()
            invariant_except_break
                first_match(reg.tags@, item_stack.item.id, inputs@, 0) == first_match(
                    reg.tags@,
                    item_stack.item.id,
                    inputs@,
                    i as int,
                ),
            invariant
                0 <= i <= inputs.len(),
            ensures
                i < inputs.len() ==> first_match(reg.tags@, item_stack.item.id, inputs@, 0) == i,
                i >= inputs.len() ==> first_match(reg.tags@, item_stack.item.id, inputs@, 0) == inputs@.len(),
            decreases inputs.len() - i,
        {
            if reg.id_match(item_stack.item.id, inputs[i].item.id) {
                break;
            }
            i = i + 1;
        }
        if i >= inputs.len() {
            self.data.insert(ids.buffer, Data::Inventory(buffer));
            return Err(TransactionError::NotSuitable);
        }
        let matched = inputs[i];
        let amount = buffer.get_mut(item_stack.item.id);
        if *amount >= matched.amount {
            self.data.insert(ids.buffer, Data::Inventory(buffer));
            return Err(TransactionError::Full);
        }
        *amount = *amount + item_stack.amount;
        if *amount > matched.amount {
            *amount = matched.amount;
        }
        self.data.insert(ids.buffer, Data::Inventory(buffer));
        Ok(matched)
    }
}

/// Which actor a forwarded transaction names as its source.
#[derive(Debug, Clone, Copy, PartialEq, Eq, Structural)]
pub enum TransactionSource {
    /// The tile entity that sends the message.
    Myself,
    /// The source of the transaction being handled.
    Forwarded,
}

/// A message a tile entity handles.
pub enum TileEntityMsg {
    /// One game tick.
    Tick { tick_count: TickUnit },
    /// Items offered to the tile, coming from `direction`.
    Transaction {
        tick_count: TickUnit,
        item_stack: ItemStack,
        source_type: Option<Id>,
        source_id: Id,
        direction: TileCoord,
        source: TransactionSource,
    },
    /// The answer to a transaction this tile started.
    TransactionResult { result: Result<ItemStack, TransactionError> },
    /// A request to send stored items to `coord`, arriving from `direction`.
    ExtractRequest { tick_count: TickUnit, coord: TileCoord, direction: TileCoord },
    /// Whether the tiles the script needs are next to the tile.
    AdjacentState { fulfilled: bool },
    /// Stores a value under a key.
    SetData(Id, Data),
    /// Removes the value under a key.
    RemoveData(Id),
    /// Asks for the whole data map.
    GetData,
    /// Asks for the value under a key.
    GetDataValue(Id),
    /// Asks for the tile's position and the value under a key.
    GetDataValueAndCoord(Id),
}

/// What a tile entity asks its surroundings to do after handling a message.
pub enum TileAction {
    /// Send `msg` to the tile at `coord`, through the game.
    SendToTile { coord: TileCoord, msg: TileEntityMsg },
    /// Answer the source of the transaction being handled.
    ReplyToSource { result: Result<ItemStack, TransactionError> },
    /// Ask the game whether the tiles around `coord` satisfy a script's
    /// adjacency requirement `adjacent`.
    CheckAdjacent { adjacent: Option<Id>, coord: TileCoord, self_coord: TileCoord },
    /// Answer with the whole data map.
    ReplyData(DataMap),
    /// Answer with the value under the requested key.
    ReplyDataValue(Option<Data>),
    /// Answer with the tile's position and the value under the requested key.
    ReplyDataValueAndCoord(TileCoord, Option<Data>),
}

/// Picks a random number for the splitter, from
/// `rand::thread_rng().next_u32()`.
///
/// Trusted: nothing is stated of the number; it is random.
#[verifier::external_body]
fn random() -> u32 {
    rand::RngCore::next_u32(&mut rand::thread_rng())
}

/// The negation of a cube coordinate.
pub open spec fn minus(c: (int, int, int)) -> (int, int, int) {
    (-c.0, -c.1, -c.2)
}

/// Whether `a` is the message `Transaction` with the given contents, sent to
/// the tile at `coord`.
pub open spec fn is_transaction_to(
    a: TileAction,
    coord: (int, int, int),
    tick_count: TickUnit,
    item_stack: ItemStack,
    source_type: Option<Id>,
    source_id: Id,
    direction: (int, int, int),
    source: TransactionSource,
) -> bool {
    match a {
        TileAction::SendToTile { coord: c, msg: TileEntityMsg::Transaction { tick_count: t, item_stack: i, source_type: st, source_id: si, direction: d, source: so } } => {
            &&& c@ == coord
            &&& t == tick_count
            &&& i == item_stack
            &&& st == source_type
            &&& si == source_id
            &&& d@ == direction
            &&& so == source
        },
        _ => false,
    }
}

/// Whether `a` is the message `ExtractRequest` with the given contents, sent
/// to the tile at `to`.
pub open spec fn is_extract_to(
    a: TileAction,
    to: (int, int, int),
    tick_count: TickUnit,
    coord: (int, int, int),
    direction: (int, int, int),
) -> bool {
    match a {
        TileAction::SendToTile { coord: c, msg: TileEntityMsg::ExtractRequest { tick_count: t, coord: k, direction: d } } => {
            &&& c@ == to
            &&& t == tick_count
            &&& k@ == coord
            &&& d@ == direction
        },
        _ => false,
    }
}

/// The three directions a splitter knows for a modifier: the two it splits
/// between, and the third; `None` for other modifiers.
pub open spec fn splitter_dirs(modifier: TileModifier) -> Option<((int, int, int), (int, int, int), (int, int, int))> {
    if modifier == 0 {
        Some(((1, -1, 0), (0, 1, -1), (-1, 0, 1)))
    } else if modifier == 1 {
        Some(((0, -1, 1), (-1, 1, 0), (1, 0, -1)))
    } else {
        None
    }
}

/// The two directions a splitter may send to, given where the items came
/// from: the two of its three directions other than that one (or the
/// first two when it is none of them).
pub open spec fn splitter_choices(
    dirs: ((int, int, int), (int, int, int), (int, int, int)),
    from: (int, int, int),
) -> ((int, int, int), (int, int, int)) {
    let (a, b, c) = dirs;
    if from == a {
        (b, c)
    } else if from == b {
        (a, c)
    } else {
        (a, b)
    }
}

/// The direction a splitter sends to for the random number `rnd`.
pub open spec fn splitter_target(
    dirs: ((int, int, int), (int, int, int), (int, int, int)),
    from: (int, int, int),
    rnd: u32,
) -> (int, int, int) {
    let (first, second) = splitter_choices(dirs, from);
    if rnd % 2 == 0 { first } else { second }
}

/// The storage a storage tile keeps: the registered item stored under the
/// storage key and the limit stored under the amount key.
pub open spec fn storage_of(reg: &Registry, m: Map<Id, Data>) -> Option<(Item, ItemAmount)> {
    match (id_of(m, reg.data_ids.storage), amount_at(m, reg.data_ids.amount)) {
        (Some(id), Some(amount)) => if reg.items@.contains_key(id) {
            Some((reg.items@[id], amount))
        } else {
            None
        },
        _ => None,
    }
}

/// What a storage tile does with offered items: `Some((kept, reply))` when
/// it stores this item, where `kept` is the amount it then holds; `None`
/// when the items are not suitable for it.
pub open spec fn storage_accepts(
    reg: &Registry,
    m: Map<Id, Data>,
    stack: ItemStack,
) -> Option<(ItemAmount, Result<ItemStack, TransactionError>)> {
    match storage_of(reg, m) {
        Some((item, amount)) => if stack.item == item {
            let buf = buffer_or_empty(m, reg.data_ids.buffer)->0;
            let stored0 = amount_of(buf, item.id);
            let stored = if stored0 > amount { amount } else { stored0 };
            if stored == amount {
                Some((stored, Err(TransactionError::Full)))
            } else {
                let room = (amount - stored) as ItemAmount;
                let inserting = if stack.amount < room { stack.amount } else { room };
                Some(((stored + inserting) as ItemAmount, Ok(ItemStack { item, amount: inserting })))
            }
        } else {
            None
        },
        None => None,
    }
}

impl TileEntityState {
    /// A storage tile receiving `item_stack`.
    fn storage_transaction(&mut self, reg: &Registry, item_stack: ItemStack) -> (r: Option<Result<ItemStack, TransactionError>>)
        requires
            storage_of(reg, old(self).data@) matches Some((item, _)) && item_stack.item == item
                ==> buffer_or_empty(old(self).data@, reg.data_ids.buffer) is Some,
        ensures
            final(self).id == old(self).id,
            final(self).coord == old(self).coord,
            final(self).tile_modifier == old(self).tile_modifier,
            final(self).adjacent_fulfilled == old(self).adjacent_fulfilled,
            match storage_accepts(reg, old(self).data@, item_stack) {
                Some((kept, reply)) => {
                    &&& r == Some(reply)
                    &&& same_except(final(self).data@, old(self).data@.insert(reg.data_ids.buffer, final(self).data@[reg.data_ids.buffer]), reg.data_ids.buffer)
                    &&& final(self).data@.contains_key(reg.data_ids.buffer)
                    &&& inventory_at(final(self).data@, reg.data_ids.buffer) == Some(
                        buffer_or_empty(old(self).data@, reg.data_ids.buffer)->0.insert(item_stack.item.id, kept),
                    )
                },
                None => r is None && final(self).data@ == old(self).data@,
            },
    {
        let ids = reg.data_ids;
        let item = match get_id(&self.data, ids.storage) {
            Some(id) => match reg.item(id) {
                Some(item) => item,
                None => {
                    return None;
                },
            },
            None => {
                return None;
            },
        };
        let amount = match get_amount(&self.data, ids.amount) {
            Some(a) => a,
            None => {
                return None;
            },
        };
        if item_stack.item != item {
            return None;
        }
        let ghost m = self.data@;
        let mut buffer = match self.data.remove(&ids.buffer) {
            Some(Data::Inventory(buffer)) => buffer,
            Some(other) => {
                assert(false);
                self.data.insert(ids.buffer, other);
                return None;
            },
            None => Inventory::new(),
        };
        let stored = buffer.get_mut(item.id);
        if *stored > amount {
            *stored = amount;
        }
        if *stored == amount {
            self.data.insert(ids.buffer, Data::Inventory(buffer));
            return Some(Err(TransactionError::Full));
        }
        let room = amount - *stored;
        let inserting = if item_stack.amount < room { item_stack.amount } else { room };
        *stored = *stored + inserting;
        self.data.insert(ids.buffer, Data::Inventory(buffer));
        Some(Ok(ItemStack { item, amount: inserting }))
    }
}

/// The buffer after a machine's output was accepted: for each input in
/// turn, its amount is taken out, or the entry set to zero when it holds
/// less.
pub open spec fn consume(buf: Map<Id, ItemAmount>, ins: Seq<ItemStack>) -> Map<Id, ItemAmount>
    decreases ins.len(),
{
    if ins.len() == 0 {
        buf
    } else {
        let b = consume(buf, ins.drop_last());
        let last = ins.last();
        let stored = amount_of(b, last.item.id);
        b.insert(last.item.id, if stored < last.amount { 0 } else { (stored - last.amount) as ItemAmount })
    }
}

/// The inputs of the script a machine's data selects, if it has any.
pub open spec fn machine_inputs(reg: &Registry, m: Map<Id, Data>) -> Option<Seq<ItemStack>> {
    match script_of(reg.scripts@, m, reg.data_ids.script) {
        Some(script) => match script.instructions.inputs {
            Some(ins) => Some(ins@),
            None => None,
        },
        None => None,
    }
}

/// The type of the tile registered under `id`.
pub open spec fn tile_type_of(reg: &Registry, id: Id) -> Option<Id> {
    reg.tiles@[id].tile_type
}

/// Whether the tile's own type and data allow handling `TransactionResult`
/// without a panic: an accepted machine output needs the buffer.
pub open spec fn transaction_result_ok(reg: &Registry, s: &TileEntityState, result: Result<ItemStack, TransactionError>) -> bool {
    &&& reg.tiles@.contains_key(s.id)
    &&& (result is Ok && tile_type_of(reg, s.id) == Some(reg.tile_ids.machine) && machine_inputs(reg, s.data@) is Some)
        ==> inventory_at(s.data@, reg.data_ids.buffer) is Some
}

/// The relation `transaction_result` establishes between the tile before
/// and after.
pub open spec fn transaction_result_spec(reg: &Registry, old_s: &TileEntityState, new_s: &TileEntityState, result: Result<ItemStack, TransactionError>) -> bool {
    &&& new_s.id == old_s.id
    &&& new_s.coord == old_s.coord
    &&& new_s.tile_modifier == old_s.tile_modifier
    &&& new_s.adjacent_fulfilled == old_s.adjacent_fulfilled
    &&& ({
            let m = old_s.data@;
            let b = reg.data_ids.buffer;
            let tt = tile_type_of(reg, old_s.id);
            if result is Ok && tt == Some(reg.tile_ids.machine) {
                if machine_inputs(reg, m) is Some {
                    &&& same_except(new_s.data@, m, b)
                    &&& inventory_at(new_s.data@, b) == Some(consume(inventory_at(m, b)->0, machine_inputs(reg, m)->0))
                } else {
                    new_s.data@ == m
                }
            } else if result is Ok && tt == Some(reg.tile_ids.storage) && inventory_at(m, b) is Some {
                let t = result->Ok_0;
                let buf = inventory_at(m, b)->0;
                &&& same_except(new_s.data@, m, b)
                &&& inventory_at(new_s.data@, b) == Some(
                    if buf.contains_key(t.item.id) && buf[t.item.id] > 0 {
                        buf.insert(t.item.id, (buf[t.item.id] - if t.amount < buf[t.item.id] { t.amount } else { buf[t.item.id] }) as ItemAmount)
                    } else {
                        buf
                    },
                )
            } else {
                new_s.data@ == m
            }
        })
}

impl TileEntityState {
    /// Handles the answer to a transaction this tile started. When the
    /// items were accepted, a machine takes its inputs out of its buffer and
    /// a storage tile takes the transferred items out of its buffer.
    pub fn transaction_result(&mut self, reg: &Registry, result: Result<ItemStack, TransactionError>)
        requires
            transaction_result_ok(reg, &*old(self), result),
        ensures
            transaction_result_spec(reg, &*old(self), &*final(self), result),

    {
        let transferred = match result {
            Ok(t) => t,
            Err(_) => {
                return;
            },
        };
        let ids = reg.data_ids;
        let tile_type = reg.tile(self.id).unwrap().tile_type;
        let ghost m = self.data@;
        if tile_type == Some(reg.tile_ids.machine) {
            let inputs = match get_id(&self.data, ids.script) {
                Some(id) => match reg.script(id) {
                    Some(script) => match &script.instructions.inputs {
                        Some(inputs) => inputs,
                        None => {
                            return;
                        },
                    },
                    None => {
                        return;
                    },
                },
                None => {
                    return;
                },
            };
            let mut buffer = match self.data.remove(&ids.buffer) {
                Some(Data::Inventory(buffer)) => buffer,
                Some(other) => {
                    assert(false);
                    self.data.insert(ids.buffer, other);
                    return;
                },
                None => {
                    assert(false);
                    return;
                },
            };
            let ghost buf = buffer@;
            let mut i: usize = 0;
            while i < inputs.len()
                invariant
                    0 <= i <= inputs.len(),
                    buffer@ == consume(buf, inputs@.take(i as int)),
                decreases inputs.len() - i,
            {
                let stack = inputs[i];
                let stored = buffer.get_mut(stack.item.id);
                if *stored < stack.amount {
                    *stored = 0;
                } else {
                    *stored = *stored - stack.amount;
                }
                proof {
                    assert(inputs@.take(i + 1).drop_last() =~= inputs@.take(i as int));
                }
                i = i + 1;
            }
            assert(inputs@.take(inputs.len() as int) =~= inputs@);
            self.data.insert(ids.buffer, Data::Inventory(buffer));
            return;
        }
        if tile_type == Some(reg.tile_ids.storage) {
            match self.data.remove(&ids.buffer) {
                Some(Data::Inventory(mut buffer)) => {
                    buffer.take(transferred.item.id, transferred.amount);
                    self.data.insert(ids.buffer, Data::Inventory(buffer));
                },
                Some(other) => {
                    self.data.insert(ids.buffer, other);
                    assert(self.data@ =~= m);
                },
                None => {
                    assert(self.data@ =~= m);
                },
            }
        }
    }
}

/// Whether `a` answers the source of the transaction with `r`.
pub open spec fn is_reply(a: TileAction, r: Result<ItemStack, TransactionError>) -> bool {
    a matches TileAction::ReplyToSource { result } && result == r
}

/// The relation `extract_request` establishes between the tile before and after,
/// and the actions it asks for.
pub open spec fn extract_request_spec(reg: &Registry, old_s: &TileEntityState, new_s: &TileEntityState, tick_count: TickUnit, coord: TileCoord, direction: TileCoord, acts: Seq<TileAction>) -> bool {
    &&& new_s.id == old_s.id
    &&& new_s.coord == old_s.coord
    &&& new_s.tile_modifier == old_s.tile_modifier
    &&& new_s.adjacent_fulfilled == old_s.adjacent_fulfilled
    &&& ({
            let m = old_s.data@;
            let b = reg.data_ids.buffer;
            let tt = tile_type_of(reg, old_s.id);
            let stores = tt == Some(reg.tile_ids.storage) && storage_of(reg, m) is Some && inventory_at(m, b) is Some;
            let (item, limit) = storage_of(reg, m)->0;
            let stored = amount_of(inventory_at(m, b)->0, item.id);
            let extracting = if stored < limit { stored } else { limit };
            let e: int = if stores && extracting > 0 { 1 } else { 0 };
            let target = coord_of(m, reg.data_ids.target);
            let n: int = if old_s.id == reg.tile_ids.master_node && target is Some { 1 } else { 0 };
            &&& if stores {
                &&& same_except(new_s.data@, m, b)
                &&& inventory_at(new_s.data@, b) == Some(inventory_at(m, b)->0.insert(item.id, stored))
            } else {
                new_s.data@ == m
            }
            &&& acts.len() == e + n
            &&& e == 1 ==> is_transaction_to(
                acts[0],
                coord@,
                tick_count,
                ItemStack { item, amount: extracting },
                tt,
                old_s.id,
                direction@,
                TransactionSource::Myself,
            )
            &&& n == 1 ==> is_extract_to(acts[e], plus(old_s.coord@, target->0@), tick_count, coord@, direction@)
        })
}

/// The relation `tick` establishes between the tile before and after,
/// and the actions it asks for.
pub open spec fn tick_spec(reg: &Registry, old_s: &TileEntityState, new_s: &TileEntityState, tick_count: TickUnit, acts: Seq<TileAction>) -> bool {
    &&& ({
            let m = old_s.data@;
            let tt = tile_type_of(reg, old_s.id);
            let machine = tt == Some(reg.tile_ids.machine);
            let script = id_of(m, reg.data_ids.script);
            let c: int = if machine && tick_count % 10 == 0 && script_of(reg.scripts@, m, reg.data_ids.script) is Some { 1 } else { 0 };
            let stop = machine && !old_s.adjacent_fulfilled;
            let target = coord_of(m, reg.data_ids.target);
            let link = coord_of(m, reg.data_ids.link);
            let n: int = if !stop && old_s.id == reg.tile_ids.node && target is Some && link is Some { 1 } else { 0 };
            &&& c == 1 ==> acts[0] == TileAction::CheckAdjacent {
                adjacent: script_of(reg.scripts@, m, reg.data_ids.script)->0.adjacent,
                coord: old_s.coord,
                self_coord: old_s.coord,
            }
            &&& if machine && !stop {
                exists|res: Option<MachineTickResult>| {
                    &&& #[trigger] machine_tick_spec(reg, &*old_s, &*new_s, res)
                    &&& {
                        let t: int = if res is Some { 1 } else { 0 };
                        &&& acts.len() == c + t + n
                        &&& t == 1 ==> is_transaction_to(acts[c], res->0.target@, tick_count, res->0.item_stack, tt, old_s.id, res->0.direction@, TransactionSource::Myself)
                    }
                }
            } else {
                &&& new_s.data@ == m
                &&& new_s.id == old_s.id
                &&& new_s.coord == old_s.coord
                &&& new_s.tile_modifier == old_s.tile_modifier
                &&& new_s.adjacent_fulfilled == old_s.adjacent_fulfilled
                &&& acts.len() == c + n
            }
            &&& n == 1 ==> is_extract_to(
                acts[acts.len() - 1],
                plus(old_s.coord@, link->0@),
                tick_count,
                plus(old_s.coord@, target->0@),
                minus(target->0@),
            )
        })
}

impl TileEntityState {
    /// Handles a request to send stored items to `coord`. A storage tile
    /// holding some of its item sends up to its limit of it there (recording
    /// a zero entry when it held none); a master node passes the request on
    /// to its target.
    pub fn extract_request(
        &mut self,
        reg: &Registry,
        tick_count: TickUnit,
        coord: TileCoord,
        direction: TileCoord,
    ) -> (acts: Vec<TileAction>)
        requires
            extract_ok(reg, &*old(self)),
        ensures
            extract_request_spec(reg, &*old(self), &*final(self), tick_count, coord, direction, acts@),

    {
        let ids = reg.data_ids;
        let tile_type = reg.tile(self.id).unwrap().tile_type;
        let mut acts: Vec<TileAction> = Vec::new();
        let ghost m = self.data@;
        if tile_type == Some(reg.tile_ids.storage) {
            let storage = match get_id(&self.data, ids.storage) {
                Some(id) => reg.item(id),
                None => None,
            };
            let limit = get_amount(&self.data, ids.amount);
            if let (Some(item), Some(limit)) = (storage, limit) {
                match self.data.remove(&ids.buffer) {
                    Some(Data::Inventory(mut buffer)) => {
                        let stored = buffer.get(item.id);
                        self.data.insert(ids.buffer, Data::Inventory(buffer));
                        let extracting = if stored < limit { stored } else { limit };
                        if extracting > 0 {
                            acts.push(
                                TileAction::SendToTile {
                                    coord,
                                    msg: TileEntityMsg::Transaction {
                                        tick_count,
                                        item_stack: ItemStack { item, amount: extracting },
                                        source_type: tile_type,
                                        source_id: self.id,
                                        direction,
                                        source: TransactionSource::Myself,
                                    },
                                },
                            );
                        }
                    },
                    Some(other) => {
                        self.data.insert(ids.buffer, other);
                        assert(self.data@ =~= m);
                    },
                    None => {
                        assert(self.data@ =~= m);
                    },
                }
            }
        }
        if self.id == reg.tile_ids.master_node {
            if let Some(target) = get_coord(&self.data, ids.target) {
                proof {
                    assert(m.contains_key(ids.target));
                    assert(coord_ok(target));
                    target.lemma_cube();
                    self.coord.lemma_cube();
                }
                let to = self.coord.add(target);
                acts.push(TileAction::SendToTile { coord: to, msg: TileEntityMsg::ExtractRequest { tick_count, coord, direction } });
            }
        }
        acts
    }

    /// Handles a game tick. A machine asks every tenth tick for its
    /// adjacency check; once its adjacency is fulfilled, it runs its script
    /// (see `machine_tick`) and sends the output to its target. A node asks
    /// the tile at its link to send its items to the node's target.
    pub fn tick(&mut self, reg: &Registry, tick_count: TickUnit) -> (acts: Vec<TileAction>)
        requires
            tick_ok(reg, &*old(self)),
        ensures
            tick_spec(reg, &*old(self), &*final(self), tick_count, acts@),

    {
        let ids = reg.data_ids;
        let tile_type = reg.tile(self.id).unwrap().tile_type;
        let mut acts: Vec<TileAction> = Vec::new();
        let ghost old_self = *self;
        let ghost mut res: Option<MachineTickResult> = None;
        if tile_type == Some(reg.tile_ids.machine) {
            if tick_count % 10 == 0 {
                if let Some(script) = get_id(&self.data, ids.script) {
                    if let Some(sc) = reg.script(script) {
                        acts.push(TileAction::CheckAdjacent { adjacent: sc.adjacent, coord: self.coord, self_coord: self.coord });
                    }
                }
            }
            if !self.adjacent_fulfilled {
                return acts;
            }
            let r = self.machine_tick(reg);
            proof {
                res = r;
            }
            if let Some(MachineTickResult { target, direction, item_stack }) = r {
                acts.push(
                    TileAction::SendToTile {
                        coord: target,
                        msg: TileEntityMsg::Transaction {
                            tick_count,
                            item_stack,
                            source_type: tile_type,
                            source_id: self.id,
                            direction,
                            source: TransactionSource::Myself,
                        },
                    },
                );
            }
        }
        if self.id == reg.tile_ids.node {
            let target = get_coord(&self.data, ids.target);
            let link = get_coord(&self.data, ids.link);
            if let (Some(target), Some(link)) = (target, link) {
                proof {
                    assert(self.data@.contains_key(ids.target));
                    assert(self.data@.contains_key(ids.link));
                    target.lemma_cube();
                    link.lemma_cube();
                    self.coord.lemma_cube();
                }
                let to = self.coord.add(link);
                let from = self.coord.add(target);
                let back = target.neg();
                acts.push(TileAction::SendToTile { coord: to, msg: TileEntityMsg::ExtractRequest { tick_count, coord: from, direction: back } });
            }
        }
        proof {
            if tile_type == Some(reg.tile_ids.machine) {
                assert(machine_tick_spec(reg, &old_self, &*self, res));
            }
        }
        acts
    }
}

/// The item of a storage setting.
pub open spec fn stored_item(p: (Item, ItemAmount)) -> Item {
    p.0
}

/// Whether a tick cannot panic or overflow: the tile is registered, and
/// the coordinates a machine or a node adds to its position fit.
pub open spec fn tick_ok(reg: &Registry, s: &TileEntityState) -> bool {
    &&& reg.tiles@.contains_key(s.id)
    &&& tile_type_of(reg, s.id) == Some(reg.tile_ids.machine) ==> offset_ok(s, reg.data_ids.target)
    &&& s.id == reg.tile_ids.node ==> offset_ok(s, reg.data_ids.target) && offset_ok(s, reg.data_ids.link)
}

/// Whether an extract request cannot panic or overflow: the tile is
/// registered, and a master node's target fits.
pub open spec fn extract_ok(reg: &Registry, s: &TileEntityState) -> bool {
    &&& reg.tiles@.contains_key(s.id)
    &&& s.id == reg.tile_ids.master_node ==> offset_ok(s, reg.data_ids.target)
}

/// Whether handling a `Transaction` of `stack` cannot panic or overflow.
pub open spec fn transaction_ok(reg: &Registry, s: &TileEntityState, stack: ItemStack) -> bool {
    &&& reg.tiles@.contains_key(s.id)
    &&& s.id == reg.tile_ids.merger ==> offset_ok(s, reg.data_ids.target)
    &&& s.id == reg.tile_ids.splitter ==> small(s.coord@, 0x7ffffffe)
    &&& tile_type_of(reg, s.id) == Some(reg.tile_ids.machine) ==> machine_transaction_fits(reg, s.data@, stack)
    &&& (tile_type_of(reg, s.id) == Some(reg.tile_ids.storage) && storage_of(reg, s.data@) is Some
        && stack.item == stored_item(storage_of(reg, s.data@)->0)) ==> buffer_or_empty(s.data@, reg.data_ids.buffer) is Some
}

/// The relation `transaction` establishes between the tile before and after,
/// and the actions it asks for.
pub open spec fn transaction_spec(reg: &Registry, old_s: &TileEntityState, new_s: &TileEntityState, tick_count: TickUnit, item_stack: ItemStack, direction: TileCoord, rnd: u32, acts: Seq<TileAction>) -> bool {
    &&& new_s.id == old_s.id
    &&& new_s.coord == old_s.coord
    &&& new_s.tile_modifier == old_s.tile_modifier
    &&& new_s.adjacent_fulfilled == old_s.adjacent_fulfilled
    &&& exists|mid: TileEntityState| #[trigger] transaction_via(reg, old_s, &mid, new_s, tick_count, item_stack, direction, rnd, acts)
}

/// The steps of a transaction, where `mid` is the tile after a machine's
/// step (the tile itself when it is no machine): a void tile accepts the
/// items; a machine takes them (see `machine_transaction`); a storage tile
/// then stores its item up to its limit, and otherwise answers that the
/// items are not suitable; unless the storage tile stored them, a merger
/// passes them on to its target and a splitter in one of its other two
/// directions.
pub open spec fn transaction_via(
    reg: &Registry,
    old_s: &TileEntityState,
    mid: &TileEntityState,
    new_s: &TileEntityState,
    tick_count: TickUnit,
    item_stack: ItemStack,
    direction: TileCoord,
    rnd: u32,
    acts: Seq<TileAction>,
) -> bool {
    let m = mid.data@;
    let id = old_s.id;
    let tt = tile_type_of(reg, id);
    let v: int = if id == reg.tile_ids.void { 1 } else { 0 };
    let mach: int = if tt == Some(reg.tile_ids.machine) { 1 } else { 0 };
    let sto: int = if tt == Some(reg.tile_ids.storage) { 1 } else { 0 };
    let early = sto == 1 && storage_accepts(reg, m, item_stack) is Some;
    let target = coord_of(new_s.data@, reg.data_ids.target);
    let merg: int = if !early && id == reg.tile_ids.merger && target is Some { 1 } else { 0 };
    let dirs = splitter_dirs(old_s.tile_modifier);
    let spl: int = if !early && id == reg.tile_ids.splitter && dirs is Some { 1 } else { 0 };
    let i1 = v;
    let i2 = i1 + mach;
    let i3 = i2 + sto;
    let i4 = i3 + merg;
    &&& acts.len() == i4 + spl
    &&& v == 1 ==> is_reply(acts[0], Ok(item_stack))
    &&& mach == 1 ==> (acts[i1] is ReplyToSource && machine_transaction_spec(
        reg,
        &*old_s,
        &*mid,
        item_stack,
        acts[i1]->ReplyToSource_result,
    ))
    &&& mach == 0 ==> m == old_s.data@
    &&& sto == 1 ==> match storage_accepts(reg, m, item_stack) {
        Some((kept, reply)) => {
            &&& is_reply(acts[i2], reply)
            &&& same_except(new_s.data@, m.insert(reg.data_ids.buffer, new_s.data@[reg.data_ids.buffer]), reg.data_ids.buffer)
            &&& inventory_at(new_s.data@, reg.data_ids.buffer) == Some(
                buffer_or_empty(m, reg.data_ids.buffer)->0.insert(item_stack.item.id, kept),
            )
        },
        None => is_reply(acts[i2], Err(TransactionError::NotSuitable)) && new_s.data@ == m,
    }
    &&& sto == 0 ==> new_s.data@ == m
    &&& merg == 1 ==> is_transaction_to(
        acts[i3],
        plus(old_s.coord@, target->0@),
        tick_count,
        item_stack,
        Some(reg.tile_ids.transfer),
        id,
        minus(target->0@),
        TransactionSource::Forwarded,
    )
    &&& spl == 1 ==> {
        let t = splitter_target(dirs->0, direction@, rnd);
        is_transaction_to(
            acts[i4],
            plus(old_s.coord@, t),
            tick_count,
            item_stack,
            Some(reg.tile_ids.transfer),
            id,
            minus(t),
            TransactionSource::Forwarded,
        )
    }
}

impl TileEntityState {
    /// Handles items offered to the tile. A void tile accepts everything; a
    /// machine takes matching inputs (see `machine_transaction`); a storage
    /// tile stores its item up to its limit, and otherwise answers that the
    /// items are not suitable; a merger passes the items on to its target;
    /// a splitter passes them on in one of its two directions other than the
    /// one they came from, picked by `rnd`.
    pub fn transaction(
        &mut self,
        reg: &Registry,
        tick_count: TickUnit,
        item_stack: ItemStack,
        direction: TileCoord,
        rnd: u32,
    ) -> (acts: Vec<TileAction>)
        requires
            transaction_ok(reg, &*old(self), item_stack),
        ensures
            transaction_spec(reg, &*old(self), &*final(self), tick_count, item_stack, direction, rnd, acts@),

    {
        let ids = reg.data_ids;
        let tile_type = reg.tile(self.id).unwrap().tile_type;
        let mut acts: Vec<TileAction> = Vec::new();
        let ghost start = *self;
        if self.id == reg.tile_ids.void {
            acts.push(TileAction::ReplyToSource { result: Ok(item_stack) });
        }
        if tile_type == Some(reg.tile_ids.machine) {
            let result = self.machine_transaction(reg, item_stack);
            acts.push(TileAction::ReplyToSource { result });
        }
        let ghost mid = *self;
        proof {
            if tile_type == Some(reg.tile_ids.machine) && mid.data@ != start.data@ {
                assert(mid.data@.contains_key(ids.buffer));
            }
        }
        if tile_type == Some(reg.tile_ids.storage) {
            match self.storage_transaction(reg, item_stack) {
                Some(result) => {
                    acts.push(TileAction::ReplyToSource { result });
                    assert(transaction_via(reg, &start, &mid, &*self, tick_count, item_stack, direction, rnd, acts@));
                    return acts;
                },
                None => {
                    acts.push(TileAction::ReplyToSource { result: Err(TransactionError::NotSuitable) });
                },
            }
        }
        if self.id == reg.tile_ids.merger {
            if let Some(target) = get_coord(&self.data, ids.target) {
                proof {
                    assert(self.data@.contains_key(ids.target));
                    target.lemma_cube();
                    self.coord.lemma_cube();
                }
                let to = self.coord.add(target);
                let back = target.neg();
                acts.push(
                    TileAction::SendToTile {
                        coord: to,
                        msg: TileEntityMsg::Transaction {
                            tick_count,
                            item_stack,
                            source_type: Some(reg.tile_ids.transfer),
                            source_id: self.id,
                            direction: back,
                            source: TransactionSource::Forwarded,
                        },
                    },
                );
            }
        }
        if self.id == reg.tile_ids.splitter {
            let dirs = if self.tile_modifier == 0 {
                Some((TileCoord::top_left(), TileCoord::bottom_left(), TileCoord::right()))
            } else if self.tile_modifier == 1 {
                Some((TileCoord::top_right(), TileCoord::bottom_right(), TileCoord::left()))
            } else {
                None
            };
            if let Some((a, b, c)) = dirs {
                let (first, second) = if direction == a {
                    (b, c)
                } else if direction == b {
                    (a, c)
                } else {
                    (a, b)
                };
                let target = if rnd % 2 == 0 { first } else { second };
                proof {
                    direction.lemma_view_injective(a);
                    direction.lemma_view_injective(b);
                    assert(target@ == splitter_target(splitter_dirs(self.tile_modifier)->0, direction@, rnd));
                    target.lemma_cube();
                    self.coord.lemma_cube();
                    direction.lemma_cube();
                    a.lemma_cube();
                    b.lemma_cube();
                }
                let to = self.coord.add(target);
                let back = target.neg();
                acts.push(
                    TileAction::SendToTile {
                        coord: to,
                        msg: TileEntityMsg::Transaction {
                            tick_count,
                            item_stack,
                            source_type: Some(reg.tile_ids.transfer),
                            source_id: self.id,
                            direction: back,
                            source: TransactionSource::Forwarded,
                        },
                    },
                );
            }
        }
        assert(transaction_via(reg, &start, &mid, &*self, tick_count, item_stack, direction, rnd, acts@));
        acts
    }
}

/// Whether handling `msg` cannot panic or overflow.
pub open spec fn handle_ok(reg: &Registry, s: &TileEntityState, msg: TileEntityMsg) -> bool {
    match msg {
        TileEntityMsg::Tick { .. } => tick_ok(reg, s),
        TileEntityMsg::Transaction { item_stack, .. } => transaction_ok(reg, s, item_stack),
        TileEntityMsg::TransactionResult { result } => transaction_result_ok(reg, s, result),
        TileEntityMsg::ExtractRequest { .. } => extract_ok(reg, s),
        _ => true,
    }
}

/// Whether every component of `c` is at most `bound` in absolute value.
fn within(c: TileCoord, bound: i32) -> (b: bool)
    requires
        bound >= 0,
    ensures
        b == small(c@, bound as int),
{
    let q = c.q();
    let r = c.r();
    let s = c.s();
    -bound <= q && q <= bound && -bound <= r && r <= bound && -bound <= s && s <= bound
}

/// The index of the first input `id` matches, from `i` on.
fn find_match(reg: &Registry, id: Id, ins: &Vec<ItemStack>) -> (k: usize)
    ensures
        k as int == first_match(reg.tags@, id, ins@, 0),
{
    let mut i: usize = 0;
    while i < ins.len()
        invariant_except_break
            first_match(reg.tags@, id, ins@, 0) == first_match(reg.tags@, id, ins@, i as int),
        invariant
            0 <= i <= ins.len(),
        ensures
            i < ins.len() ==> first_match(reg.tags@, id, ins@, 0) == i,
            i >= ins.len() ==> first_match(reg.tags@, id, ins@, 0) == ins@.len(),
        decreases ins.len() - i,
    {
        if reg.id_match(id, ins[i].item.id) {
            break;
        }
        i = i + 1;
    }
    i
}

impl TileEntityState {
    /// Whether the coordinate stored under `key`, if any, can be added to
    /// the tile's position and negated.
    fn offset_fits(&self, key: Id) -> (b: bool)
        ensures
            b == offset_ok(self, key),
    {
        match get_coord(&self.data, key) {
            Some(t) => within(self.coord, 0x10000000) && within(t, 0x10000000),
            None => true,
        }
    }

    /// Whether adding `stack` to this machine's buffer cannot overflow.
    fn machine_fits(&self, reg: &Registry, stack: ItemStack) -> (b: bool)
        ensures
            b == machine_transaction_fits(reg, self.data@, stack),
    {
        let ids = reg.data_ids;
        let script = match get_id(&self.data, ids.script) {
            Some(id) => match reg.script(id) {
                Some(sc) => sc,
                None => {
                    return true;
                },
            },
            None => {
                return true;
            },
        };
        let ins = match &script.instructions.inputs {
            Some(ins) => ins,
            None => {
                return true;
            },
        };
        let stored = match self.data.get(&ids.buffer) {
            Some(Data::Inventory(buf)) => match buf.try_get(stack.item.id) {
                Some(v) => v,
                None => 0,
            },
            Some(_) => {
                return true;
            },
            None => 0,
        };
        let k = find_match(reg, stack.item.id, ins);
        if k < ins.len() && stored < ins[k].amount {
            stored as u64 + stack.amount as u64 <= ItemAmount::MAX as u64
        } else {
            true
        }
    }

    /// Whether handling `msg` cannot panic or overflow: exactly `handle_ok`.
    pub fn can_handle(&self, reg: &Registry, msg: &TileEntityMsg) -> (b: bool)
        ensures
            b == handle_ok(reg, self, *msg),
    {
        let ids = reg.data_ids;
        let tile_type = match reg.tile(self.id) {
            Some(t) => t.tile_type,
            None => {
                return match msg {
                    TileEntityMsg::Tick { .. } | TileEntityMsg::Transaction { .. }
                    | TileEntityMsg::TransactionResult { .. } | TileEntityMsg::ExtractRequest { .. } => false,
                    _ => true,
                };
            },
        };
        match msg {
            TileEntityMsg::Tick { .. } => {
                (tile_type != Some(reg.tile_ids.machine) || self.offset_fits(ids.target))
                    && (self.id != reg.tile_ids.node || (self.offset_fits(ids.target) && self.offset_fits(ids.link)))
            },
            TileEntityMsg::ExtractRequest { .. } => self.id != reg.tile_ids.master_node || self.offset_fits(ids.target),
            TileEntityMsg::Transaction { item_stack, .. } => {
                let stack = *item_stack;
                if self.id == reg.tile_ids.merger && !self.offset_fits(ids.target) {
                    return false;
                }
                if self.id == reg.tile_ids.splitter && !within(self.coord, 0x7ffffffe) {
                    return false;
                }
                if tile_type == Some(reg.tile_ids.machine) && !self.machine_fits(reg, stack) {
                    return false;
                }
                if tile_type == Some(reg.tile_ids.storage) {
                    let item = match get_id(&self.data, ids.storage) {
                        Some(id) => reg.item(id),
                        None => None,
                    };
                    if let (Some(item), Some(_)) = (item, get_amount(&self.data, ids.amount)) {
                        if stack.item == item {
                            return match self.data.get(&ids.buffer) {
                                Some(Data::Inventory(_)) | None => true,
                                Some(_) => false,
                            };
                        }
                    }
                }
                true
            },
            TileEntityMsg::TransactionResult { result } => {
                if result.is_ok() && tile_type == Some(reg.tile_ids.machine) {
                    let has_inputs = match get_id(&self.data, ids.script) {
                        Some(id) => match reg.script(id) {
                            Some(sc) => sc.instructions.inputs.is_some(),
                            None => false,
                        },
                        None => false,
                    };
                    if has_inputs {
                        return match self.data.get(&ids.buffer) {
                            Some(Data::Inventory(_)) => true,
                            _ => false,
                        };
                    }
                }
                true
            },
            _ => true,
        }
    }
}

/// The relation `handle` establishes between the tile before and after, and
/// the actions it asks for, when the splitter's random pick is `rnd`.
pub open spec fn handle_spec(
    reg: &Registry,
    old_s: &TileEntityState,
    new_s: &TileEntityState,
    msg: TileEntityMsg,
    rnd: u32,
    acts: Seq<TileAction>,
) -> bool {
    let unchanged_but_data = {
        &&& new_s.id == old_s.id
        &&& new_s.coord == old_s.coord
        &&& new_s.tile_modifier == old_s.tile_modifier
    };
    match msg {
        TileEntityMsg::Tick { tick_count } => tick_spec(reg, old_s, new_s, tick_count, acts),
        TileEntityMsg::Transaction { tick_count, item_stack, direction, .. } => transaction_spec(
            reg,
            old_s,
            new_s,
            tick_count,
            item_stack,
            direction,
            rnd,
            acts,
        ),
        TileEntityMsg::TransactionResult { result } => transaction_result_spec(reg, old_s, new_s, result)
            && acts.len() == 0,
        TileEntityMsg::ExtractRequest { tick_count, coord, direction } => extract_request_spec(
            reg,
            old_s,
            new_s,
            tick_count,
            coord,
            direction,
            acts,
        ),
        TileEntityMsg::AdjacentState { fulfilled } => {
            &&& unchanged_but_data
            &&& new_s.data@ == old_s.data@
            &&& new_s.adjacent_fulfilled == fulfilled
            &&& acts.len() == 0
        },
        TileEntityMsg::SetData(key, value) => {
            &&& unchanged_but_data
            &&& new_s.adjacent_fulfilled == old_s.adjacent_fulfilled
            &&& new_s.data@ == old_s.data@.insert(key, value)
            &&& acts.len() == 0
        },
        TileEntityMsg::RemoveData(key) => {
            &&& unchanged_but_data
            &&& new_s.adjacent_fulfilled == old_s.adjacent_fulfilled
            &&& new_s.data@ == old_s.data@.remove(key)
            &&& acts.len() == 0
        },
        TileEntityMsg::GetData => {
            &&& unchanged_but_data
            &&& new_s.adjacent_fulfilled == old_s.adjacent_fulfilled
            &&& new_s.data@ == old_s.data@
            &&& acts.len() == 1
            &&& acts[0] matches TileAction::ReplyData(d) && d@ == old_s.data@
        },
        TileEntityMsg::GetDataValue(key) => {
            &&& unchanged_but_data
            &&& new_s.adjacent_fulfilled == old_s.adjacent_fulfilled
            &&& new_s.data@ == old_s.data@
            &&& acts.len() == 1
            &&& acts[0] matches TileAction::ReplyDataValue(v) && match v {
                Some(d) => old_s.data@.contains_key(key) && d@ == old_s.data@[key]@,
                None => !old_s.data@.contains_key(key),
            }
        },
        TileEntityMsg::GetDataValueAndCoord(key) => {
            &&& unchanged_but_data
            &&& new_s.adjacent_fulfilled == old_s.adjacent_fulfilled
            &&& new_s.data@ == old_s.data@
            &&& acts.len() == 1
            &&& acts[0] matches TileAction::ReplyDataValueAndCoord(c, v) && c == old_s.coord && match v {
                Some(d) => old_s.data@.contains_key(key) && d@ == old_s.data@[key]@,
                None => !old_s.data@.contains_key(key),
            }
        },
    }
}

impl TileEntityState {
    /// Handles one message, with `rnd` as the splitter's random pick, and
    /// returns what the surroundings are asked to do.
    pub fn handle_with(&mut self, reg: &Registry, msg: TileEntityMsg, rnd: u32) -> (acts: Vec<TileAction>)
        requires
            handle_ok(reg, &*old(self), msg),
        ensures
            handle_spec(reg, &*old(self), &*final(self), msg, rnd, acts@),
    {
        match msg {
            TileEntityMsg::Tick { tick_count } => self.tick(reg, tick_count),
            TileEntityMsg::Transaction { tick_count, item_stack, direction, .. } => self.transaction(
                reg,
                tick_count,
                item_stack,
                direction,
                rnd,
            ),
            TileEntityMsg::TransactionResult { result } => {
                self.transaction_result(reg, result);
                Vec::new()
            },
            TileEntityMsg::ExtractRequest { tick_count, coord, direction } => self.extract_request(
                reg,
                tick_count,
                coord,
                direction,
            ),
            TileEntityMsg::AdjacentState { fulfilled } => {
                self.adjacent_fulfilled = fulfilled;
                Vec::new()
            },
            TileEntityMsg::SetData(key, value) => {
                self.data.insert(key, value);
                Vec::new()
            },
            TileEntityMsg::RemoveData(key) => {
                self.data.remove(&key);
                Vec::new()
            },
            TileEntityMsg::GetData => {
                let mut acts = Vec::new();
                acts.push(TileAction::ReplyData(self.data.clone()));
                acts
            },
            TileEntityMsg::GetDataValue(key) => {
                let value = match self.data.get(&key) {
                    Some(d) => Some(d.clone()),
                    None => None,
                };
                let mut acts = Vec::new();
                acts.push(TileAction::ReplyDataValue(value));
                acts
            },
            TileEntityMsg::GetDataValueAndCoord(key) => {
                let value = match self.data.get(&key) {
                    Some(d) => Some(d.clone()),
                    None => None,
                };
                let mut acts = Vec::new();
                acts.push(TileAction::ReplyDataValueAndCoord(self.coord, value));
                acts
            },
        }
    }

    /// Handles one message and returns what the surroundings are asked to
    /// do. A splitter picks its direction at random.
    pub fn handle(&mut self, reg: &Registry, msg: TileEntityMsg) -> (acts: Vec<TileAction>)
        requires
            handle_ok(reg, &*old(self), msg),
        ensures
            exists|rnd: u32| handle_spec(reg, &*old(self), &*final(self), msg, rnd, acts@),
    {
        let rnd = random();
        self.handle_with(reg, msg, rnd)
    }

    /// Handles the failure to send a message to another tile through the
    /// game: the tile forgets its target.
    pub fn send_failed(&mut self, reg: &Registry)
        requires
        ensures
            final(self).id == old(self).id,
            final(self).coord == old(self).coord,
            final(self).tile_modifier == old(self).tile_modifier,
            final(self).adjacent_fulfilled == old(self).adjacent_fulfilled,
            final(self).data@ == old(self).data@.remove(reg.data_ids.target),
    {
        self.data.remove(&reg.data_ids.target);
    }
}

/// A splitter never sends items back the way they came: when they arrive
/// from one of its three directions, it sends them on in one of the other
/// two, whatever the random pick.
pub proof fn law_splitter_never_sends_back(modifier: TileModifier, from: (int, int, int), rnd: u32)
    requires
        splitter_dirs(modifier) matches Some((a, b, c)) && (from == a || from == b || from == c),
    ensures
        ({
            let (a, b, c) = splitter_dirs(modifier)->0;
            let t = splitter_target(splitter_dirs(modifier)->0, from, rnd);
            &&& t != from
            &&& t == a || t == b || t == c
        }),
{
}

/// A storage tile never holds more of its item than its limit, and what it
/// reports as accepted is exactly what it added, never more than offered.
pub proof fn law_storage_within_limit(reg: &Registry, m: Map<Id, Data>, stack: ItemStack)
    requires
        storage_accepts(reg, m, stack) is Some,
    ensures
        ({
            let (kept, reply) = storage_accepts(reg, m, stack)->0;
            let (item, limit) = storage_of(reg, m)->0;
            let stored0 = amount_of(buffer_or_empty(m, reg.data_ids.buffer)->0, item.id);
            let stored = if stored0 > limit { limit } else { stored0 };
            &&& kept <= limit
            &&& match reply {
                Ok(accepted) => {
                    &&& accepted.item == item
                    &&& accepted.amount <= stack.amount
                    &&& kept == stored + accepted.amount
                },
                Err(e) => e == TransactionError::Full && kept == limit,
            }
        }),
{
}

/// A machine never stores more of an input than the input's amount: after
/// an accepted transaction the buffer holds at most the matched amount.
pub proof fn law_machine_buffer_within_input(
    reg: &Registry,
    old_s: &TileEntityState,
    new_s: &TileEntityState,
    stack: ItemStack,
    r: Result<ItemStack, TransactionError>,
)
    requires
        machine_transaction_spec(reg, old_s, new_s, stack, r),
        r is Ok,
    ensures
        ({
            let matched = r->Ok_0;
            &&& inventory_at(new_s.data@, reg.data_ids.buffer) is Some
            &&& amount_of(inventory_at(new_s.data@, reg.data_ids.buffer)->0, stack.item.id) <= matched.amount
        }),
{
}


/// Whether the buffer `buf` holds at least the amount of each of `ins`.
pub open spec fn holds_every_input(buf: Map<Id, ItemAmount>, ins: Seq<ItemStack>) -> bool {
    forall|i: int| 0 <= i < ins.len() ==> amount_of(buf, (#[trigger] ins[i]).item.id) >= ins[i].amount
}

/// When no input from `i` on is short, the buffer holds each of them.
proof fn lemma_none_short(buf: Map<Id, ItemAmount>, ins: Seq<ItemStack>, i: int)
    requires
        0 <= i,
        first_short(buf, ins, i) >= ins.len(),
    ensures
        forall|j: int| i <= j < ins.len() ==> amount_of(buf, (#[trigger] ins[j]).item.id) >= ins[j].amount,
    decreases ins.len() - i,
{
    if i < ins.len() {
        lemma_none_short(buf, ins, i + 1);
    }
}

/// A machine's tick sends its script's output only when its buffer holds
/// at least the amount of every input of the script, and sends it to the
/// tile at its target.
pub proof fn law_machine_tick_needs_every_input(
    reg: &Registry,
    old_s: &TileEntityState,
    new_s: &TileEntityState,
    r: Option<MachineTickResult>,
)
    requires
        machine_tick_spec(reg, old_s, new_s, r),
        r is Some,
    ensures
        ({
            let m = old_s.data@;
            let script = script_of(reg.scripts@, m, reg.data_ids.script)->0;
            &&& script_of(reg.scripts@, m, reg.data_ids.script) is Some
            &&& script.instructions.output == Some(r->0.item_stack)
            &&& coord_of(m, reg.data_ids.target) is Some
            &&& r->0.target@ == plus(old_s.coord@, coord_of(m, reg.data_ids.target)->0@)
            &&& script.instructions.inputs is Some ==> {
                &&& inventory_at(m, reg.data_ids.buffer) is Some
                &&& holds_every_input(inventory_at(m, reg.data_ids.buffer)->0, script.instructions.inputs->0@)
            }
        }),
{
    let m = old_s.data@;
    let script = script_of(reg.scripts@, m, reg.data_ids.script)->0;
    if let Some(ins) = script.instructions.inputs {
        let buf = inventory_at(m, reg.data_ids.buffer)->0;
        lemma_none_short(buf, ins@, 0);
    }
}

/// An accepted machine transaction adds the offered items to what the
/// buffer held of them, up to the matched input's amount: the buffer never
/// loses items, it held less than the input's amount before, and it then
/// holds `min(before + offered, input amount)`.
pub proof fn law_machine_transaction_accumulates(
    reg: &Registry,
    old_s: &TileEntityState,
    new_s: &TileEntityState,
    stack: ItemStack,
    r: Result<ItemStack, TransactionError>,
)
    requires
        machine_transaction_spec(reg, old_s, new_s, stack, r),
        r is Ok,
    ensures
        ({
            let b = reg.data_ids.buffer;
            let matched = r->Ok_0;
            &&& buffer_or_empty(old_s.data@, b) is Some
            &&& inventory_at(new_s.data@, b) is Some
            &&& {
                let before = amount_of(buffer_or_empty(old_s.data@, b)->0, stack.item.id);
                let after = amount_of(inventory_at(new_s.data@, b)->0, stack.item.id);
                &&& before < matched.amount
                &&& before <= after <= matched.amount
                &&& after == (if before + stack.amount <= matched.amount { before + stack.amount } else { matched.amount as int })
            }
        }),
{
}

/// A storage tile answers an extract request with at most what it stores of
/// its item and at most its limit: the one transaction it sends carries its
/// item in the amount `min(stored, limit)`, and it sends one exactly when
/// that amount is not zero.
pub proof fn law_extract_sends_at_most_what_is_stored(
    reg: &Registry,
    old_s: &TileEntityState,
    new_s: &TileEntityState,
    tick_count: TickUnit,
    coord: TileCoord,
    direction: TileCoord,
    acts: Seq<TileAction>,
)
    requires
        extract_request_spec(reg, old_s, new_s, tick_count, coord, direction, acts),
        tile_type_of(reg, old_s.id) == Some(reg.tile_ids.storage),
        storage_of(reg, old_s.data@) is Some,
        inventory_at(old_s.data@, reg.data_ids.buffer) is Some,
    ensures
        ({
            let (item, limit) = storage_of(reg, old_s.data@)->0;
            let stored = amount_of(inventory_at(old_s.data@, reg.data_ids.buffer)->0, item.id);
            &&& forall|i: int| 0 <= i < acts.len() ==> match #[trigger] acts[i] {
                TileAction::SendToTile { coord: c, msg: TileEntityMsg::Transaction { item_stack, .. } } => {
                    &&& i == 0
                    &&& c == coord
                    &&& item_stack.item == item
                    &&& 0 < item_stack.amount
                    &&& item_stack.amount <= stored
                    &&& item_stack.amount <= limit
                    &&& (item_stack.amount == stored || item_stack.amount == limit)
                },
                _ => true,
            }
            &&& (stored > 0 && limit > 0) ==> {
                &&& acts.len() > 0
                &&& acts[0] is SendToTile
                &&& acts[0]->SendToTile_msg is Transaction
                &&& acts[0]->SendToTile_msg->Transaction_item_stack.item == item
            }
        }),
{
    let (item, limit) = storage_of(reg, old_s.data@)->0;
    let stored = amount_of(inventory_at(old_s.data@, reg.data_ids.buffer)->0, item.id);
    let extracting = if stored < limit { stored } else { limit };
    let e: int = if extracting > 0 { 1 } else { 0 };
    assert forall|i: int| 0 <= i < acts.len() implies match #[trigger] acts[i] {
        TileAction::SendToTile { coord: c, msg: TileEntityMsg::Transaction { item_stack, .. } } => {
            &&& i == 0
            &&& c == coord
            &&& item_stack.item == item
            &&& 0 < item_stack.amount
            &&& item_stack.amount <= stored
            &&& item_stack.amount <= limit
            &&& (item_stack.amount == stored || item_stack.amount == limit)
        },
        _ => true,
    } by {
        if i == 0 && e == 1 {
            if let TileAction::SendToTile { coord: c, msg: TileEntityMsg::Transaction { .. } } = acts[i] {
                coord.lemma_view_injective(c);
            }
        }
    }
}

/// A splitter sends items that arrive from one of its three directions on
/// in the other two: the even and the odd random picks give two different
/// directions, neither the one the items came from, and every pick gives
/// the one of its parity.
pub proof fn law_splitter_picks_each_other_direction(modifier: TileModifier, from: (int, int, int), rnd: u32)
    requires
        splitter_dirs(modifier) matches Some((a, b, c)) && (from == a || from == b || from == c),
    ensures
        ({
            let (a, b, c) = splitter_dirs(modifier)->0;
            let d = splitter_dirs(modifier)->0;
            let t0 = splitter_target(d, from, 0);
            let t1 = splitter_target(d, from, 1);
            &&& t0 != t1
            &&& t0 != from && t1 != from
            &&& (t0 == a || t0 == b || t0 == c)
            &&& (t1 == a || t1 == b || t1 == c)
            &&& splitter_target(d, from, rnd) == (if rnd % 2 == 0 { t0 } else { t1 })
        }),
{
}

} // verus!
