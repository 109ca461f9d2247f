use std::collections::BTreeMap;

use automancy::game::item::{Item, ItemStack};
use automancy::game::registry::{DataIds, Instructions, Registry, Script, TileDef, TileIds};
use automancy::game::tile::coord::TileCoord;
use automancy::game::tile::entity::{
    get_amount, get_coord, get_id, Data, TileAction, TileEntityMsg, TileEntityState, TransactionError,
    TransactionSource,
};
use automancy::game::tile::inventory::Inventory;

const MACHINE_TILE: u32 = 100;
const STORAGE_TILE: u32 = 101;
const VOID_TILE: u32 = 3;
const MERGER_TILE: u32 = 4;
const SPLITTER_TILE: u32 = 5;
const PLAIN_TILE: u32 = 102;
const SMELT: u32 = 300;
const IRON: u32 = 400;
const GOLD: u32 = 401;

const TARGET: u32 = 20;
const SCRIPT: u32 = 22;
const BUFFER: u32 = 23;
const STORAGE: u32 = 24;
const AMOUNT: u32 = 25;

fn registry() -> Registry {
    let mut tiles = BTreeMap::new();
    tiles.insert(MACHINE_TILE, TileDef { tile_type: Some(1), models: vec![1000] });
    tiles.insert(STORAGE_TILE, TileDef { tile_type: Some(2), models: vec![1001] });
    tiles.insert(VOID_TILE, TileDef { tile_type: None, models: vec![1002] });
    tiles.insert(MERGER_TILE, TileDef { tile_type: None, models: vec![1003] });
    tiles.insert(SPLITTER_TILE, TileDef { tile_type: None, models: vec![1004, 1005] });
    tiles.insert(PLAIN_TILE, TileDef { tile_type: None, models: vec![1006] });
    let mut scripts = BTreeMap::new();
    scripts.insert(
        SMELT,
        Script {
            instructions: Instructions {
                inputs: Some(vec![ItemStack { item: Item { id: IRON }, amount: 2 }]),
                output: Some(ItemStack { item: Item { id: GOLD }, amount: 1 }),
            },
            adjacent: None,
        },
    );
    let mut items = BTreeMap::new();
    items.insert(IRON, Item { id: IRON });
    items.insert(GOLD, Item { id: GOLD });
    Registry {
        none: 0,
        tile_ids: TileIds {
            machine: 1,
            storage: 2,
            void: VOID_TILE,
            merger: MERGER_TILE,
            splitter: SPLITTER_TILE,
            node: 6,
            master_node: 7,
            transfer: 8,
        },
        data_ids: DataIds { target: TARGET, link: 21, script: SCRIPT, buffer: BUFFER, storage: STORAGE, amount: AMOUNT },
        tiles,
        scripts,
        tags: BTreeMap::new(),
        items,
    }
}

fn iron(amount: u32) -> ItemStack {
    ItemStack { item: Item { id: IRON }, amount }
}

fn offer(stack: ItemStack, from: TileCoord) -> TileEntityMsg {
    TileEntityMsg::Transaction {
        tick_count: 4,
        item_stack: stack,
        source_type: None,
        source_id: 77,
        direction: from,
        source: TransactionSource::Myself,
    }
}

fn reply_of(acts: &[TileAction]) -> Result<ItemStack, TransactionError> {
    for a in acts {
        if let TileAction::ReplyToSource { result } = a {
            return *result;
        }
    }
    panic!("no reply");
}

fn buffer_amount(s: &TileEntityState, id: u32) -> Option<u32> {
    match s.data.get(&BUFFER) {
        Some(Data::Inventory(inv)) => inv.try_get(id),
        _ => None,
    }
}

fn machine() -> TileEntityState {
    let mut s = TileEntityState::new(MACHINE_TILE, TileCoord::new(0, 0), 0);
    s.data.insert(SCRIPT, Data::Id(SMELT));
    s.data.insert(TARGET, Data::Coord(TileCoord::new(1, 0)));
    s.data.insert(BUFFER, Data::inventory());
    s
}

fn storage(limit: u32, stored: u32) -> TileEntityState {
    let mut s = TileEntityState::new(STORAGE_TILE, TileCoord::new(2, 2), 0);
    s.data.insert(STORAGE, Data::Id(IRON));
    s.data.insert(AMOUNT, Data::Amount(limit));
    let mut inv = Inventory::new();
    inv.insert(IRON, stored);
    s.data.insert(BUFFER, Data::Inventory(inv));
    s
}

#[test]
fn new_tile_entity_has_no_data() {
    let s = TileEntityState::new(7, TileCoord::new(1, 2), 3);
    assert_eq!(s.id, 7);
    assert_eq!((s.coord.q(), s.coord.r()), (1, 2));
    assert_eq!(s.tile_modifier, 3);
    assert!(s.data.is_empty());
    assert!(!s.adjacent_fulfilled);
}

#[test]
fn data_accessors_pick_their_variant() {
    let mut d = Data::Amount(5);
    assert_eq!(d.as_amount(), Some(&5));
    assert!(d.as_id().is_none());
    assert!(d.as_inventory().is_none());
    *d.as_amount_mut().unwrap() = 9;
    assert_eq!(d.as_amount(), Some(&9));
    assert!(d.as_coord_mut().is_none());
    let mut v = Data::vec_coord();
    v.as_vec_coord_mut().unwrap().push(TileCoord::new(1, 1));
    assert_eq!(v.as_vec_coord().unwrap().len(), 1);
    let mut b = Data::Bool(false);
    *b.as_bool_mut().unwrap() = true;
    assert_eq!(b.as_bool(), Some(&true));
    let mut i = Data::inventory();
    i.as_inventory_mut().unwrap().insert(IRON, 4);
    assert_eq!(i.as_inventory().unwrap().try_get(IRON), Some(4));
    let mut ids = Data::VecId(vec![1]);
    ids.as_vec_id_mut().unwrap().push(2);
    assert_eq!(ids.as_vec_id(), Some(&vec![1, 2]));
    let mut id = Data::Id(3);
    *id.as_id_mut().unwrap() = 4;
    assert_eq!(id.as_id(), Some(&4));
}

#[test]
fn data_map_getters() {
    let mut m = BTreeMap::new();
    m.insert(1, Data::Coord(TileCoord::new(3, 4)));
    m.insert(2, Data::Id(8));
    m.insert(3, Data::Amount(6));
    assert_eq!(get_coord(&m, 1).map(|c| (c.q(), c.r())), Some((3, 4)));
    assert_eq!(get_coord(&m, 2).map(|c| (c.q(), c.r())), None);
    assert_eq!(get_id(&m, 2), Some(8));
    assert_eq!(get_id(&m, 9), None);
    assert_eq!(get_amount(&m, 3), Some(6));
    assert_eq!(get_amount(&m, 1), None);
}

#[test]
fn void_accepts_everything() {
    let reg = registry();
    let mut s = TileEntityState::new(VOID_TILE, TileCoord::new(0, 0), 0);
    let acts = s.handle_with(&reg, offer(iron(9), TileCoord::new(1, 0)), 0);
    assert_eq!(acts.len(), 1);
    assert_eq!(reply_of(&acts), Ok(iron(9)));
}

#[test]
fn machine_takes_up_to_the_input_amount() {
    let reg = registry();
    let mut s = machine();
    let acts = s.handle_with(&reg, offer(iron(5), TileCoord::new(1, 0)), 0);
    assert_eq!(reply_of(&acts), Ok(iron(2)));
    assert_eq!(buffer_amount(&s, IRON), Some(2));
    let acts = s.handle_with(&reg, offer(iron(1), TileCoord::new(1, 0)), 0);
    assert_eq!(reply_of(&acts), Err(TransactionError::Full));
    assert_eq!(buffer_amount(&s, IRON), Some(2));
}

#[test]
fn machine_without_script_refuses() {
    let reg = registry();
    let mut s = TileEntityState::new(MACHINE_TILE, TileCoord::new(0, 0), 0);
    let acts = s.handle_with(&reg, offer(iron(5), TileCoord::new(1, 0)), 0);
    assert_eq!(reply_of(&acts), Err(TransactionError::NoScript));
}

#[test]
fn machine_refuses_items_it_does_not_use() {
    let reg = registry();
    let mut s = machine();
    let gold = ItemStack { item: Item { id: GOLD }, amount: 1 };
    let acts = s.handle_with(&reg, offer(gold, TileCoord::new(1, 0)), 0);
    assert_eq!(reply_of(&acts), Err(TransactionError::NotSuitable));
    assert_eq!(buffer_amount(&s, GOLD), None);
}

#[test]
fn machine_ticks_when_adjacent_is_fulfilled() {
    let reg = registry();
    let mut s = machine();
    let acts = s.handle_with(&reg, TileEntityMsg::Tick { tick_count: 10 }, 0);
    assert_eq!(acts.len(), 1);
    assert!(matches!(acts[0], TileAction::CheckAdjacent { adjacent: None, .. }));

    s.handle_with(&reg, TileEntityMsg::AdjacentState { fulfilled: true }, 0);
    assert!(s.adjacent_fulfilled);
    let acts = s.handle_with(&reg, TileEntityMsg::Tick { tick_count: 11 }, 0);
    assert_eq!(acts.len(), 0);

    s.handle_with(&reg, offer(iron(2), TileCoord::new(1, 0)), 0);
    let acts = s.handle_with(&reg, TileEntityMsg::Tick { tick_count: 11 }, 0);
    assert_eq!(acts.len(), 1);
    match &acts[0] {
        TileAction::SendToTile { coord, msg: TileEntityMsg::Transaction { item_stack, direction, source, .. } } => {
            assert_eq!((coord.q(), coord.r()), (1, 0));
            assert_eq!((direction.q(), direction.r()), (-1, 0));
            assert_eq!(item_stack.item.id, GOLD);
            assert_eq!(*source, TransactionSource::Myself);
        },
        _ => panic!("expected a transaction"),
    }
}

#[test]
fn machine_consumes_inputs_when_output_accepted() {
    let reg = registry();
    let mut s = machine();
    s.handle_with(&reg, offer(iron(2), TileCoord::new(1, 0)), 0);
    let gold = ItemStack { item: Item { id: GOLD }, amount: 1 };
    let acts = s.handle_with(&reg, TileEntityMsg::TransactionResult { result: Ok(gold) }, 0);
    assert!(acts.is_empty());
    assert_eq!(buffer_amount(&s, IRON), Some(0));
}

#[test]
fn storage_stores_up_to_its_limit() {
    let reg = registry();
    let mut s = storage(10, 7);
    let acts = s.handle_with(&reg, offer(iron(5), TileCoord::new(1, 0)), 0);
    assert_eq!(reply_of(&acts), Ok(iron(3)));
    assert_eq!(buffer_amount(&s, IRON), Some(10));
    let acts = s.handle_with(&reg, offer(iron(5), TileCoord::new(1, 0)), 0);
    assert_eq!(reply_of(&acts), Err(TransactionError::Full));
    assert_eq!(buffer_amount(&s, IRON), Some(10));
}

#[test]
fn storage_refuses_other_items() {
    let reg = registry();
    let mut s = storage(10, 0);
    let gold = ItemStack { item: Item { id: GOLD }, amount: 1 };
    let acts = s.handle_with(&reg, offer(gold, TileCoord::new(1, 0)), 0);
    assert_eq!(reply_of(&acts), Err(TransactionError::NotSuitable));
}

#[test]
fn merger_forwards_to_its_target() {
    let reg = registry();
    let mut s = TileEntityState::new(MERGER_TILE, TileCoord::new(5, 5), 0);
    s.data.insert(TARGET, Data::Coord(TileCoord::new(0, 1)));
    let acts = s.handle_with(&reg, offer(iron(3), TileCoord::new(1, 0)), 0);
    assert_eq!(acts.len(), 1);
    match &acts[0] {
        TileAction::SendToTile { coord, msg: TileEntityMsg::Transaction { item_stack, direction, source_type, source_id, source, .. } } => {
            assert_eq!((coord.q(), coord.r()), (5, 6));
            assert_eq!((direction.q(), direction.r()), (0, -1));
            assert_eq!(*item_stack, iron(3));
            assert_eq!(*source_type, Some(8));
            assert_eq!(*source_id, MERGER_TILE);
            assert_eq!(*source, TransactionSource::Forwarded);
        },
        _ => panic!("expected a transaction"),
    }
}

fn splitter_target(rnd: u32, from: TileCoord) -> (i32, i32) {
    let reg = registry();
    let mut s = TileEntityState::new(SPLITTER_TILE, TileCoord::new(0, 0), 0);
    let acts = s.handle_with(&reg, offer(iron(1), from), rnd);
    assert_eq!(acts.len(), 1);
    match &acts[0] {
        TileAction::SendToTile { coord, .. } => (coord.q(), coord.r()),
        _ => panic!("expected a transaction"),
    }
}

#[test]
fn splitter_picks_one_of_the_other_two_directions() {
    let from = TileCoord::new(1, -1);
    assert_eq!(splitter_target(0, from), (0, 1));
    assert_eq!(splitter_target(1, from), (-1, 0));
    for rnd in 0..8 {
        assert_ne!(splitter_target(rnd, from), (1, -1));
    }
}

#[test]
fn plain_tile_ignores_offers() {
    let reg = registry();
    let mut s = TileEntityState::new(PLAIN_TILE, TileCoord::new(0, 0), 0);
    let acts = s.handle_with(&reg, offer(iron(1), TileCoord::new(1, 0)), 0);
    assert!(acts.is_empty());
}

#[test]
fn set_get_and_remove_data() {
    let reg = registry();
    let mut s = TileEntityState::new(PLAIN_TILE, TileCoord::new(4, -2), 0);
    s.handle_with(&reg, TileEntityMsg::SetData(9, Data::Amount(12)), 0);
    let acts = s.handle_with(&reg, TileEntityMsg::GetDataValue(9), 0);
    assert!(matches!(&acts[0], TileAction::ReplyDataValue(Some(Data::Amount(12)))));
    let acts = s.handle_with(&reg, TileEntityMsg::GetDataValueAndCoord(9), 0);
    match &acts[0] {
        TileAction::ReplyDataValueAndCoord(c, Some(Data::Amount(12))) => assert_eq!((c.q(), c.r()), (4, -2)),
        _ => panic!("expected the value and the coordinate"),
    }
    s.handle_with(&reg, TileEntityMsg::RemoveData(9), 0);
    let acts = s.handle_with(&reg, TileEntityMsg::GetDataValue(9), 0);
    assert!(matches!(&acts[0], TileAction::ReplyDataValue(None)));
    let acts = s.handle_with(&reg, TileEntityMsg::GetData, 0);
    assert!(matches!(&acts[0], TileAction::ReplyData(d) if d.is_empty()));
}

#[test]
fn handle_with_random_pick_still_answers() {
    let reg = registry();
    let mut s = TileEntityState::new(SPLITTER_TILE, TileCoord::new(0, 0), 1);
    let acts = s.handle(&reg, offer(iron(1), TileCoord::new(0, -1)));
    assert_eq!(acts.len(), 1);
    match &acts[0] {
        TileAction::SendToTile { coord, .. } => assert_ne!((coord.q(), coord.r()), (0, -1)),
        _ => panic!("expected a transaction"),
    }
}

#[test]
fn far_coordinates_are_refused_only_where_they_are_added() {
    let reg = registry();
    let far = TileCoord::new(i32::MAX, 0);
    let mut s = TileEntityState::new(STORAGE_TILE, far, 0);
    let set = TileEntityMsg::SetData(TARGET, Data::Coord(far));
    assert!(s.can_handle(&reg, &set));
    s.handle_with(&reg, set, 0);
    assert_eq!(get_coord(&s.data, TARGET), Some(far));
    let offered = offer(iron(1), far);
    assert!(s.can_handle(&reg, &offered));

    let mut m = TileEntityState::new(MERGER_TILE, TileCoord::new(0, 0), 0);
    m.handle_with(&reg, TileEntityMsg::SetData(TARGET, Data::Coord(far)), 0);
    assert!(!m.can_handle(&reg, &offer(iron(1), TileCoord::new(1, 0))));
    m.handle_with(&reg, TileEntityMsg::SetData(TARGET, Data::Coord(TileCoord::new(1, 0))), 0);
    assert!(m.can_handle(&reg, &offer(iron(1), TileCoord::new(1, 0))));

    let edge = TileEntityState::new(SPLITTER_TILE, far, 0);
    assert!(!edge.can_handle(&reg, &offer(iron(1), TileCoord::new(1, 0))));
    let unregistered = TileEntityState::new(9999, TileCoord::new(0, 0), 0);
    assert!(!unregistered.can_handle(&reg, &TileEntityMsg::Tick { tick_count: 0 }));
    assert!(unregistered.can_handle(&reg, &TileEntityMsg::GetData));
}

#[test]
fn a_tile_type_that_is_machine_and_storage_runs_both_steps() {
    let mut reg = registry();
    reg.tile_ids.storage = reg.tile_ids.machine;
    let mut s = TileEntityState::new(MACHINE_TILE, TileCoord::new(0, 0), 0);
    s.data.insert(SCRIPT, Data::Id(SMELT));
    s.data.insert(STORAGE, Data::Id(IRON));
    s.data.insert(AMOUNT, Data::Amount(5));
    let msg = offer(iron(1), TileCoord::new(1, 0));
    assert!(s.can_handle(&reg, &msg));
    let acts = s.handle_with(&reg, msg, 0);
    let replies: Vec<Result<ItemStack, TransactionError>> = acts
        .iter()
        .filter_map(|a| match a {
            TileAction::ReplyToSource { result } => Some(*result),
            _ => None,
        })
        .collect();
    assert_eq!(replies.len(), 2);
    assert_eq!(replies[0], Ok(ItemStack { item: Item { id: IRON }, amount: 2 }));
    assert_eq!(replies[1], Ok(iron(1)));
    assert_eq!(buffer_amount(&s, IRON), Some(2));
}
