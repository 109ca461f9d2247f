use std::collections::BTreeMap;

use automancy::game::item::Item;
use automancy::game::registry::{DataIds, Registry, TileIds};
use automancy::game::tile::coord::TileCoord;
use automancy::game::tile::entity::Data;
use automancy::game::tile::inventory::{Inventory, InventoryRaw};
use automancy::game::tile::raw::{data_from_raw, data_to_raw, intern_data_from_raw, DataRaw};
use automancy::util::id::Interner;

fn registry(items: &[u32]) -> Registry {
    let mut map = BTreeMap::new();
    for id in items {
        map.insert(*id, Item { id: *id });
    }
    Registry {
        none: 0,
        tile_ids: TileIds {
            machine: 1,
            storage: 2,
            void: 3,
            merger: 4,
            splitter: 5,
            node: 6,
            master_node: 7,
            transfer: 8,
        },
        data_ids: DataIds { target: 20, link: 21, script: 22, buffer: 23, storage: 24, amount: 25 },
        tiles: BTreeMap::new(),
        scripts: BTreeMap::new(),
        tags: BTreeMap::new(),
        items: map,
    }
}

fn names(list: &[&str]) -> (Interner, Vec<u32>) {
    let mut interner = Interner::new();
    let ids = list.iter().map(|n| interner.get_or_intern(n.to_string())).collect();
    (interner, ids)
}

fn find<'a>(raw: &'a [(String, DataRaw)], key: &str) -> Option<&'a DataRaw> {
    raw.iter().find(|(k, _)| k == key).map(|(_, v)| v)
}

#[test]
fn data_to_raw_writes_ids_by_name() {
    let (interner, ids) = names(&["target", "script", "smelt", "iron", "list"]);
    let mut data = BTreeMap::new();
    data.insert(ids[0], Data::Coord(TileCoord::new(1, -1)));
    data.insert(ids[1], Data::Id(ids[2]));
    data.insert(ids[4], Data::VecId(vec![ids[3], ids[2]]));
    data.insert(99, Data::Amount(5));
    let raw = data_to_raw(data, &interner);
    assert_eq!(raw.len(), 3);
    assert!(matches!(find(&raw, "target"), Some(DataRaw::Coord(c)) if (c.q(), c.r()) == (1, -1)));
    assert!(matches!(find(&raw, "script"), Some(DataRaw::Id(n)) if n == "smelt"));
    assert!(matches!(find(&raw, "list"), Some(DataRaw::VecId(v)) if v == &vec!["iron".to_string(), "smelt".to_string()]));
}

#[test]
fn data_from_raw_drops_unknown_names() {
    let (interner, ids) = names(&["amount", "flag", "list", "iron"]);
    let raw = vec![
        ("amount".to_string(), DataRaw::Amount(7)),
        ("unknown".to_string(), DataRaw::Bool(true)),
        ("flag".to_string(), DataRaw::Bool(false)),
        ("list".to_string(), DataRaw::VecId(vec!["iron".to_string(), "tin".to_string()])),
    ];
    let data = data_from_raw(raw, &interner, &registry(&[]));
    assert_eq!(data.len(), 3);
    assert!(matches!(data.get(&ids[0]), Some(Data::Amount(7))));
    assert!(matches!(data.get(&ids[1]), Some(Data::Bool(false))));
    assert!(matches!(data.get(&ids[2]), Some(Data::VecId(v)) if v == &vec![ids[3]]));
}

#[test]
fn data_from_raw_later_entry_wins() {
    let (interner, ids) = names(&["amount"]);
    let raw = vec![("amount".to_string(), DataRaw::Amount(1)), ("amount".to_string(), DataRaw::Amount(2))];
    let data = data_from_raw(raw, &interner, &registry(&[]));
    assert!(matches!(data.get(&ids[0]), Some(Data::Amount(2))));
}

#[test]
fn intern_data_from_raw_interns_values_then_keys() {
    let mut interner = Interner::new();
    let raw = vec![
        ("script".to_string(), DataRaw::Id("smelt".to_string())),
        ("list".to_string(), DataRaw::VecId(vec!["iron".to_string(), "smelt".to_string()])),
    ];
    let data = intern_data_from_raw(raw, &mut interner, &registry(&[]));
    assert_eq!(interner.get(&"smelt".to_string()), Some(0));
    assert_eq!(interner.get(&"script".to_string()), Some(1));
    assert_eq!(interner.get(&"iron".to_string()), Some(2));
    assert_eq!(interner.get(&"list".to_string()), Some(3));
    assert!(matches!(data.get(&1), Some(Data::Id(0))));
    assert!(matches!(data.get(&3), Some(Data::VecId(v)) if v == &vec![2, 0]));
}

#[test]
fn data_save_then_load_round_trips() {
    let (interner, ids) = names(&["buffer", "target", "link", "iron", "gold"]);
    let reg = registry(&[ids[3], ids[4]]);
    let mut inv = Inventory::new();
    inv.insert(ids[3], 4);
    inv.insert(ids[4], 0);
    let mut data = BTreeMap::new();
    data.insert(ids[0], Data::Inventory(inv));
    data.insert(ids[1], Data::Coord(TileCoord::new(0, 1)));
    data.insert(ids[2], Data::VecId(vec![ids[3], ids[4]]));
    let raw = data_to_raw(data, &interner);
    let back = data_from_raw(raw, &interner, &reg);
    assert_eq!(back.len(), 3);
    match back.get(&ids[0]) {
        Some(Data::Inventory(i)) => {
            let mut es = i.entries();
            es.sort();
            assert_eq!(es, vec![(ids[3], 4)]);
        },
        _ => panic!("expected the inventory"),
    }
    assert!(matches!(back.get(&ids[1]), Some(Data::Coord(c)) if (c.q(), c.r()) == (0, 1)));
    assert!(matches!(back.get(&ids[2]), Some(Data::VecId(v)) if v == &vec![ids[3], ids[4]]));
}

#[test]
fn inventory_raw_in_data_is_saved_by_name() {
    let (interner, ids) = names(&["buffer", "iron"]);
    let mut inv = Inventory::new();
    inv.insert(ids[1], 6);
    let mut data = BTreeMap::new();
    data.insert(ids[0], Data::Inventory(inv));
    let raw = data_to_raw(data, &interner);
    match find(&raw, "buffer") {
        Some(DataRaw::Inventory(InventoryRaw(entries))) => assert_eq!(entries, &vec![("iron".to_string(), 6)]),
        _ => panic!("expected the saved inventory"),
    }
}
