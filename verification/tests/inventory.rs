use std::collections::BTreeMap;

use automancy::game::item::Item;
use automancy::game::registry::{DataIds, Registry, TileIds};
use automancy::game::tile::inventory::{Inventory, InventoryRaw};
use automancy::util::id::Interner;

fn sorted(inv: &Inventory) -> Vec<(u32, u32)> {
    let mut es = inv.entries();
    es.sort();
    es
}

fn registry_with_items(ids: &[u32]) -> Registry {
    let mut items = BTreeMap::new();
    for id in ids {
        items.insert(*id, Item { id: *id });
    }
    Registry {
        none: 0,
        tile_ids: TileIds {
            machine: 1,
            storage: 2,
            void: 3,
            merger: 4,
            splitter: 5,
            node: 6,
            master_node: 7,
            transfer: 8,
        },
        data_ids: DataIds { target: 20, link: 21, script: 22, buffer: 23, storage: 24, amount: 25 },
        tiles: BTreeMap::new(),
        scripts: BTreeMap::new(),
        tags: BTreeMap::new(),
        items,
    }
}

#[test]
fn inventory_starts_empty() {
    let inv = Inventory::new();
    assert!(inv.entries().is_empty());
    assert_eq!(inv.try_get(7), None);
}

#[test]
fn inventory_get_creates_a_zero_entry() {
    let mut inv = Inventory::new();
    assert_eq!(inv.get(7), 0);
    assert_eq!(inv.try_get(7), Some(0));
    inv.insert(7, 12);
    assert_eq!(inv.get(7), 12);
}

#[test]
fn inventory_get_mut_writes_through() {
    let mut inv = Inventory::new();
    *inv.get_mut(3) += 5;
    *inv.get_mut(3) += 5;
    assert_eq!(inv.try_get(3), Some(10));
}

#[test]
fn inventory_insert_replaces() {
    let mut inv = Inventory::new();
    inv.insert(1, 4);
    inv.insert(1, 9);
    inv.insert(2, 1);
    assert_eq!(sorted(&inv), vec![(1, 9), (2, 1)]);
}

#[test]
fn inventory_take_takes_at_most_what_is_stored() {
    let mut inv = Inventory::new();
    inv.insert(1, 10);
    assert_eq!(inv.take(1, 4), Some(4));
    assert_eq!(inv.try_get(1), Some(6));
    assert_eq!(inv.take(1, 100), Some(6));
    assert_eq!(inv.try_get(1), Some(0));
}

#[test]
fn inventory_take_refuses_missing_or_empty() {
    let mut inv = Inventory::new();
    assert_eq!(inv.take(1, 4), None);
    inv.insert(1, 0);
    assert_eq!(inv.take(1, 4), None);
    assert_eq!(sorted(&inv), vec![(1, 0)]);
}

#[test]
fn inventory_take_conserves_items() {
    let mut inv = Inventory::new();
    inv.insert(5, 17);
    inv.insert(6, 2);
    let taken = inv.take(5, 9).unwrap();
    assert_eq!(taken + inv.try_get(5).unwrap(), 17);
    assert!(taken <= 9);
    assert_eq!(inv.try_get(6), Some(2));
}

#[test]
fn inventory_clone_is_equal() {
    let mut inv = Inventory::new();
    inv.insert(5, 17);
    let copy = inv.clone();
    assert_eq!(sorted(&copy), vec![(5, 17)]);
}

#[test]
fn interner_interns_each_name_once() {
    let mut interner = Interner::new();
    let a = interner.get_or_intern("automancy:iron".to_string());
    let b = interner.get_or_intern("automancy:gold".to_string());
    let c = interner.get_or_intern("automancy:iron".to_string());
    assert_eq!((a, b, c), (0, 1, 0));
    assert_eq!(interner.get(&"automancy:gold".to_string()), Some(1));
    assert_eq!(interner.get(&"automancy:tin".to_string()), None);
    assert_eq!(interner.resolve(0), Some(&"automancy:iron".to_string()));
    assert_eq!(interner.resolve(2), None);
}

#[test]
fn inventory_raw_from_inventory_skips_empty_and_unnamed() {
    let mut interner = Interner::new();
    let iron = interner.get_or_intern("iron".to_string());
    let gold = interner.get_or_intern("gold".to_string());
    let mut inv = Inventory::new();
    inv.insert(iron, 3);
    inv.insert(gold, 0);
    inv.insert(99, 4);
    let raw = InventoryRaw::from_inventory(inv, &interner);
    assert_eq!(raw.0, vec![("iron".to_string(), 3)]);
}

#[test]
fn inventory_raw_to_inventory_keeps_known_items() {
    let mut interner = Interner::new();
    let iron = interner.get_or_intern("iron".to_string());
    let gold = interner.get_or_intern("gold".to_string());
    let reg = registry_with_items(&[iron]);
    let raw = InventoryRaw(vec![
        ("iron".to_string(), 3),
        ("gold".to_string(), 2),
        ("tin".to_string(), 8),
        ("iron".to_string(), 5),
    ]);
    let inv = raw.to_inventory(&interner, &reg);
    assert_eq!(sorted(&inv), vec![(iron, 5)]);
    assert_eq!(interner.get(&"tin".to_string()), None);
    let _ = gold;
}

#[test]
fn inventory_raw_intern_to_inventory_interns_new_names() {
    let mut interner = Interner::new();
    let reg = registry_with_items(&[0, 1]);
    let raw = InventoryRaw(vec![("iron".to_string(), 3), ("gold".to_string(), 2), ("tin".to_string(), 8)]);
    let inv = raw.intern_to_inventory(&mut interner, &reg);
    assert_eq!(sorted(&inv), vec![(0, 3), (1, 2)]);
    assert_eq!(interner.get(&"tin".to_string()), Some(2));
}

#[test]
fn inventory_save_then_load_round_trips() {
    let mut interner = Interner::new();
    let iron = interner.get_or_intern("iron".to_string());
    let gold = interner.get_or_intern("gold".to_string());
    let tin = interner.get_or_intern("tin".to_string());
    let reg = registry_with_items(&[iron, gold, tin]);
    let mut inv = Inventory::new();
    inv.insert(iron, 3);
    inv.insert(gold, 0);
    inv.insert(tin, 11);
    let raw = InventoryRaw::from_inventory(inv.clone(), &interner);
    assert_eq!(raw.0.len(), 2);
    let back = raw.to_inventory(&interner, &reg);
    assert_eq!(sorted(&back), vec![(iron, 3), (tin, 11)]);
}
