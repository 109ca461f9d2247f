use std::collections::BTreeMap;

use automancy::game::item::Item;
use automancy::game::registry::{DataIds, Registry, TileDef, TileIds};
use automancy::game::state::{GameAction, GameMsg, GameState};
use automancy::game::tile::coord::TileCoord;
use automancy::game::tile::entity::Data;
use automancy::map::GameMap;
use automancy::util::id::Interner;

fn sanitize(s: &str) -> String {
    GameMap::sanitize_name(s.to_string())
}

#[test]
fn empty_name_becomes_empty() {
    assert_eq!(sanitize(""), "empty");
}

#[test]
fn plain_names_are_kept() {
    assert_eq!(sanitize("world1"), "world1");
    assert_eq!(sanitize("Überwelt"), "Überwelt");
}

#[test]
fn whitespace_and_periods_are_trimmed() {
    assert_eq!(sanitize("  my map  "), "my_map");
    assert_eq!(sanitize("..hidden.."), "hidden");
    assert_eq!(sanitize(" . a . "), "_a_");
    assert_eq!(sanitize("\t\nname\u{3000}"), "name");
}

#[test]
fn other_characters_become_underscores() {
    assert_eq!(sanitize("a/b\\c:d"), "a_b_c_d");
    assert_eq!(sanitize("x.y"), "x_y");
}

#[test]
fn only_periods_leave_nothing() {
    assert_eq!(sanitize("..."), "");
    assert_eq!(sanitize("   "), "");
}

#[test]
fn reserved_windows_names_get_a_prefix() {
    assert_eq!(sanitize("con"), "_con");
    assert_eq!(sanitize("CON"), "_CON");
    assert_eq!(sanitize("Aux"), "_Aux");
    assert_eq!(sanitize("nul"), "_nul");
    assert_eq!(sanitize("prn"), "_prn");
    assert_eq!(sanitize("com1"), "_com1");
    assert_eq!(sanitize("LPT9"), "_LPT9");
    assert_eq!(sanitize("com0"), "com0");
    assert_eq!(sanitize("console"), "console");
    assert_eq!(sanitize(" lpt3 "), "_lpt3");
}

#[test]
fn clock_name_is_not_reserved_once_replaced() {
    assert_eq!(sanitize("CLOCK$"), "CLOCK_");
}

#[test]
fn sanitized_names_are_safe() {
    for name in ["a b", "..x..", "x/y", "héllo wörld", "con", "***"] {
        let s = sanitize(name);
        assert!(s.chars().all(|c| c.is_alphanumeric() || c == '_'));
        assert!(!s.starts_with('.') && !s.ends_with('.'));
    }
}

#[test]
fn new_empty_map() {
    let m = GameMap::new_empty("world".to_string());
    assert_eq!(m.map_name, "world");
}

fn registry(belt: u32) -> Registry {
    let mut tiles = BTreeMap::new();
    tiles.insert(belt, TileDef { tile_type: None, models: vec![1] });
    let mut items = BTreeMap::new();
    items.insert(belt, Item { id: belt });
    Registry {
        none: 0,
        tile_ids: TileIds {
            machine: 101,
            storage: 102,
            void: 103,
            merger: 104,
            splitter: 105,
            node: 106,
            master_node: 107,
            transfer: 108,
        },
        data_ids: DataIds { target: 120, link: 121, script: 122, buffer: 123, storage: 124, amount: 125 },
        tiles,
        scripts: BTreeMap::new(),
        tags: BTreeMap::new(),
        items,
    }
}

fn tile_at(game: &mut GameState, reg: &Registry, c: TileCoord) -> Option<(u32, i32)> {
    match game.handle(reg, GameMsg::GetTile(c)).into_iter().next() {
        Some(GameAction::ReplyTile(t)) => t,
        _ => panic!("expected a tile reply"),
    }
}

#[test]
fn map_save_then_load_round_trips() {
    let mut interner = Interner::new();
    let _none = interner.get_or_intern("none".to_string());
    let belt = interner.get_or_intern("automancy:belt".to_string());
    let amount_key = interner.get_or_intern("automancy:amount".to_string());
    let reg = registry(belt);

    let mut game = GameState::new("world".to_string());
    let a = TileCoord::new(1, 2);
    let b = TileCoord::new(-3, 0);
    let c = TileCoord::new(4, 4);
    for (coord, modifier) in [(a, 1), (b, 0), (c, 0)] {
        game.handle(&reg, GameMsg::PlaceTile { coord, id: belt, tile_modifier: modifier, record: false, reply: false });
    }
    let map = GameMap { map_name: "world".to_string(), tiles: game.tiles };

    let mut data_a = BTreeMap::new();
    data_a.insert(amount_key, Data::Amount(9));
    data_a.insert(77, Data::Bool(true));
    let entities = vec![(a, data_a), (b, BTreeMap::new()), (TileCoord::new(9, 9), BTreeMap::new())];
    let raw = map.to_raw(entities, &interner);
    assert_eq!(raw.map_name, "world");
    assert_eq!(raw.tiles.len(), 2);
    assert_eq!((raw.tiles[0].0.q(), raw.tiles[0].1, raw.tiles[0].2), (1, belt, 1));

    let (loaded, started) = GameMap::from_raw(raw, &interner, &reg);
    assert_eq!(loaded.map_name, "world");
    assert_eq!(started.len(), 2);
    assert_eq!((started[0].0.q(), started[0].0.r(), started[0].1, started[0].2), (1, 2, belt, 1));
    assert!(matches!(started[0].3.get(&amount_key), Some(Data::Amount(9))));
    assert!(started[0].3.get(&77).is_none());

    let mut back = GameState::new("world".to_string());
    back.tiles = loaded.tiles;
    assert_eq!(tile_at(&mut back, &reg, a), Some((belt, 1)));
    assert_eq!(tile_at(&mut back, &reg, b), Some((belt, 0)));
    assert_eq!(tile_at(&mut back, &reg, c), None);
}
