use std::collections::BTreeMap;

use automancy::game::item::Item;
use automancy::game::registry::{DataIds, Instructions, Registry, Script, TileDef, TileIds};
use automancy::game::state::{GameAction, GameMsg, GameState, PlaceTileResponse, UNDO_CACHE_SIZE};
use automancy::game::tile::coord::TileCoord;
use automancy::game::tile::entity::{Data, TileEntityMsg};

const BELT: u32 = 50;
const WALL: u32 = 51;
const NEEDS_WALL: u32 = 60;

fn registry() -> Registry {
    let mut tiles = BTreeMap::new();
    tiles.insert(BELT, TileDef { tile_type: None, models: vec![500, 501] });
    tiles.insert(WALL, TileDef { tile_type: None, models: vec![] });
    let mut scripts = BTreeMap::new();
    scripts.insert(
        NEEDS_WALL,
        Script { instructions: Instructions { inputs: None, output: None }, adjacent: Some(WALL) },
    );
    let mut items = BTreeMap::new();
    items.insert(1, Item { id: 1 });
    Registry {
        none: 0,
        tile_ids: TileIds {
            machine: 1,
            storage: 2,
            void: 3,
            merger: 4,
            splitter: 5,
            node: 6,
            master_node: 7,
            transfer: 8,
        },
        data_ids: DataIds { target: 20, link: 21, script: 22, buffer: 23, storage: 24, amount: 25 },
        tiles,
        scripts,
        tags: BTreeMap::new(),
        items,
    }
}

fn place(coord: TileCoord, id: u32, modifier: i32) -> GameMsg {
    GameMsg::PlaceTile { coord, id, tile_modifier: modifier, record: true, reply: true }
}

fn tile_at(game: &mut GameState, reg: &Registry, coord: TileCoord) -> Option<(u32, i32)> {
    let acts = game.handle(reg, GameMsg::GetTile(coord));
    assert_eq!(acts.len(), 1);
    match &acts[0] {
        GameAction::ReplyTile(t) => *t,
        _ => panic!("expected a tile reply"),
    }
}

fn response(acts: &[GameAction]) -> PlaceTileResponse {
    match &acts[0] {
        GameAction::ReplyPlaceTile(r) => *r,
        _ => panic!("expected a place reply"),
    }
}

#[test]
fn new_game_is_empty() {
    let reg = registry();
    let mut game = GameState::new("test".to_string());
    assert_eq!(game.tick_count, 0);
    assert_eq!(game.map_name, "test");
    assert!(!game.stopped);
    assert_eq!(game.undo_steps.len(), UNDO_CACHE_SIZE);
    assert!(game.undo_steps.iter().all(|s| s.is_none()));
    assert_eq!(tile_at(&mut game, &reg, TileCoord::new(0, 0)), None);
}

#[test]
fn tick_advances_and_ticks_tiles() {
    let reg = registry();
    let mut game = GameState::new("test".to_string());
    let acts = game.handle(&reg, GameMsg::Tick);
    assert_eq!(game.tick_count, 1);
    assert!(matches!(acts[0], GameAction::TickTileEntities { tick_count: 0 }));
    game.tick_count = u16::MAX;
    game.handle(&reg, GameMsg::Tick);
    assert_eq!(game.tick_count, 0);
}

#[test]
fn placing_a_tile_spawns_its_entity() {
    let reg = registry();
    let mut game = GameState::new("test".to_string());
    let c = TileCoord::new(2, 3);
    let acts = game.handle(&reg, place(c, BELT, 1));
    assert_eq!(response(&acts), PlaceTileResponse::Placed);
    assert_eq!(acts.len(), 3);
    assert!(matches!(acts[1], GameAction::StopTileEntity(_)));
    assert!(matches!(acts[2], GameAction::SpawnTileEntity { id: BELT, tile_modifier: 1, .. }));
    assert_eq!(tile_at(&mut game, &reg, c), Some((BELT, 1)));
}

#[test]
fn placing_the_same_tile_again_is_ignored() {
    let reg = registry();
    let mut game = GameState::new("test".to_string());
    let c = TileCoord::new(2, 3);
    game.handle(&reg, place(c, BELT, 1));
    let acts = game.handle(&reg, place(c, BELT, 1));
    assert_eq!(acts.len(), 1);
    assert_eq!(response(&acts), PlaceTileResponse::Ignored);
}

#[test]
fn placing_none_removes_and_removing_nothing_is_ignored() {
    let reg = registry();
    let mut game = GameState::new("test".to_string());
    let c = TileCoord::new(-4, 1);
    let acts = game.handle(&reg, place(c, 0, 0));
    assert_eq!(response(&acts), PlaceTileResponse::Ignored);
    game.handle(&reg, place(c, BELT, 0));
    let acts = game.handle(&reg, place(c, 0, 0));
    assert_eq!(response(&acts), PlaceTileResponse::Removed);
    assert_eq!(acts.len(), 2);
    assert_eq!(tile_at(&mut game, &reg, c), None);
}

#[test]
fn undo_restores_the_previous_tile() {
    let reg = registry();
    let mut game = GameState::new("test".to_string());
    let c = TileCoord::new(1, 1);
    game.handle(&reg, place(c, BELT, 0));
    game.handle(&reg, place(c, BELT, 1));
    let acts = game.handle(&reg, GameMsg::Undo);
    assert_eq!(acts.len(), 1);
    let msgs = match acts.into_iter().next().unwrap() {
        GameAction::ResendToGame(msgs) => msgs,
        _ => panic!("expected the undo step"),
    };
    assert_eq!(msgs.len(), 1);
    for m in msgs {
        game.handle(&reg, m);
    }
    assert_eq!(tile_at(&mut game, &reg, c), Some((BELT, 0)));
}

#[test]
fn undo_with_nothing_recorded_does_nothing() {
    let reg = registry();
    let mut game = GameState::new("test".to_string());
    let acts = game.handle(&reg, GameMsg::Undo);
    assert!(acts.is_empty());
    assert_eq!(game.undo_steps_index, 0);
}

#[test]
fn undo_ring_wraps_around() {
    let reg = registry();
    let mut game = GameState::new("test".to_string());
    for i in 0..(UNDO_CACHE_SIZE as i32 + 2) {
        game.handle(&reg, place(TileCoord::new(i, 0), BELT, 0));
    }
    assert_eq!(game.undo_steps_index, 2);
    assert!(game.undo_steps.iter().all(|s| s.is_some()));
}

#[test]
fn add_and_undo_once_directly() {
    let mut game = GameState::new("test".to_string());
    game.add_undo_step(vec![GameMsg::Tick]);
    assert_eq!(game.undo_steps_index, 1);
    let step = game.undo_once();
    assert!(matches!(step.as_deref(), Some([GameMsg::Tick])));
    assert_eq!(game.undo_steps_index, 0);
    assert!(game.undo_once().is_none());
}

#[test]
fn stopped_game_only_answers_queries() {
    let reg = registry();
    let mut game = GameState::new("test".to_string());
    game.handle(&reg, GameMsg::StopTicking);
    assert!(game.stopped);
    let acts = game.handle(&reg, GameMsg::Tick);
    assert!(acts.is_empty());
    assert_eq!(game.tick_count, 0);
    let acts = game.handle(&reg, GameMsg::LastTilesUpdate);
    assert!(matches!(acts[0], GameAction::ReplyLastTilesUpdate(0)));
}

#[test]
fn game_data_set_get_remove_take() {
    let reg = registry();
    let mut game = GameState::new("test".to_string());
    game.handle(&reg, GameMsg::SetData(4, Data::Amount(3)));
    let acts = game.handle(&reg, GameMsg::GetDataValue(4));
    assert!(matches!(&acts[0], GameAction::ReplyDataValue(Some(Data::Amount(3)))));
    let acts = game.handle(&reg, GameMsg::GetDataMap);
    assert!(matches!(&acts[0], GameAction::ReplyDataMap(d) if d.len() == 1));
    assert!(game.data.is_empty());
    game.handle(&reg, GameMsg::SetData(4, Data::Amount(3)));
    game.handle(&reg, GameMsg::RemoveData(4));
    let acts = game.handle(&reg, GameMsg::GetDataValue(4));
    assert!(matches!(&acts[0], GameAction::ReplyDataValue(None)));
}

#[test]
fn tiles_updated_records_the_tick() {
    let reg = registry();
    let mut game = GameState::new("test".to_string());
    game.handle(&reg, GameMsg::Tick);
    game.handle(&reg, GameMsg::Tick);
    game.handle(&reg, GameMsg::SignalTilesUpdated);
    let acts = game.handle(&reg, GameMsg::LastTilesUpdate);
    assert!(matches!(acts[0], GameAction::ReplyLastTilesUpdate(2)));
}

#[test]
fn render_info_lists_drawn_tiles_in_range() {
    let reg = registry();
    let mut game = GameState::new("test".to_string());
    game.handle(&reg, place(TileCoord::new(0, 0), BELT, 1));
    game.handle(&reg, place(TileCoord::new(1, 0), WALL, 0));
    game.handle(&reg, place(TileCoord::new(9, 0), BELT, 0));
    let acts = game.handle(&reg, GameMsg::RenderInfoRequest { center: TileCoord::new(0, 0), range: 3 });
    match &acts[0] {
        GameAction::ReplyRenderInfo(units) => {
            assert_eq!(units.len(), 1);
            assert_eq!((units[0].coord.q(), units[0].coord.r()), (0, 0));
            assert_eq!(units[0].tile, BELT);
            assert_eq!(units[0].model, 501);
        },
        _ => panic!("expected render info"),
    }
}

#[test]
fn check_adjacent_looks_at_neighbors() {
    let reg = registry();
    let mut game = GameState::new("test".to_string());
    let me = TileCoord::new(3, 3);
    let ask = GameMsg::CheckAdjacent { adjacent: Some(WALL), coord: me, self_coord: me };
    let acts = game.handle(&reg, ask);
    assert!(matches!(&acts[0], GameAction::SendToTileEntity(_, TileEntityMsg::AdjacentState { fulfilled: false })));
    game.handle(&reg, place(TileCoord::new(4, 3), WALL, 0));
    let ask = GameMsg::CheckAdjacent { adjacent: Some(WALL), coord: me, self_coord: me };
    let acts = game.handle(&reg, ask);
    assert!(matches!(&acts[0], GameAction::SendToTileEntity(_, TileEntityMsg::AdjacentState { fulfilled: true })));
}

#[test]
fn forward_and_tile_entity_queries() {
    let reg = registry();
    let mut game = GameState::new("test".to_string());
    let c = TileCoord::new(1, 2);
    let acts = game.handle(&reg, GameMsg::ForwardMsgToTile(c, TileEntityMsg::GetData));
    assert!(matches!(&acts[0], GameAction::SendToTileEntity(_, TileEntityMsg::GetData)));
    let acts = game.handle(&reg, GameMsg::GetTileEntity(c));
    assert!(matches!(&acts[0], GameAction::ReplyTileEntity(_)));
}

#[test]
fn placing_back_the_previous_tile_restores_the_map() {
    let reg = registry();
    let mut game = GameState::new("test".to_string());
    let c = TileCoord::new(5, -2);
    game.handle(&reg, place(c, BELT, 1));
    game.handle(&reg, place(c, WALL, 0));
    assert_eq!(tile_at(&mut game, &reg, c), Some((WALL, 0)));
    game.handle(&reg, place(c, BELT, 1));
    assert_eq!(tile_at(&mut game, &reg, c), Some((BELT, 1)));
    let d = TileCoord::new(6, -2);
    game.handle(&reg, place(d, BELT, 0));
    game.handle(&reg, place(d, 0, 0));
    assert_eq!(tile_at(&mut game, &reg, d), None);
    assert_eq!(tile_at(&mut game, &reg, c), Some((BELT, 1)));
}

fn rendered_coords(acts: &[GameAction]) -> Vec<(i32, i32)> {
    match &acts[0] {
        GameAction::ReplyRenderInfo(units) => units.iter().map(|u| (u.coord.q(), u.coord.r())).collect(),
        _ => panic!("expected render info"),
    }
}

#[test]
fn render_requests_are_cached_until_the_tiles_change() {
    let reg = registry();
    let mut game = GameState::new("test".to_string());
    game.handle(&reg, place(TileCoord::new(0, 0), BELT, 1));
    assert_eq!(game.render_cache_len(), 0);
    let ask = || GameMsg::RenderInfoRequest { center: TileCoord::new(0, 0), range: 3 };
    let first = rendered_coords(&game.handle(&reg, ask()));
    assert_eq!(game.render_cache_len(), 1);
    let again = rendered_coords(&game.handle(&reg, ask()));
    assert_eq!(first, again);
    assert_eq!(game.render_cache_len(), 1);
    game.handle(&reg, GameMsg::RenderInfoRequest { center: TileCoord::new(0, 0), range: 1 });
    assert_eq!(game.render_cache_len(), 2);
    game.handle(&reg, place(TileCoord::new(1, 0), BELT, 0));
    assert_eq!(game.render_cache_len(), 0);
    let after = rendered_coords(&game.handle(&reg, ask()));
    assert_eq!(after.len(), 2);
}

#[test]
fn render_cache_starts_over_past_sixteen_entries() {
    let reg = registry();
    let mut game = GameState::new("test".to_string());
    for range in 0..17 {
        game.handle(&reg, GameMsg::RenderInfoRequest { center: TileCoord::new(0, 0), range });
    }
    assert_eq!(game.render_cache_len(), 17);
    game.handle(&reg, GameMsg::RenderInfoRequest { center: TileCoord::new(0, 0), range: 17 });
    assert_eq!(game.render_cache_len(), 1);
}

#[test]
fn placing_far_away_is_handled_and_far_renders_are_refused() {
    let reg = registry();
    let mut game = GameState::new("test".to_string());
    let far = TileCoord::new(i32::MAX, 0);
    let msg = place(far, BELT, 0);
    assert!(game.can_handle(&msg));
    game.handle(&reg, msg);
    assert_eq!(tile_at(&mut game, &reg, far), Some((BELT, 0)));
    let ask = GameMsg::RenderInfoRequest { center: TileCoord::new(-2, 0), range: 3 };
    assert!(!game.can_handle(&ask));
    let near = GameMsg::RenderInfoRequest { center: TileCoord::new(i32::MAX - 5, 0), range: 3 };
    assert!(game.can_handle(&near));
    let edge = GameMsg::CheckAdjacent { adjacent: None, coord: far, self_coord: far };
    assert!(!game.can_handle(&edge));
    game.handle(&reg, GameMsg::StopTicking);
    assert!(game.can_handle(&ask));
    let acts = game.handle(&reg, ask);
    assert!(acts.is_empty());
}

#[test]
fn several_undos_restore_the_tiles_in_reverse_order() {
    let reg = registry();
    let mut game = GameState::new("test".to_string());
    let a = TileCoord::new(0, 0);
    let b = TileCoord::new(1, 0);
    game.handle(&reg, GameMsg::PlaceTile { coord: a, id: WALL, tile_modifier: 0, record: false, reply: false });
    game.handle(&reg, place(a, BELT, 1));
    game.handle(&reg, place(b, BELT, 0));
    game.handle(&reg, place(a, 0, 0));
    for _ in 0..3 {
        let acts = game.handle(&reg, GameMsg::Undo);
        assert_eq!(acts.len(), 1);
        if let GameAction::ResendToGame(msgs) = acts.into_iter().next().unwrap() {
            for m in msgs {
                game.handle(&reg, m);
            }
        }
    }
    assert_eq!(tile_at(&mut game, &reg, a), Some((WALL, 0)));
    assert_eq!(tile_at(&mut game, &reg, b), None);
    let acts = game.handle(&reg, GameMsg::Undo);
    assert!(acts.is_empty());
}

#[test]
fn undos_in_a_row_go_newest_first() {
    let reg = registry();
    let mut game = GameState::new("test".to_string());
    let a = TileCoord::new(0, 0);
    let b = TileCoord::new(1, 0);
    game.handle(&reg, place(a, BELT, 0));
    game.handle(&reg, place(b, WALL, 0));
    game.handle(&reg, place(a, WALL, 0));
    let mut undone = Vec::new();
    for _ in 0..3 {
        let acts = game.handle(&reg, GameMsg::Undo);
        assert_eq!(acts.len(), 1);
        if let GameAction::ResendToGame(msgs) = &acts[0] {
            assert_eq!(msgs.len(), 1);
            if let GameMsg::PlaceTile { coord, id, tile_modifier, record, .. } = &msgs[0] {
                assert!(!record);
                undone.push((qr_of(*coord), *id, *tile_modifier));
            }
        }
    }
    assert_eq!(undone, vec![((0, 0), BELT, 0), ((1, 0), 0, 0), ((0, 0), 0, 0)]);
    assert_eq!(tile_at(&mut game, &reg, a), Some((WALL, 0)));
    assert!(game.handle(&reg, GameMsg::Undo).is_empty());
}

fn qr_of(c: TileCoord) -> (i32, i32) {
    (c.q(), c.r())
}
