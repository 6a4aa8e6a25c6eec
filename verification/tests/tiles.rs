use swarm_lib::known_map::ClientCellState;
use swarm_lib::tiles::{fog_level, fog_tile, item_tile, terrain_tile, FogOfWarLevel};
use swarm_lib::types::{CellKind, Item};

fn seen(kind: CellKind, last_observed: u32) -> ClientCellState {
    ClientCellState { kind, pawn: None, item: None, last_observed }
}

#[test]
fn fog_thickens_with_the_time_since_a_cell_was_seen() {
    assert_eq!(fog_level(20, &seen(CellKind::Unknown, 20)), FogOfWarLevel::Full);
    assert_eq!(fog_level(20, &seen(CellKind::Empty, 20)), FogOfWarLevel::Clear);
    assert_eq!(fog_level(20, &seen(CellKind::Empty, 11)), FogOfWarLevel::OneThird);
    assert_eq!(fog_level(20, &seen(CellKind::Blocked, 10)), FogOfWarLevel::TwoThirds);
}

#[test]
fn tiles_for_each_layer() {
    assert_eq!(fog_tile(FogOfWarLevel::Full), 0);
    assert_eq!(fog_tile(FogOfWarLevel::TwoThirds), 1);
    assert_eq!(fog_tile(FogOfWarLevel::OneThird), 2);
    assert_eq!(fog_tile(FogOfWarLevel::Clear), 3);
    assert_eq!(terrain_tile(CellKind::Empty), 0);
    assert_eq!(terrain_tile(CellKind::Unknown), 1);
    assert_eq!(terrain_tile(CellKind::Blocked), 2);
    assert_eq!(item_tile(Some(Item::Metal)), 0);
    assert_eq!(item_tile(Some(Item::Crumb)), 5);
    assert_eq!(item_tile(None), 5);
}
