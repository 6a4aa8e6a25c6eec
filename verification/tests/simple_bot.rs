use swarm_lib::gridworld::GridWorld;
use swarm_lib::radar::{CellStateRadar, RadarBotData, RadarData};
use swarm_lib::simple_bot::{test_fn, update_known_map, ClientBotData, ClientCellState};
use swarm_lib::types::{CellKind, Item, Pos, Team};

#[test]
fn test_update_basic_cell_info() {
    // Create a small grid and empty bot list
    let mut known_map = GridWorld::<ClientCellState>::new(5, 5, ClientCellState::default());
    let mut known_bots = Vec::new();

    // Create radar data with one cell but no bots
    let radar = RadarData {
        center_world_pos: Pos((2, 2)),
        pawns: vec![],
        cells: vec![CellStateRadar {
            kind: CellKind::Blocked,
            pawn: None,
            item: Some(Item::Crumb),
            pos: Pos((2, 3)),
        }],
    };

    // Update map with current tick = 10
    update_known_map(&mut known_map, &mut known_bots, &radar, 10);

    // Verify cell was updated correctly
    let cell = known_map.get(Pos((2, 3)));
    assert_eq!(cell.kind, CellKind::Blocked);
    assert_eq!(cell.item, Some(Item::Crumb));
    assert_eq!(cell.pawn, None);
    assert_eq!(cell.last_observed, 10);
    assert!(known_bots.is_empty());
}

#[test]
fn test_update_with_bot_in_cell() {
    let mut known_map = GridWorld::<ClientCellState>::new(5, 5, ClientCellState::default());
    let mut known_bots = Vec::new();

    // Create radar data with one cell and one bot
    let radar = RadarData {
        center_world_pos: Pos((2, 2)),
        pawns: vec![RadarBotData { bot_id: 42, pos: Pos((1, 1)), team: Team::Player }],
        cells: vec![CellStateRadar {
            kind: CellKind::Empty,
            pawn: Some(0), // Index 0 refers to the bot in pawns
            item: None,
            pos: Pos((1, 1)),
        }],
    };

    // Update map with current tick = 5
    update_known_map(&mut known_map, &mut known_bots, &radar, 5);

    // Verify bot was added to known_bots
    assert_eq!(known_bots.len(), 1);
    assert_eq!(known_bots[0].bot_id, 42);
    assert_eq!(known_bots[0].team, Team::Player);
    assert_eq!(known_bots[0].pos, Pos((1, 1)));
    assert_eq!(known_bots[0].last_observed, 5);

    // Verify cell was updated with bot reference
    let cell = known_map.get(Pos((1, 1)));
    assert_eq!(cell.pawn, Some(42));
}

#[test]
fn test_bot_movement() {
    let mut known_map = GridWorld::<ClientCellState>::new(5, 5, ClientCellState::default());
    let mut known_bots = vec![ClientBotData {
        bot_id: 42,
        team: Team::Player,
        pos: Pos((1, 1)),
        last_observed: 10,
    }];

    // Set initial cell state with bot
    let mut old_cell = *known_map.get(Pos((1, 1)));
    old_cell.pawn = Some(42);
    known_map.set(Pos((1, 1)), old_cell);

    // Create radar with bot in new position
    let radar = RadarData {
        center_world_pos: Pos((2, 2)),
        pawns: vec![RadarBotData {
            bot_id: 42,
            team: Team::Player,
            pos: Pos((2, 1)), // Bot moved right
        }],
        cells: vec![
            // Old position is now empty
            CellStateRadar { kind: CellKind::Empty, pawn: None, item: None, pos: Pos((1, 1)) },
            // New position has the bot
            CellStateRadar { kind: CellKind::Empty, pawn: Some(0), item: None, pos: Pos((2, 1)) },
        ],
    };

    // Update map with current tick = 15
    update_known_map(&mut known_map, &mut known_bots, &radar, 15);

    // Verify bot position was updated
    assert_eq!(known_bots[0].pos, Pos((2, 1)));
    assert_eq!(known_bots[0].last_observed, 15);

    // Verify old cell no longer has bot
    let old_cell = known_map.get(Pos((1, 1)));
    assert_eq!(old_cell.pawn, None);

    // Verify new cell has bot
    let new_cell = known_map.get(Pos((2, 1)));
    assert_eq!(new_cell.pawn, Some(42));
}

#[test]
fn test_partial_radar_view() {
    // This test verifies that cells not in radar view maintain their
    // previous state
    let mut known_map = GridWorld::<ClientCellState>::new(5, 5, ClientCellState::default());
    let mut known_bots = Vec::new();

    // Set initial state for a cell not in radar
    let mut cell_outside_radar = *known_map.get(Pos((4, 4)));
    cell_outside_radar.kind = CellKind::Blocked;
    cell_outside_radar.last_observed = 5;
    known_map.set(Pos((4, 4)), cell_outside_radar);

    // Create radar that doesn't see (4,4)
    let radar = RadarData {
        center_world_pos: Pos((1, 1)),
        pawns: vec![],
        cells: vec![CellStateRadar { kind: CellKind::Empty, pawn: None, item: None, pos: Pos((1, 1)) }],
    };

    // Update map with current tick = 10
    update_known_map(&mut known_map, &mut known_bots, &radar, 10);

    // Verify cell in radar was updated
    let updated_cell = known_map.get(Pos((1, 1)));
    assert_eq!(updated_cell.kind, CellKind::Empty);
    assert_eq!(updated_cell.last_observed, 10);

    // Verify cell outside radar maintained state
    let outside_cell = known_map.get(Pos((4, 4)));
    assert_eq!(outside_cell.kind, CellKind::Blocked);
    assert_eq!(outside_cell.last_observed, 5); // Still has old timestamp
}

#[test]
fn test_bot_appears_and_disappears() {
    let mut known_map = GridWorld::<ClientCellState>::new(5, 5, ClientCellState::default());
    let mut known_bots = Vec::new();

    // First radar with bot visible
    let radar1 = RadarData {
        center_world_pos: Pos((2, 2)),
        pawns: vec![RadarBotData { bot_id: 42, team: Team::Player, pos: Pos((3, 3)) }],
        cells: vec![CellStateRadar { kind: CellKind::Empty, pawn: Some(0), item: None, pos: Pos((3, 3)) }],
    };

    // Update map with current tick = 10
    update_known_map(&mut known_map, &mut known_bots, &radar1, 10);

    // Verify bot was added
    assert_eq!(known_bots.len(), 1);
    assert_eq!(known_bots[0].bot_id, 42);

    // Second radar without the bot (moved out of view)
    let radar2 = RadarData {
        center_world_pos: Pos((2, 2)),
        pawns: vec![],
        cells: vec![CellStateRadar { kind: CellKind::Empty, pawn: None, item: None, pos: Pos((3, 3)) }],
    };

    // Update map with current tick = 15
    update_known_map(&mut known_map, &mut known_bots, &radar2, 15);

    // Verify bot still exists in known_bots but with old timestamp
    assert_eq!(known_bots.len(), 1);
    assert_eq!(known_bots[0].last_observed, 10); // Still has old timestamp

    // Verify cell no longer has the bot
    let cell = known_map.get(Pos((3, 3)));
    assert_eq!(cell.pawn, None);
    assert_eq!(cell.last_observed, 15);
}

#[test]
fn simple_bot_test_fn_greets() {
    assert_eq!(test_fn(), "Hello, world!");
}
