use swarm_lib::bot::{BotData, FrameKind, Subsystems};
use swarm_lib::game::{BotEntry, CellState, ServerGrid};
use swarm_lib::gridworld::GridWorld;
use swarm_lib::known_map::{ClientCellState, KnownMap};
use swarm_lib::observe::{census, update_known_map, RadarUpdate};
use swarm_lib::types::{CellKind, Energy, Item, Pos, Team};
use swarm_lib::world::World;

fn bot(entity: u64, pos: Pos, team: Team) -> BotEntry {
    let data = BotData::new(
        FrameKind::Flea,
        Subsystems::new(&[]),
        pos,
        team,
        Energy(50),
        KnownMap::new(12, 12, ClientCellState::default()),
        Vec::new(),
    );
    BotEntry { entity, bot_id: entity as u32 + 100, data, current_action: None, past_actions: Vec::new() }
}

fn world(bots: Vec<BotEntry>) -> World {
    let mut grid: ServerGrid = GridWorld::new(12, 12, CellState::empty());
    grid.set(Pos((3, 4)), CellState::blocked());
    let mut metal = CellState::empty();
    metal.item = Some(Item::Metal);
    grid.set(Pos((2, 1)), metal);
    for b in &bots {
        grid.set(b.data.pos, CellState::new_with_pawn(b.entity));
    }
    World { tick: 7, grid, bots, partially_built: Vec::new(), next_entity: 10, next_bot_id: 10 }
}

#[test]
fn a_reading_sees_cells_in_range_and_nothing_beyond() {
    let mut w = world(vec![bot(1, Pos((2, 2)), Team::Player), bot(2, Pos((4, 2)), Team::Enemy)]);
    w.update_known_maps();
    let map = &w.bots[0].data.known_map;
    let seen = map.map.get(Pos((3, 4)));
    assert_eq!(seen.kind, CellKind::Blocked);
    assert_eq!(seen.last_observed, 7);
    assert_eq!(map.map.get(Pos((2, 1))).item, Some(Item::Metal));
    assert_eq!(map.map.get(Pos((2, 2))).pawn, Some(101));
    assert_eq!(map.map.get(Pos((4, 2))).pawn, Some(102));
    assert_eq!(map.map.get(Pos((4, 4))).kind, CellKind::Empty);
    assert_eq!(map.map.get(Pos((5, 5))).kind, CellKind::Unknown);
    assert_eq!(map.map.get(Pos((11, 11))).kind, CellKind::Unknown);
    assert_eq!(map.map.get(Pos((11, 11))).last_observed, 0);
}

#[test]
fn a_reading_records_the_bots_in_sight() {
    let mut w = world(vec![bot(1, Pos((2, 2)), Team::Player), bot(2, Pos((4, 2)), Team::Enemy)]);
    w.update_known_maps();
    let known = &w.bots[0].data.known_bots;
    assert_eq!(known.len(), 2);
    let other = known.iter().find(|k| k.bot_id == 102).unwrap();
    assert_eq!(other.pos, Pos((4, 2)));
    assert_eq!(other.team, Team::Enemy);
    assert_eq!(other.last_observed, 7);
    assert_eq!(w.bots[1].data.known_bots.len(), 2);
}

#[test]
fn a_reading_reports_what_is_new() {
    let w = world(vec![bot(1, Pos((2, 2)), Team::Player), bot(2, Pos((4, 2)), Team::Enemy)]);
    let sightings = census(&w.bots);
    let mut known = Vec::new();
    let mut map = KnownMap::new(12, 12, ClientCellState::default());
    let ups = update_known_map(&mut known, &mut map, 7, &Pos((2, 2)), &w.grid, &sightings);
    assert!(ups.iter().any(|u| matches!(u, RadarUpdate::NewBlocker { pos } if *pos == Pos((3, 4)))));
    assert!(ups.iter().any(|u| matches!(u, RadarUpdate::NewItem { item: Item::Metal, pos } if *pos == Pos((2, 1)))));
    assert!(ups.iter().any(|u| matches!(u, RadarUpdate::NewBot { bot_id: 102, pos } if *pos == Pos((4, 2)))));
    let again = update_known_map(&mut known, &mut map, 8, &Pos((2, 2)), &w.grid, &sightings);
    assert!(!again.iter().any(|u| matches!(u, RadarUpdate::NewBlocker { .. } | RadarUpdate::NewBot { .. })));
    assert_eq!(map.map.get(Pos((3, 4))).last_observed, 8);
}

#[test]
fn a_bot_that_moved_is_reported_and_its_old_cell_cleared() {
    let w0 = world(vec![bot(1, Pos((2, 2)), Team::Player), bot(2, Pos((4, 2)), Team::Enemy)]);
    let mut known = Vec::new();
    let mut map = KnownMap::new(12, 12, ClientCellState::default());
    update_known_map(&mut known, &mut map, 7, &Pos((2, 2)), &w0.grid, &census(&w0.bots));
    let w1 = world(vec![bot(1, Pos((2, 2)), Team::Player), bot(2, Pos((5, 2)), Team::Enemy)]);
    let ups = update_known_map(&mut known, &mut map, 8, &Pos((2, 2)), &w1.grid, &census(&w1.bots));
    assert!(ups.iter().any(|u| matches!(u, RadarUpdate::BotMoved { bot_id: 102, from, to } if *from == Pos((4, 2)) && *to == Pos((5, 2)))));
    assert_eq!(map.map.get(Pos((4, 2))).pawn, None);
    assert_eq!(map.map.get(Pos((5, 2))).pawn, Some(102));
}
