use swarm_lib::bot::{FrameKind, Subsystems};
use swarm_lib::game::{CellState, ServerGrid};
use swarm_lib::gridworld::GridWorld;
use swarm_lib::observe::Sighting;
use swarm_lib::server_radar::{create_radar_data, radar_key_of};
use swarm_lib::types::{CellKind, Item, Pos, Team};

fn sighting(entity: u64, bot_id: u32, pos: Pos, team: Team) -> Sighting {
    Sighting { entity, bot_id, pos, team, frame: FrameKind::Flea, subsystems: Subsystems::new(&[]) }
}

#[test]
fn keys_order_by_distance_then_direction() {
    let c = Pos((5, 5));
    assert_eq!(radar_key_of(c, Pos((5, 5))), 0);
    assert_eq!(radar_key_of(c, Pos((6, 5))), 101);
    assert_eq!(radar_key_of(c, Pos((4, 5))), 102);
    assert_eq!(radar_key_of(c, Pos((5, 6))), 103);
    assert_eq!(radar_key_of(c, Pos((5, 4))), 104);
    assert_eq!(radar_key_of(c, Pos((6, 6))), 201);
    assert_eq!(radar_key_of(c, Pos((4, 7))), 303);
}

#[test]
fn a_reading_lists_nearby_cells_nearest_first() {
    let mut grid: ServerGrid = GridWorld::new(3, 3, CellState::empty());
    grid.set(Pos((0, 1)), CellState::blocked());
    let mut metal = CellState::empty();
    metal.item = Some(Item::Metal);
    grid.set(Pos((2, 1)), metal);
    grid.set(Pos((1, 1)), CellState::new_with_pawn(4));
    grid.set(Pos((1, 2)), CellState::new_with_pawn(9));
    let bots = vec![sighting(4, 40, Pos((1, 1)), Team::Player), sighting(9, 90, Pos((1, 2)), Team::Enemy)];
    let r = create_radar_data(&Pos((1, 1)), &grid, &bots);
    assert_eq!(r.center_world_pos, Pos((1, 1)));
    assert_eq!(r.cells.len(), 9);
    let order: Vec<Pos> = r.cells.iter().map(|c| c.pos).collect();
    assert_eq!(order[0], Pos((1, 1)));
    assert_eq!(order[1], Pos((2, 1)));
    assert_eq!(order[2], Pos((0, 1)));
    assert_eq!(order[3], Pos((1, 2)));
    assert_eq!(order[4], Pos((1, 0)));
    assert_eq!(r.cells[1].item, Some(Item::Metal));
    assert_eq!(r.cells[2].kind, CellKind::Blocked);
    assert_eq!(r.pawns.len(), 2);
    let me = r.cells[0].pawn.unwrap();
    assert_eq!(r.pawns[me].bot_id, 40);
    let other = r.cells[3].pawn.unwrap();
    assert_eq!(r.pawns[other].bot_id, 90);
    assert_eq!(r.pawns[other].team, Team::Enemy);
    assert_eq!(r.pawns[other].pos, Pos((1, 2)));
}
