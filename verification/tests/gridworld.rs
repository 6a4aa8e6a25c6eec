use swarm_lib::gridworld::{GridWorld, PathFinder, PlainCell as Cell};
use swarm_lib::types::Pos;

fn create_test_grid() -> GridWorld<Cell> {
    // Create a 5x5 grid for testing
    let mut grid = GridWorld::new(5, 5, Cell::default());

    // Fill with unique values to make testing easier
    for x in 0..5 {
        for y in 0..5 {
            grid.set_tuple(x, y, Default::default());
        }
    }
    grid
}

#[test]
fn gridworld_test_nearby_distance_0() {
    let grid = create_test_grid();
    let nearby: Vec<_> = grid.nearby(Pos((2, 2)), 0);
    assert_eq!(nearby.len(), 1);
    assert_eq!(nearby[0].0, Pos((2, 2)));
}

#[test]
fn gridworld_test_nearby_distance_1() {
    let grid = create_test_grid();
    let positions: Vec<_> = grid.nearby(Pos((2, 2)), 1).into_iter().map(|(pos, _)| pos).collect();
    // Should include center + 4 adjacent cells
    assert_eq!(positions.len(), 5);

    assert!(positions.contains(&Pos((2, 2)))); // center
    assert!(positions.contains(&Pos((1, 2)))); // left
    assert!(positions.contains(&Pos((3, 2)))); // right
    assert!(positions.contains(&Pos((2, 1)))); // down
    assert!(positions.contains(&Pos((2, 3)))); // up
}

#[test]
fn gridworld_test_nearby_corner() {
    let grid = create_test_grid();
    let nearby: Vec<_> = grid.nearby(Pos((0, 0)), 1);
    // Corner should only have 3 cells (including itself)
    assert_eq!(nearby.len(), 3);

    let positions: Vec<_> = nearby.iter().map(|(pos, _)| *pos).collect();
    assert!(positions.contains(&Pos((0, 0)))); // corner
    assert!(positions.contains(&Pos((1, 0)))); // right
    assert!(positions.contains(&Pos((0, 1)))); // up
}

#[test]
fn gridworld_test_nearby_large_distance() {
    let grid = create_test_grid();
    // Distance larger than grid size
    let nearby: Vec<_> = grid.nearby(Pos((2, 2)), 10);
    // Should include all cells in 5x5 grid
    assert_eq!(nearby.len(), 25);

    assert!(nearby.is_sorted_by_key(|(pos, _)| pos.manhattan_distance(&Pos((2, 2)))));
}

#[test]
fn gridworld_test_pathfinding_simple() {
    let mut grid = GridWorld::new(5, 5, Cell::default());
    let mut pathfinder = PathFinder::new(5, 5);

    // Test simple path without obstacles
    let path = pathfinder
        .find_path(&grid, Pos((0, 0)), Pos((2, 2)), false)
        .expect("Should find a path");
    assert_eq!(path.len(), 5); // Should be [(0,0), (1,0), (2,0), (2,1), (2,2)]

    // Add some obstacles and test path around them
    grid.set_tuple(1, 1, Cell { is_blocked: true });
    let path = pathfinder
        .find_path(&grid, Pos((0, 0)), Pos((2, 2)), false)
        .expect("Should find a path");
    assert!(!path.is_empty()); // Should find a path around the obstacle
}

#[test]
fn gridworld_test_pathfinding_blocked() {
    let mut grid = GridWorld::new(3, 3, Cell::default());
    let mut pathfinder = PathFinder::new(3, 3);

    let blocked = Cell { is_blocked: true };

    // Create a wall of blocked cells
    grid.set_tuple(1, 0, blocked);
    grid.set_tuple(1, 1, blocked);
    grid.set_tuple(1, 2, blocked);

    // Try to find path through wall
    let path = pathfinder.find_path(&grid, Pos((0, 1)), Pos((2, 1)), false);
    assert!(path.is_none()); // Should not find a path
}

#[test]
fn test_nearby_in_order_distance_0() {
    let grid = create_test_grid();
    let nearby: Vec<_> = grid.nearby(Pos((2, 2)), 0);
    assert_eq!(nearby.len(), 1);
    assert_eq!(nearby[0].0, Pos((2, 2)));
}

#[test]
fn test_nearby_in_order_distance_1() {
    let grid = create_test_grid();
    let positions: Vec<_> = grid.nearby(Pos((2, 2)), 1).into_iter().map(|(pos, _)| pos).collect();
    // Should include center + 4 adjacent cells
    assert_eq!(positions.len(), 5);

    // Check that the center is first
    assert_eq!(positions[0], Pos((2, 2)));

    // Check that the other positions are at distance 1 and in clockwise
    // order North, East, South, West
    assert!(positions.contains(&Pos((2, 3)))); // North
    assert!(positions.contains(&Pos((3, 2)))); // East
    assert!(positions.contains(&Pos((2, 1)))); // South
    assert!(positions.contains(&Pos((1, 2)))); // West

    // Verify the ordering: center, then distance 1 in clockwise order
    assert_eq!(positions[0], Pos((2, 2))); // Center

    // The next 4 should be in clockwise order from North
    let distance_1_positions = &positions[1..5];
    let north_idx = distance_1_positions.iter().position(|&p| p == Pos((2, 3))).unwrap();
    let east_idx = distance_1_positions.iter().position(|&p| p == Pos((3, 2))).unwrap();
    let south_idx = distance_1_positions.iter().position(|&p| p == Pos((2, 1))).unwrap();
    let west_idx = distance_1_positions.iter().position(|&p| p == Pos((1, 2))).unwrap();

    assert!(north_idx < east_idx);
    assert!(east_idx < south_idx);
    assert!(south_idx < west_idx);
}

#[test]
fn test_nearby_in_order_distance_2() {
    let grid = create_test_grid();
    let positions: Vec<_> = grid.nearby(Pos((2, 2)), 2).into_iter().map(|(pos, _)| pos).collect();

    // Should include center + 4 adjacent + 8 at distance 2
    assert_eq!(positions.len(), 13);

    // Verify that positions are ordered by distance
    let manhattan_distances: Vec<_> = positions
        .iter()
        .map(|pos| {
            let dx = (pos.x() as isize - 2).abs() as usize;
            let dy = (pos.y() as isize - 2).abs() as usize;
            dx + dy
        })
        .collect();

    // Check that distances are non-decreasing
    for i in 1..manhattan_distances.len() {
        assert!(manhattan_distances[i] >= manhattan_distances[i - 1]);
    }

    // Check that we have the right number of cells at each distance
    assert_eq!(manhattan_distances.iter().filter(|&&d| d == 0).count(), 1);
    assert_eq!(manhattan_distances.iter().filter(|&&d| d == 1).count(), 4);
    assert_eq!(manhattan_distances.iter().filter(|&&d| d == 2).count(), 8);
}

#[test]
fn test_nearby_in_order_corner() {
    let grid = create_test_grid();
    let positions: Vec<_> = grid.nearby(Pos((0, 0)), 1).into_iter().map(|(pos, _)| pos).collect();

    // Corner should only have 3 cells (including itself)
    assert_eq!(positions.len(), 3);

    // Check ordering: center first, then by distance
    assert_eq!(positions[0], Pos((0, 0))); // Corner itself

    // The next 2 should be at distance 1
    let distance_1_positions = &positions[1..3];
    assert!(distance_1_positions.contains(&Pos((1, 0)))); // East
    assert!(distance_1_positions.contains(&Pos((0, 1)))); // North
}

#[test]
fn pathfinding_takes_the_shortest_detour_round_a_wall() {
    let mut grid = GridWorld::new(5, 5, Cell::default());
    for y in 0..4 {
        grid.set_tuple(2, y, Cell { is_blocked: true });
    }
    let path = grid.find_path(Pos((0, 0)), Pos((4, 0))).expect("Should find a path");
    // Up to the gap in the top row, across it and down again: 12 steps.
    assert_eq!(path.len(), 13);
    assert_eq!(path[0], Pos((0, 0)));
    assert_eq!(*path.last().unwrap(), Pos((4, 0)));
    for w in path.windows(2) {
        assert_eq!(w[0].manhattan_distance(&w[1]), 1);
        assert!(!grid.get(w[1]).is_blocked);
    }
}

#[test]
fn pathfinding_next_to_the_goal_stops_one_cell_short() {
    let grid = GridWorld::new(5, 5, Cell::default());
    let path = grid.find_path_adj(Pos((0, 0)), Pos((3, 0))).expect("Should find a path");
    assert_eq!(path, vec![Pos((0, 0)), Pos((1, 0)), Pos((2, 0))]);
}
