use swarm_lib::bot::Action;
use swarm_lib::bot_logger::BotLogger;
use swarm_lib::crumb_follower::{dir_of_roll, find_item, turn_needed, unknown_cells, CrumbFollower};
use swarm_lib::gridworld::GridWorld;
use swarm_lib::known_map::ClientCellState;
use swarm_lib::radar::{CellStateRadar, RadarData};
use swarm_lib::types::{CellKind, Dir, Item, Pos};

fn seen(kind: CellKind, item: Option<Item>) -> ClientCellState {
    ClientCellState { kind, pawn: None, item, last_observed: 1 }
}

fn open_map(w: usize, h: usize) -> GridWorld<ClientCellState> {
    GridWorld::new(w, h, seen(CellKind::Empty, None))
}

fn cell(kind: CellKind, item: Option<Item>, x: usize, y: usize) -> CellStateRadar {
    CellStateRadar { kind, pawn: None, item, pos: Pos((x, y)) }
}

fn follower(grid: GridWorld<ClientCellState>) -> CrumbFollower {
    let mut f = CrumbFollower::new(BotLogger::new(3), grid.width(), grid.height());
    f.grid = grid;
    f
}

fn empty_radar(center: Pos) -> RadarData {
    RadarData { center_world_pos: center, pawns: vec![], cells: vec![] }
}

fn path_of(a: &Action) -> Vec<Pos> {
    match a {
        Action::MoveTo(p) => p.clone(),
        other => panic!("expected a move along a path, got {:?}", other),
    }
}

fn assert_walk(p: &[Pos], from: Pos, to: Pos) {
    assert_eq!(p[0], from);
    assert_eq!(*p.last().unwrap(), to);
    for w in p.windows(2) {
        let d = (w[0].x() as i64 - w[1].x() as i64).abs() + (w[0].y() as i64 - w[1].y() as i64).abs();
        assert_eq!(d, 1);
    }
}

#[test]
fn known_fent_is_walked_to_first() {
    let mut g = open_map(6, 6);
    g.set(Pos((4, 4)), seen(CellKind::Empty, Some(Item::Fent)));
    g.set(Pos((1, 1)), seen(CellKind::Empty, Some(Item::Truffle)));
    let mut f = follower(g);
    let radar = RadarData {
        center_world_pos: Pos((0, 0)),
        pawns: vec![],
        cells: vec![cell(CellKind::Empty, Some(Item::Truffle), 0, 1)],
    };
    let a = f.determine_next_action(Pos((0, 0)), &radar, 5);
    assert_walk(&path_of(&a), Pos((0, 0)), Pos((4, 4)));
    assert_eq!(f.default_dir, Dir::Up);
}

#[test]
fn a_truffle_next_to_the_bot_is_harvested() {
    let mut f = follower(open_map(6, 6));
    let radar = RadarData {
        center_world_pos: Pos((2, 2)),
        pawns: vec![],
        cells: vec![
            cell(CellKind::Empty, Some(Item::Truffle), 2, 1),
            cell(CellKind::Empty, Some(Item::Truffle), 1, 2),
        ],
    };
    let a = f.determine_next_action(Pos((2, 2)), &radar, 5);
    assert!(matches!(a, Action::Harvest(Dir::Down)));
}

#[test]
fn a_remembered_truffle_is_approached_from_its_right() {
    let mut g = open_map(6, 6);
    g.set(Pos((1, 4)), seen(CellKind::Empty, Some(Item::Truffle)));
    let mut f = follower(g);
    let a = f.determine_next_action(Pos((4, 0)), &empty_radar(Pos((4, 0))), 5);
    assert_walk(&path_of(&a), Pos((4, 0)), Pos((2, 4)));
}

#[test]
fn a_crumb_in_the_reading_is_followed() {
    let mut f = follower(open_map(6, 6));
    let radar = RadarData {
        center_world_pos: Pos((0, 0)),
        pawns: vec![],
        cells: vec![cell(CellKind::Empty, None, 0, 1), cell(CellKind::Empty, Some(Item::Crumb), 3, 2)],
    };
    let a = f.determine_next_action(Pos((0, 0)), &radar, 5);
    assert_walk(&path_of(&a), Pos((0, 0)), Pos((3, 2)));
}

#[test]
fn an_unknown_cell_is_explored() {
    let mut g = open_map(5, 5);
    g.set(Pos((3, 3)), ClientCellState::default());
    let mut f = follower(g);
    let a = f.determine_next_action(Pos((0, 0)), &empty_radar(Pos((0, 0))), 5);
    assert_walk(&path_of(&a), Pos((0, 0)), Pos((3, 3)));
}

#[test]
fn with_nothing_to_do_the_bot_turns_away_from_a_wall() {
    let mut f = follower(open_map(5, 5));
    let radar = RadarData {
        center_world_pos: Pos((2, 2)),
        pawns: vec![],
        cells: vec![cell(CellKind::Blocked, None, 2, 3)],
    };
    let a = f.determine_next_action(Pos((2, 2)), &radar, 5);
    assert!(matches!(a, Action::MoveDir(d) if d == f.default_dir));
}

#[test]
fn turning_depends_on_the_coin_and_the_cell_ahead() {
    assert!(turn_needed(true, Some(cell(CellKind::Empty, None, 0, 0))));
    assert!(turn_needed(false, None));
    assert!(turn_needed(false, Some(cell(CellKind::Blocked, None, 0, 0))));
    assert!(!turn_needed(false, Some(cell(CellKind::Empty, None, 0, 0))));
    assert_eq!(dir_of_roll(0), Dir::Up);
    assert_eq!(dir_of_roll(3), Dir::Right);
}

#[test]
fn items_and_unknown_cells_are_found_column_by_column() {
    let mut g = open_map(4, 4);
    g.set(Pos((2, 0)), seen(CellKind::Empty, Some(Item::Fent)));
    g.set(Pos((1, 3)), seen(CellKind::Empty, Some(Item::Fent)));
    g.set(Pos((3, 1)), ClientCellState::default());
    g.set(Pos((0, 2)), ClientCellState::default());
    assert_eq!(find_item(&g, Item::Fent), Some((1, 3)));
    assert_eq!(find_item(&g, Item::Metal), None);
    assert_eq!(unknown_cells(&g), vec![(0, 2), (3, 1)]);
}

#[test]
fn an_update_waits_while_an_action_is_in_progress() {
    let mut f = follower(open_map(5, 5));
    let radar = RadarData {
        center_world_pos: Pos((1, 1)),
        pawns: vec![],
        cells: vec![cell(CellKind::Blocked, Some(Item::Metal), 1, 2)],
    };
    let busy = swarm_lib::bot::ActionWithId { id: 1, action: Action::Noop, reason: "" };
    let (r, _) = f.update(4, Pos((1, 1)), &radar, Some(busy));
    assert!(r.is_none());
    assert_eq!(f.action_counter, 0);
    assert_eq!(f.grid.get(Pos((1, 2))).kind, CellKind::Blocked);
    assert_eq!(f.grid.get(Pos((1, 2))).last_observed, 4);
    let (r, _) = f.update(5, Pos((1, 1)), &radar, None);
    let a = r.unwrap();
    assert_eq!(a.id, 1);
    assert_eq!(f.action_counter, 1);
    assert_eq!(f.ctx.current_tick, 5);
}
