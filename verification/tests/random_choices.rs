use std::collections::VecDeque;

use swarm_lib::action_queue::{
    handle_bot_actions, ActionEnvelope, ActionQueue, ComputedActionQueue, InProgressAction, QueuedAction,
};
use swarm_lib::bot::Action;
use swarm_lib::bot_logger::BotLogger;
use swarm_lib::crumb_follower::{listed_cell, next_default_dir};
use swarm_lib::game::{CellState, ServerGrid};
use swarm_lib::gridworld::GridWorld;
use swarm_lib::harness::{io_step, IoStep};
use swarm_lib::interrupt_bot::{explore_dir, is_blocked_ahead};
use swarm_lib::known_map::ClientCellState;
use swarm_lib::protocol::ConnectionError;
use swarm_lib::radar::CellStateRadar;
use swarm_lib::simple_bot::{roll_step, RandomWalkBot};
use swarm_lib::types::{CellKind, Dir, Pos};

#[test]
fn each_roll_gives_its_step() {
    assert!(matches!(roll_step(0), Action::MoveDir(Dir::Up)));
    assert!(matches!(roll_step(1), Action::MoveDir(Dir::Down)));
    assert!(matches!(roll_step(2), Action::MoveDir(Dir::Left)));
    assert!(matches!(roll_step(3), Action::MoveDir(Dir::Right)));
}

#[test]
fn a_random_walker_moves_and_logs_the_move() {
    let mut bot = RandomWalkBot::new(BotLogger::new(4), 5, 5);
    let a = bot.update();
    assert!(matches!(a, Some(Action::MoveDir(_))));
    let (_, logs) = bot.ctx.flush_buffer();
    assert_eq!(logs.len(), 1);
    assert!(logs[0].message.starts_with("Moving "));
}

fn radar_cell(kind: CellKind) -> CellStateRadar {
    CellStateRadar { pos: Pos((0, 0)), kind, pawn: None, item: None }
}

#[test]
fn the_default_direction_turns_by_chance_or_at_a_wall() {
    let open = Some(radar_cell(CellKind::Empty));
    let wall = Some(radar_cell(CellKind::Blocked));
    assert_eq!(next_default_dir(Dir::Up, false, open, 3), Dir::Up);
    assert_eq!(next_default_dir(Dir::Up, true, open, 3), Dir::Right);
    assert_eq!(next_default_dir(Dir::Up, false, wall, 2), Dir::Left);
    assert_eq!(next_default_dir(Dir::Up, false, None, 1), Dir::Down);
}

#[test]
fn the_explorer_turns_by_chance_or_when_blocked_ahead() {
    assert_eq!(explore_dir(Dir::Left, false, false, 0), Dir::Left);
    assert_eq!(explore_dir(Dir::Left, true, false, 0), Dir::Up);
    assert_eq!(explore_dir(Dir::Left, false, true, 3), Dir::Right);
    let mut map = GridWorld::new(3, 3, ClientCellState::default());
    map.set(Pos((1, 2)), ClientCellState { kind: CellKind::Blocked, ..ClientCellState::default() });
    assert!(is_blocked_ahead(&map, Pos((1, 1)), Dir::Up));
    assert!(!is_blocked_ahead(&map, Pos((1, 1)), Dir::Down));
    assert!(is_blocked_ahead(&map, Pos((0, 1)), Dir::Left));
    assert!(is_blocked_ahead(&map, Pos((2, 1)), Dir::Right));
}

#[test]
fn the_drawn_index_picks_that_cell() {
    let cells = vec![(1, 2), (3, 4), (5, 6)];
    assert_eq!(listed_cell(&cells, 1), Pos((3, 4)));
}

#[test]
fn sends_and_receives_try_until_out_of_time_or_tries() {
    assert!(matches!(io_step(0, 3, false, 5), IoStep::Try));
    assert!(matches!(io_step(1, 3, true, 5001), IoStep::TimedOut(ConnectionError::Timeout { duration_ms: 5001 })));
    assert!(matches!(io_step(3, 3, true, 1), IoStep::GiveUp(ConnectionError::MaxRetriesExceeded { attempts: 3 })));
}

#[test]
fn a_walk_to_a_target_off_the_grid_has_no_steps() {
    let g: ServerGrid = GridWorld::new(5, 5, CellState::empty());
    let mut incoming = ActionQueue(VecDeque::from(vec![ActionEnvelope { action: QueuedAction::MoveTo(Pos((40, 2))), id: 9 }]));
    let mut ip = InProgressAction { opt: None };
    let mut steps = ComputedActionQueue(VecDeque::new());
    handle_bot_actions(Pos((1, 1)), &mut incoming, &mut ip, &mut steps, &g);
    assert!(incoming.0.is_empty());
    assert!(steps.0.is_empty());
    assert!(ip.opt.is_none());
}
