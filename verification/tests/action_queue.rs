use std::collections::VecDeque;

use swarm_lib::action_queue::{
    handle_bot_actions, handle_movement, process_computed_action, ActionEnvelope, ActionQueue,
    ComputedActionKind, ComputedActionQueue, InProgressAction, QueueStatus, QueuedAction,
};
use swarm_lib::game::{CellState, ServerGrid};
use swarm_lib::gridworld::GridWorld;
use swarm_lib::types::{Dir, Pos};

fn grid() -> ServerGrid {
    let mut g: ServerGrid = GridWorld::new(5, 5, CellState::empty());
    g.set(Pos((1, 1)), CellState::new_with_pawn(3));
    g.set(Pos((2, 1)), CellState::blocked());
    g
}

fn queue(actions: &[(QueuedAction, u32)]) -> ActionQueue {
    ActionQueue(actions.iter().map(|&(action, id)| ActionEnvelope { action, id }).collect::<VecDeque<_>>())
}

#[test]
fn a_walk_becomes_single_steps_taken_one_per_tick() {
    let mut g = grid();
    let mut pos = Pos((1, 1));
    let mut incoming = queue(&[(QueuedAction::MoveTo(Pos((1, 3))), 5)]);
    let mut ip = InProgressAction { opt: None };
    let mut steps = ComputedActionQueue(VecDeque::new());
    handle_bot_actions(pos, &mut incoming, &mut ip, &mut steps, &g);
    assert!(incoming.0.is_empty());
    assert_eq!(steps.0.len(), 2);
    assert!(steps.0.iter().all(|c| c.parent_id == 5 && c.kind == ComputedActionKind::MoveDir(Dir::Up)));
    assert_eq!(ip.opt.unwrap().status, QueueStatus::InProgress);

    process_computed_action(3, &mut pos, &mut ip, &mut steps, &mut g);
    assert_eq!(pos, Pos((1, 2)));
    assert_eq!(g.get(Pos((1, 1))).pawn, None);
    assert_eq!(g.get(Pos((1, 2))).pawn, Some(3));
    assert_eq!(ip.opt.unwrap().status, QueueStatus::InProgress);

    handle_bot_actions(pos, &mut incoming, &mut ip, &mut steps, &g);
    assert_eq!(steps.0.len(), 1);
    process_computed_action(3, &mut pos, &mut ip, &mut steps, &mut g);
    assert_eq!(pos, Pos((1, 3)));
    assert_eq!(ip.opt.unwrap().status, QueueStatus::Success);

    handle_bot_actions(pos, &mut incoming, &mut ip, &mut steps, &g);
    assert!(ip.opt.is_none());
}

#[test]
fn a_step_into_a_wall_fails_the_order() {
    let mut g = grid();
    let mut pos = Pos((1, 1));
    let mut incoming = queue(&[(QueuedAction::MoveDir(Dir::Right), 1), (QueuedAction::MoveTo(Pos((1, 1))), 2)]);
    let mut ip = InProgressAction { opt: None };
    let mut steps = ComputedActionQueue(VecDeque::new());
    handle_bot_actions(pos, &mut incoming, &mut ip, &mut steps, &g);
    assert_eq!(incoming.0.len(), 1);
    process_computed_action(3, &mut pos, &mut ip, &mut steps, &mut g);
    assert_eq!(pos, Pos((1, 1)));
    assert_eq!(ip.opt.unwrap().status, QueueStatus::Failure);
    assert_eq!(g.get(Pos((1, 1))).pawn, Some(3));
    handle_bot_actions(pos, &mut incoming, &mut ip, &mut steps, &g);
    assert!(incoming.0.is_empty());
    assert!(ip.opt.is_none());
    assert!(steps.0.is_empty());
}

#[test]
fn steps_off_the_grid_fail() {
    let mut g = grid();
    let mut pos = Pos((0, 0));
    assert!(!handle_movement(9, Dir::Left, &mut pos, &mut g));
    assert!(!handle_movement(9, Dir::Down, &mut pos, &mut g));
    assert!(handle_movement(9, Dir::Up, &mut pos, &mut g));
    assert_eq!(pos, Pos((0, 1)));
}
