use swarm_lib::bot::{
    Action, ActionStatus, ActionWithId, BotData, FrameKind, Subsystem, Subsystems,
};
use swarm_lib::game::{is_action_invalid, ActionContainer, ActionState, BotEntry, CellState, ServerGrid};
use swarm_lib::gridworld::GridWorld;
use swarm_lib::known_map::{ClientCellState, KnownMap};
use swarm_lib::types::{CellKind, Dir, Energy, Item, Pos, Team};
use swarm_lib::world::{create_bot_update, get_reason, receive_action, World};

fn bot_data(frame: FrameKind, subsystems: &[(Subsystem, u8)], pos: Pos, energy: u32) -> BotData {
    BotData::new(
        frame,
        Subsystems::new(subsystems),
        pos,
        Team::Player,
        Energy(energy),
        KnownMap::new(6, 6, ClientCellState::default()),
        Vec::new(),
    )
}

fn entry(entity: u64, data: BotData) -> BotEntry {
    BotEntry { entity, bot_id: entity as u32, data, current_action: None, past_actions: Vec::new() }
}

fn world_with(bots: Vec<BotEntry>) -> World {
    let mut grid: ServerGrid = GridWorld::new(6, 6, CellState::empty());
    for b in &bots {
        grid.set(b.data.pos, CellState::new_with_pawn(b.entity));
    }
    World { tick: 3, grid, bots, partially_built: Vec::new(), next_entity: 10, next_bot_id: 10 }
}

fn pending(kind: Action, state: ActionState) -> Option<ActionContainer> {
    Some(ActionContainer { kind, id: 7, state, reason: "test" })
}

#[test]
fn move_into_free_cell_is_valid_and_moves_the_pawn() {
    let mut b = entry(1, bot_data(FrameKind::Flea, &[], Pos((2, 2)), 50));
    b.current_action = pending(Action::MoveDir(Dir::Up), ActionState::Simple);
    let mut w = world_with(vec![b]);
    w.validate_actions();
    assert!(w.bots[0].current_action.is_some());
    w.apply_actions();
    assert!(w.bots[0].current_action.is_none());
    assert_eq!(w.bots[0].data.pos, Pos((2, 3)));
    assert_eq!(w.bots[0].data.energy, Energy(49));
    assert_eq!(w.grid.get(Pos((2, 3))).pawn, Some(1));
    assert_eq!(w.grid.get(Pos((2, 2))).pawn, None);
    let res = w.bots[0].past_actions.last().unwrap();
    assert_eq!(res.status, ActionStatus::Success);
    assert_eq!(res.completed_tick, 3);
    assert_eq!(res.id, 7);
}

#[test]
fn action_without_energy_fails_validation() {
    let mut b = entry(1, bot_data(FrameKind::Flea, &[], Pos((2, 2)), 0));
    b.current_action = pending(Action::MoveDir(Dir::Up), ActionState::Simple);
    let mut w = world_with(vec![b]);
    w.validate_actions();
    assert!(w.bots[0].current_action.is_none());
    let res = w.bots[0].past_actions.last().unwrap();
    assert_eq!(res.status, ActionStatus::Failure("Insufficient Energy".to_string()));
    assert_eq!(res.completed_tick, 3);
}

#[test]
fn validation_errors_name_the_reason() {
    let a = entry(1, bot_data(FrameKind::Flea, &[], Pos((0, 0)), 100));
    let b = entry(2, bot_data(FrameKind::Flea, &[(Subsystem::CargoBay, 1)], Pos((0, 1)), 50));
    let w = world_with(vec![a, b]);
    let none: Vec<(u64, swarm_lib::game::PartiallyBuiltBot)> = Vec::new();
    let check = |kind: &Action, who: usize| {
        is_action_invalid(kind, &ActionState::Simple, &w.grid, &w.bots[who].data, &w.bots, &none)
    };
    assert_eq!(check(&Action::MoveDir(Dir::Down), 0), Err("Invalid Recharge: Out of bounds".to_string()));
    assert_eq!(check(&Action::MoveDir(Dir::Up), 0), Err("Invalid Move: Cannot enter cell".to_string()));
    assert_eq!(check(&Action::Pickup(Item::Metal, None), 0), Err("Insufficient Capabilities".to_string()));
    assert_eq!(check(&Action::Pickup(Item::Metal, None), 1), Err("Invalid Pickup: No item".to_string()));
    assert_eq!(check(&Action::Drop(Item::Metal, None), 1), Err("Invalid Drop: No item".to_string()));
    assert_eq!(check(&Action::Transfer(Item::Metal, Dir::Right), 1), Err("Invalid Transfer: No pawn".to_string()));
    assert_eq!(check(&Action::Transfer(Item::Metal, Dir::Down), 1), Err("Invalid Transfer: No item".to_string()));
    assert_eq!(check(&Action::Recharge(Dir::Right), 0), Err("Invalid Recharge: No pawn".to_string()));
    assert_eq!(
        check(&Action::Recharge(Dir::Up), 0),
        Err("Invalid Recharge: Bot has excess energy".to_string())
    );
    assert_eq!(check(&Action::Noop, 0), Ok(()));
    assert_eq!(
        is_action_invalid(&Action::MoveTo(vec![]), &ActionState::Simple, &w.grid, &w.bots[0].data, &w.bots, &none),
        Err("Invalid Move: Empty path".to_string())
    );
    assert_eq!(
        is_action_invalid(
            &Action::MoveTo(vec![Pos((0, 0)), Pos((1, 0))]),
            &ActionState::Simple,
            &w.grid,
            &w.bots[0].data,
            &w.bots,
            &none
        ),
        Err("Invalid Move: Not a move to action".to_string())
    );
    assert_eq!(
        is_action_invalid(
            &Action::MoveTo(vec![Pos((0, 0)), Pos((2, 0))]),
            &ActionState::MoveTo { idx: 1 },
            &w.grid,
            &w.bots[0].data,
            &w.bots,
            &none
        ),
        Err("Invalid Move: Next position must be adjacent".to_string())
    );
}

#[test]
fn walking_a_path_takes_one_step_per_tick() {
    let mut b = entry(1, bot_data(FrameKind::Flea, &[], Pos((0, 0)), 50));
    let path = vec![Pos((0, 0)), Pos((1, 0)), Pos((2, 0))];
    receive_action(&mut b, ActionWithId { id: 1, action: Action::MoveTo(path), reason: "walk" }, 3);
    let mut w = world_with(vec![b]);
    w.validate_actions();
    w.apply_actions();
    assert_eq!(w.bots[0].data.pos, Pos((1, 0)));
    assert!(w.bots[0].current_action.is_some());
    w.update_tick();
    w.validate_actions();
    w.apply_actions();
    assert_eq!(w.bots[0].data.pos, Pos((2, 0)));
    assert!(w.bots[0].current_action.is_none());
    assert_eq!(w.bots[0].past_actions.last().unwrap().completed_tick, 4);
    assert_eq!(w.bots[0].data.energy, Energy(48));
}

#[test]
fn new_action_cancels_the_pending_one() {
    let mut b = entry(1, bot_data(FrameKind::Flea, &[], Pos((0, 0)), 50));
    receive_action(&mut b, ActionWithId { id: 1, action: Action::Noop, reason: "first" }, 5);
    receive_action(&mut b, ActionWithId { id: 2, action: Action::MoveDir(Dir::Up), reason: "second" }, 5);
    let c = b.current_action.as_ref().unwrap();
    assert_eq!(c.id, 2);
    assert_eq!(c.state, ActionState::Simple);
    assert_eq!(b.past_actions.len(), 1);
    assert_eq!(b.past_actions[0].status, ActionStatus::Cancelled);
    assert_eq!(b.past_actions[0].id, 1);
    assert_eq!(b.past_actions[0].completed_tick, 5);
    receive_action(
        &mut b,
        ActionWithId { id: 3, action: Action::MoveTo(vec![Pos((0, 0))]), reason: "stay" },
        5,
    );
    assert_eq!(b.current_action.as_ref().unwrap().state, ActionState::MoveTo { idx: 0 });
}

#[test]
fn bot_update_reports_the_action_ended_this_tick() {
    let mut b = entry(1, bot_data(FrameKind::Flea, &[], Pos((2, 2)), 50));
    b.current_action = pending(Action::Noop, ActionState::Simple);
    let mut w = world_with(vec![b]);
    w.validate_actions();
    w.apply_actions();
    let u = create_bot_update(&w.bots[0], 3);
    assert_eq!(u.tick, 3);
    assert!(u.in_progress_action.is_none());
    assert_eq!(u.completed_action.unwrap().status, ActionStatus::Success);
    let later = create_bot_update(&w.bots[0], 4);
    assert!(later.completed_action.is_none());
    assert_eq!(later.bot_data.pos, Pos((2, 2)));
}

#[test]
fn transfer_reaches_the_neighbour_after_the_tick() {
    let mut a = entry(1, bot_data(FrameKind::Flea, &[(Subsystem::CargoBay, 1)], Pos((1, 1)), 50));
    a.data.inventory.add(Item::Metal, 2);
    a.current_action = pending(Action::Transfer(Item::Metal, Dir::Right), ActionState::Simple);
    let b = entry(2, bot_data(FrameKind::Flea, &[(Subsystem::CargoBay, 1)], Pos((2, 1)), 50));
    let mut w = world_with(vec![a, b]);
    w.validate_actions();
    w.apply_actions();
    assert_eq!(w.bots[0].data.inventory.get(Item::Metal), 1);
    assert_eq!(w.bots[1].data.inventory.get(Item::Metal), 1);
    assert_eq!(w.bots[0].data.energy, Energy(48));
}

#[test]
fn recharge_draws_energy_from_the_neighbour() {
    let mut a = entry(1, bot_data(FrameKind::Flea, &[], Pos((1, 1)), 40));
    a.current_action = pending(Action::Recharge(Dir::Right), ActionState::Simple);
    let b = entry(2, bot_data(FrameKind::Flea, &[], Pos((2, 1)), 80));
    let mut w = world_with(vec![a, b]);
    w.validate_actions();
    w.apply_actions();
    assert_eq!(w.bots[0].data.energy, Energy(50));
    assert_eq!(w.bots[1].data.energy, Energy(70));
}

#[test]
fn building_a_flea_spawns_a_new_bot() {
    let mut base = entry(
        1,
        bot_data(
            FrameKind::Building(swarm_lib::bot::BuildingKind::Small),
            &[(Subsystem::Assembler, 1), (Subsystem::CargoBay, 3)],
            Pos((2, 2)),
            300,
        ),
    );
    base.data.inventory.add(Item::Metal, 5);
    let build = Action::Build(Dir::Up, FrameKind::Flea, Subsystems::new(&[(Subsystem::CargoBay, 1)]));
    base.current_action = pending(build, ActionState::Simple);
    let mut w = world_with(vec![base]);
    // Flea costs 2 ticks of frame and 1 of cargo bay: 3 ticks, then completion.
    for _ in 0..5 {
        w.validate_actions();
        w.apply_actions();
        w.update_tick();
        if w.bots.len() == 2 {
            break;
        }
    }
    assert_eq!(w.bots.len(), 2);
    assert_eq!(w.bots[1].data.frame, FrameKind::Flea);
    assert_eq!(w.bots[1].data.pos, Pos((2, 3)));
    assert_eq!(w.bots[1].data.energy, Energy(100));
    assert_eq!(w.bots[1].bot_id, 10);
    assert_eq!(w.bots[1].entity, 10);
    assert_eq!(w.bots[0].data.inventory.get(Item::Metal), 3);
    assert!(w.partially_built.is_empty());
    assert_eq!(w.grid.get(Pos((2, 3))).pawn, Some(10));
    assert_eq!(w.next_bot_id, 11);
}

#[test]
fn generators_fill_up_to_the_maximum() {
    let mut a = entry(1, bot_data(FrameKind::Tractor, &[(Subsystem::Generator, 1)], Pos((1, 1)), 99));
    a.data.energy = Energy(99);
    let b = entry(2, bot_data(FrameKind::Tractor, &[], Pos((3, 3)), 10));
    let mut w = world_with(vec![a, b]);
    w.generate_energy();
    assert_eq!(w.bots[0].data.energy, Energy(100));
    assert_eq!(w.bots[1].data.energy, Energy(10));
    w.generate_energy();
    assert_eq!(w.bots[0].data.energy, Energy(100));
}

#[test]
fn bots_pick_up_crumbs_and_fent_where_they_stand() {
    let a = entry(1, bot_data(FrameKind::Flea, &[(Subsystem::CargoBay, 1)], Pos((1, 1)), 10));
    let b = entry(2, bot_data(FrameKind::Flea, &[(Subsystem::CargoBay, 1)], Pos((3, 3)), 10));
    let mut w = world_with(vec![a, b]);
    let mut c = *w.grid.get(Pos((1, 1)));
    c.item = Some(Item::Crumb);
    w.grid.set(Pos((1, 1)), c);
    let mut f = *w.grid.get(Pos((3, 3)));
    f.item = Some(Item::Fent);
    w.grid.set(Pos((3, 3)), f);
    w.pickup_crumbs();
    w.pickup_fent();
    assert_eq!(w.bots[0].data.inventory.get(Item::Crumb), 1);
    assert_eq!(w.bots[1].data.inventory.get(Item::Fent), 1);
    assert_eq!(w.grid.get(Pos((1, 1))).item, None);
    assert_eq!(w.grid.get(Pos((3, 3))).item, None);
}

#[test]
fn a_team_wins_with_fent_and_two_truffles() {
    let mut a = entry(1, bot_data(FrameKind::Flea, &[(Subsystem::CargoBay, 1)], Pos((1, 1)), 10));
    let mut w0 = world_with(vec![entry(2, bot_data(FrameKind::Flea, &[], Pos((3, 3)), 10))]);
    assert_eq!(w0.check_win_condition(None), None);
    a.data.inventory.add(Item::Fent, 1);
    a.data.inventory.add(Item::Truffle, 1);
    w0.bots.push(a);
    assert_eq!(w0.check_win_condition(None), None);
    w0.bots[1].data.inventory.add(Item::Truffle, 1);
    assert_eq!(w0.check_win_condition(None), Some(Team::Player));
    assert_eq!(w0.check_win_condition(Some(Team::Enemy)), Some(Team::Enemy));
}

#[test]
fn cells_from_a_client_view_map_bot_ids_to_entities() {
    let mut ids = std::collections::HashMap::new();
    ids.insert(4u32, 40u64);
    let map = swarm_lib::game::BotIdToEntity(ids);
    let seen = ClientCellState { kind: CellKind::Empty, pawn: Some(4), item: Some(Item::Metal), last_observed: 2 };
    let cell = CellState::from_client_state(&seen, &map);
    assert_eq!(cell.pawn, Some(40));
    assert_eq!(cell.item, Some(Item::Metal));
    assert!(!cell.can_enter());
    assert!(CellState::empty().can_enter());
    assert!(!CellState::blocked().can_enter());
}

#[test]
fn the_reason_shown_is_the_current_or_just_finished_action() {
    let mut b = entry(1, bot_data(FrameKind::Flea, &[], Pos((2, 2)), 50));
    assert_eq!(get_reason(5, &b), None);
    b.past_actions.push(swarm_lib::bot::ActionResult {
        action: Action::Noop,
        id: 1,
        status: ActionStatus::Success,
        reason: "rest",
        completed_tick: 4,
    });
    assert_eq!(get_reason(5, &b), Some("rest"));
    assert_eq!(get_reason(6, &b), None);
    b.current_action = pending(Action::MoveDir(Dir::Up), ActionState::Simple);
    assert_eq!(get_reason(6, &b), Some("test"));
}

#[test]
fn every_bot_gets_an_update_with_its_id() {
    let mut b = entry(1, bot_data(FrameKind::Flea, &[], Pos((2, 2)), 50));
    b.current_action = pending(Action::MoveDir(Dir::Up), ActionState::Simple);
    let c = entry(2, bot_data(FrameKind::Flea, &[], Pos((3, 3)), 20));
    let w = world_with(vec![b, c]);
    let ups = w.create_server_updates();
    assert_eq!(ups.len(), 2);
    assert_eq!(ups[0].0, 1);
    assert_eq!(ups[1].0, 2);
    assert_eq!(ups[0].1.tick, 3);
    assert_eq!(ups[0].1.in_progress_action.as_ref().unwrap().id, 7);
    assert!(ups[1].1.in_progress_action.is_none());
    assert_eq!(ups[1].1.bot_data.energy, Energy(20));
}

#[test]
fn bots_at_the_edge_stay_on_the_grid() {
    let mut a = entry(1, bot_data(FrameKind::Flea, &[], Pos((0, 5)), 50));
    a.current_action = pending(Action::MoveDir(Dir::Up), ActionState::Simple);
    let mut b = entry(2, bot_data(FrameKind::Flea, &[], Pos((5, 0)), 50));
    b.current_action = pending(Action::MoveDir(Dir::Right), ActionState::Simple);
    let mut w = world_with(vec![a, b]);
    w.validate_actions();
    w.apply_actions();
    w.update_tick();
    for bot in &w.bots {
        assert!(w.grid.in_bounds(&bot.data.pos));
        assert!(matches!(bot.past_actions.last().unwrap().status, ActionStatus::Failure(_)));
    }
    assert_eq!(w.bots[0].data.pos, Pos((0, 5)));
    assert_eq!(w.bots[1].data.pos, Pos((5, 0)));
}
