use swarm_lib::bot::{
    Action, ActionWithId, BotData, BotUpdate, BuildingKind, DecisionResult, FrameKind, Subsystem,
    Subsystems,
};
use swarm_lib::bot_logger::BotLogger;
use swarm_lib::econ_bot::{
    base_behavior, determine_role, existing_path_contains_pos, gatherer_behavior, EconBot,
    EconBotRole, ExplorerState, GathererState,
};
use swarm_lib::known_map::{ClientBotData, ClientCellState, KnownMap};
use swarm_lib::types::{CellKind, Dir, Energy, Item, Pos, Team};

fn data(frame: FrameKind, subsystems: &[(Subsystem, u8)], pos: Pos) -> BotData {
    BotData::new(
        frame,
        Subsystems::new(subsystems),
        pos,
        Team::Player,
        Energy(100),
        KnownMap::new(8, 8, ClientCellState::default()),
        Vec::new(),
    )
}

fn base_data() -> BotData {
    data(
        FrameKind::Building(BuildingKind::Small),
        &[(Subsystem::Assembler, 1), (Subsystem::CargoBay, 3), (Subsystem::PowerCell, 2)],
        Pos((4, 4)),
    )
}

fn update(bot_data: BotData, in_progress: bool) -> BotUpdate {
    BotUpdate {
        tick: 1,
        bot_data,
        in_progress_action: if in_progress {
            Some(ActionWithId { id: 1, action: Action::Noop, reason: "busy" })
        } else {
            None
        },
        completed_action: None,
    }
}

#[test]
fn roles_follow_frame_and_cargo() {
    assert_eq!(determine_role(&base_data()), EconBotRole::Base);
    let g = data(FrameKind::Flea, &[(Subsystem::CargoBay, 1)], Pos((1, 1)));
    assert_eq!(determine_role(&g), EconBotRole::Gatherer(GathererState::Idle));
    let e = data(FrameKind::Flea, &[], Pos((1, 1)));
    assert_eq!(determine_role(&e), EconBotRole::Explorer(ExplorerState::Idle));
}

#[test]
fn base_builds_a_flea_first() {
    let mut b = base_data();
    b.inventory.add(Item::Metal, 2);
    match base_behavior(&update(b, false)) {
        DecisionResult::Act(Action::Build(dir, frame, subsystems), reason) => {
            assert_eq!(dir, Dir::Up);
            assert_eq!(frame, FrameKind::Flea);
            assert_eq!(subsystems.get(Subsystem::CargoBay), 1);
            assert_eq!(subsystems.size(), 1);
            assert_eq!(reason, "Building Flea-Harvester");
        }
        _ => panic!("expected a build"),
    }
}

#[test]
fn base_waits_without_metal_or_while_busy() {
    let mut b = base_data();
    b.inventory.add(Item::Metal, 1);
    assert!(matches!(base_behavior(&update(b, false)), DecisionResult::Wait));
    let mut b2 = base_data();
    b2.inventory.add(Item::Metal, 9);
    assert!(matches!(base_behavior(&update(b2, true)), DecisionResult::Wait));
}

fn known(bot_id: u32, frame: FrameKind, subsystems: &[(Subsystem, u8)], pos: Pos) -> ClientBotData {
    ClientBotData {
        bot_id,
        team: Team::Player,
        last_observed: 0,
        pos,
        frame,
        subsystems: Subsystems::new(subsystems),
    }
}

#[test]
fn base_with_a_flea_builds_a_generator_then_tractors() {
    let mut b = base_data();
    b.inventory.add(Item::Metal, 7);
    b.known_bots.push(known(2, FrameKind::Flea, &[(Subsystem::CargoBay, 1)], Pos((1, 1))));
    match base_behavior(&update(b, false)) {
        DecisionResult::Act(Action::Build(dir, frame, subsystems), reason) => {
            assert_eq!(dir, Dir::Right);
            assert_eq!(frame, FrameKind::Building(BuildingKind::Small));
            assert_eq!(subsystems.get(Subsystem::Generator), 1);
            assert_eq!(subsystems.get(Subsystem::PowerCell), 5);
            assert_eq!(reason, "Building generator");
        }
        _ => panic!("expected a build"),
    }
    let mut b2 = base_data();
    b2.inventory.add(Item::Metal, 5);
    b2.known_bots.push(known(2, FrameKind::Flea, &[(Subsystem::CargoBay, 1)], Pos((1, 1))));
    b2.known_bots.push(known(3, FrameKind::Building(BuildingKind::Small), &[(Subsystem::Generator, 1)], Pos((5, 4))));
    match base_behavior(&update(b2, false)) {
        DecisionResult::Act(Action::Build(_, frame, subsystems), reason) => {
            assert_eq!(frame, FrameKind::Tractor);
            assert_eq!(subsystems.get(Subsystem::CargoBay), 4);
            assert_eq!(reason, "Building Tractor-Harvester ");
        }
        _ => panic!("expected a build"),
    }
}

#[test]
fn idle_gatherer_waits_without_a_base() {
    let g = data(FrameKind::Flea, &[(Subsystem::CargoBay, 1)], Pos((1, 1)));
    let mut state = GathererState::Idle;
    assert!(matches!(gatherer_behavior(&mut state, &update(g, false)), DecisionResult::Wait));
    assert_eq!(state, GathererState::Idle);
}

#[test]
fn gatherer_next_to_its_base_hands_over_metal() {
    let mut g = data(FrameKind::Flea, &[(Subsystem::CargoBay, 1)], Pos((3, 4)));
    g.inventory.add(Item::Metal, 1);
    g.known_bots.push(known(9, FrameKind::Building(BuildingKind::Small), &[(Subsystem::Generator, 1)], Pos((4, 4))));
    let mut cell = *g.known_map.map.get(Pos((4, 4)));
    cell.pawn = Some(9);
    cell.kind = CellKind::Empty;
    g.known_map.map.set(Pos((4, 4)), cell);
    g.energy = Energy(100);
    let mut state = GathererState::Idle;
    match gatherer_behavior(&mut state, &update(g, false)) {
        DecisionResult::Act(Action::Transfer(item, dir), reason) => {
            assert_eq!(item, Item::Metal);
            assert_eq!(dir, Dir::Right);
            assert_eq!(reason, "Transferring metal");
        }
        _ => panic!("expected a transfer"),
    }
    assert_eq!(state, GathererState::Gathering { base: Pos((4, 4)) });
}

#[test]
fn gatherer_low_on_energy_recharges_at_its_base() {
    let mut g = data(FrameKind::Flea, &[(Subsystem::CargoBay, 1)], Pos((3, 4)));
    g.known_bots.push(known(9, FrameKind::Building(BuildingKind::Small), &[(Subsystem::Generator, 1)], Pos((4, 4))));
    let mut cell = *g.known_map.map.get(Pos((4, 4)));
    cell.pawn = Some(9);
    g.known_map.map.set(Pos((4, 4)), cell);
    g.energy = Energy(20);
    let mut state = GathererState::Gathering { base: Pos((4, 4)) };
    match gatherer_behavior(&mut state, &update(g, false)) {
        DecisionResult::Act(Action::Recharge(dir), reason) => {
            assert_eq!(dir, Dir::Right);
            assert_eq!(reason, "Recharging");
        }
        _ => panic!("expected a recharge"),
    }
}

#[test]
fn gatherer_explores_unknown_cells() {
    let g = data(FrameKind::Flea, &[(Subsystem::CargoBay, 1)], Pos((3, 4)));
    let mut state = GathererState::Gathering { base: Pos((7, 7)) };
    match gatherer_behavior(&mut state, &update(g, false)) {
        DecisionResult::Act(Action::MoveTo(path), reason) => {
            assert_eq!(reason, "Exploring");
            assert_eq!(path[0], Pos((3, 4)));
        }
        _ => panic!("expected a walk"),
    }
}

#[test]
fn econ_bot_numbers_its_actions() {
    let mut bot = EconBot::new(BotLogger::new(5));
    let mut b = base_data();
    b.inventory.add(Item::Metal, 2);
    let (action, logs) = bot.update(update(b, false));
    let action = action.unwrap();
    assert_eq!(action.id, 1);
    assert_eq!(action.reason, "Building Flea-Harvester");
    assert_eq!(bot.role, EconBotRole::Base);
    assert!(logs.iter().any(|e| e.message == "Determined role: Base"));
    let (none, _) = bot.update(update(base_data(), false));
    assert!(none.is_none());
    assert_eq!(bot.action_counter, 1);
}

#[test]
fn waiting_on_a_walk_through_a_position() {
    let mut log = BotLogger::new(1);
    let walk = Some(ActionWithId {
        id: 1,
        action: Action::MoveTo(vec![Pos((0, 0)), Pos((0, 1))]),
        reason: "walk",
    });
    assert!(matches!(existing_path_contains_pos(&walk, Pos((0, 1)), &mut log), DecisionResult::Wait));
    assert!(matches!(existing_path_contains_pos(&walk, Pos((5, 5)), &mut log), DecisionResult::Continue));
    assert!(matches!(existing_path_contains_pos(&None, Pos((0, 1)), &mut log), DecisionResult::Continue));
}
