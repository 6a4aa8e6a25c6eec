use rand::rngs::SmallRng;
use rand::SeedableRng;
use swarm_lib::bot::{Action, ActionWithId, BotData, BotUpdate, FrameKind, Subsystems};
use swarm_lib::bot_logger::BotLogger;
use swarm_lib::interrupt_bot::InterruptBot;
use swarm_lib::known_map::{ClientCellState, KnownMap};
use swarm_lib::types::{CellKind, Dir, Energy, Item, Pos, Team};

fn seen(item: Option<Item>) -> ClientCellState {
    ClientCellState { kind: CellKind::Empty, pawn: None, item, last_observed: 1 }
}

fn bot() -> InterruptBot {
    InterruptBot {
        ctx: BotLogger::new(4),
        rng: SmallRng::seed_from_u64(4),
        default_dir: Dir::Up,
        action_counter: 0,
        seen_bots: Vec::new(),
    }
}

fn update(pos: Pos, items: &[(Pos, Item)], in_progress: Option<ActionWithId>) -> BotUpdate {
    let mut map = KnownMap::new(6, 6, seen(None));
    for &(p, it) in items {
        map.map.set(p, seen(Some(it)));
    }
    let data = BotData::new(FrameKind::Flea, Subsystems::new(&[]), pos, Team::Player, Energy(50), map, Vec::new());
    BotUpdate { tick: 3, bot_data: data, in_progress_action: in_progress, completed_action: None }
}

fn walking(path: Vec<Pos>) -> Option<ActionWithId> {
    Some(ActionWithId { id: 9, action: Action::MoveTo(path), reason: "walk" })
}

#[test]
fn fent_on_the_map_is_walked_to() {
    let mut b = bot();
    let (a, _) = b.update(update(Pos((0, 0)), &[(Pos((3, 4)), Item::Fent)], None));
    let a = a.unwrap();
    assert_eq!(a.reason, "Going to Fent");
    assert_eq!(a.id, 1);
    match a.action {
        Action::MoveTo(p) => {
            assert_eq!(p[0], Pos((0, 0)));
            assert_eq!(*p.last().unwrap(), Pos((3, 4)));
        }
        other => panic!("unexpected {:?}", other),
    }
}

#[test]
fn a_walk_through_the_fent_is_waited_for() {
    let mut b = bot();
    let (a, _) = b.update(update(
        Pos((0, 0)),
        &[(Pos((0, 2)), Item::Fent)],
        walking(vec![Pos((0, 0)), Pos((0, 1)), Pos((0, 2))]),
    ));
    assert!(a.is_none());
    assert_eq!(b.action_counter, 1);
}

#[test]
fn a_truffle_next_to_the_bot_is_picked_up() {
    let mut b = bot();
    let (a, _) = b.update(update(Pos((2, 2)), &[(Pos((3, 2)), Item::Truffle)], None));
    let a = a.unwrap();
    assert!(matches!(a.action, Action::Pickup(Item::Truffle, Some(Dir::Right))));
    assert_eq!(a.reason, "Picking up Truffle");
}

#[test]
fn a_truffle_under_the_bot_is_approached_from_its_right() {
    let mut b = bot();
    let (a, _) = b.update(update(Pos((2, 2)), &[(Pos((2, 2)), Item::Truffle)], None));
    let a = a.unwrap();
    assert_eq!(a.reason, "Going to truffle");
    match a.action {
        Action::MoveTo(p) => assert_eq!(*p.last().unwrap(), Pos((3, 2))),
        other => panic!("unexpected {:?}", other),
    }
}

#[test]
fn a_running_action_is_waited_for_before_crumbs() {
    let mut b = bot();
    let (a, _) = b.update(update(Pos((0, 0)), &[(Pos((4, 4)), Item::Crumb)], walking(vec![Pos((0, 0)), Pos((1, 0))])));
    assert!(a.is_none());
    let (a, _) = b.update(update(Pos((0, 0)), &[(Pos((4, 4)), Item::Crumb), (Pos((1, 1)), Item::Crumb)], None));
    let a = a.unwrap();
    assert_eq!(a.reason, "Following crumbs");
    assert_eq!(a.id, 2);
    match a.action {
        Action::MoveTo(p) => assert_eq!(*p.last().unwrap(), Pos((1, 1))),
        other => panic!("unexpected {:?}", other),
    }
}

#[test]
fn with_nothing_known_the_bot_explores_randomly() {
    let mut b = bot();
    let (a, _) = b.update(update(Pos((0, 0)), &[], None));
    let a = a.unwrap();
    assert_eq!(a.reason, "Exploring randomly");
    assert!(matches!(a.action, Action::MoveDir(d) if d == b.default_dir));
}
