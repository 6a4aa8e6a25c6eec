use swarm_lib::harness::{map_size, Backoff, BotKind, Harness, HarnessEvent, HarnessStep, RetryStep, Session};
use swarm_lib::protocol::ConnectionError;

#[test]
fn registering_a_name_twice_keeps_one() {
    let mut h = Harness::new();
    h.register("crumbs".to_string(), BotKind::CrumbFollower);
    h.register("walk".to_string(), BotKind::RandomWalk);
    h.register("crumbs".to_string(), BotKind::RandomWalk);
    assert_eq!(h.bot_types, vec!["crumbs".to_string(), "walk".to_string()]);
    assert!(h.is_registered(&"walk".to_string()));
    assert!(!h.is_registered(&"other".to_string()));
    assert_eq!(h.kind_of(&"crumbs".to_string()), Some(BotKind::RandomWalk));
    assert_eq!(h.kind_of(&"walk".to_string()), Some(BotKind::RandomWalk));
    assert_eq!(h.kind_of(&"other".to_string()), None);
}

#[test]
fn messages_drive_the_session() {
    let mut h = Harness::new();
    h.register("crumbs".to_string(), BotKind::CrumbFollower);
    let mut s = Session::new();
    assert!(matches!(h.on_message(&mut s, HarnessEvent::ConnectAck { map_size: (30, 20) }), HarnessStep::MapSizeSet));
    assert_eq!(map_size(&s), (30, 20));
    match h.on_message(&mut s, HarnessEvent::AssignBot { bot_id: 7, bot_type: "crumbs".to_string() }) {
        HarnessStep::Spawn { bot_id, bot_type, kind } => {
            assert_eq!(bot_id, 7);
            assert_eq!(bot_type, "crumbs");
            assert_eq!(kind, BotKind::CrumbFollower);
        }
        _ => panic!("expected a spawn"),
    }
    assert_eq!(s.channels, vec![7]);
    assert!(matches!(h.on_message(&mut s, HarnessEvent::ServerUpdate { bot_id: 7 }), HarnessStep::Forward { bot_id: 7 }));
    assert!(matches!(h.on_message(&mut s, HarnessEvent::KillBot { bot_id: 7 }), HarnessStep::Kill { bot_id: 7 }));
    assert!(matches!(h.on_message(&mut s, HarnessEvent::KillBot { bot_id: 7 }), HarnessStep::KillUnknown { bot_id: 7 }));
    assert!(s.kill_signals.is_empty());
    assert!(matches!(h.on_message(&mut s, HarnessEvent::Close), HarnessStep::Shutdown));
}

#[test]
fn backoff_doubles_the_wait_and_gives_up_at_the_limit() {
    let mut b = Backoff::new(3, 100_000_000);
    assert!(b.may_try());
    assert!(matches!(b.on_failure(), RetryStep::Wait { nanos: 100_000_000 }));
    assert!(matches!(b.on_failure(), RetryStep::Wait { nanos: 200_000_000 }));
    assert!(matches!(b.on_failure(), RetryStep::GiveUp(ConnectionError::MaxRetriesExceeded { attempts: 3 })));
    assert!(!b.may_try());
    let none = Backoff::new(0, 5);
    assert!(!none.may_try());
    assert!(matches!(none.exhausted(), ConnectionError::MaxRetriesExceeded { attempts: 0 }));
}
