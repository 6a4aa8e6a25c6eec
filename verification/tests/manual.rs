use swarm_lib::bot::Action;
use swarm_lib::bot_logger::BotLogger;
use swarm_lib::manual::{parse_usize, split_words, trim, TerminalCommand, TerminalControlledBot};
use swarm_lib::simple_bot::RandomWalkBot;
use swarm_lib::types::{Dir, Pos};

#[test]
fn commands_are_read_after_trimming() {
    let mut b = TerminalControlledBot::new(BotLogger::new(1));
    assert_eq!(b.read_command("move-up\n"), TerminalCommand::Move(Dir::Up));
    assert_eq!(b.read_command("  move-left "), TerminalCommand::Move(Dir::Left));
    assert_eq!(b.read_command("move-right"), TerminalCommand::Move(Dir::Right));
    assert_eq!(b.read_command("move-down"), TerminalCommand::Move(Dir::Down));
    assert_eq!(b.read_command("move-to\r\n"), TerminalCommand::MoveTo);
    assert_eq!(b.read_command("wait"), TerminalCommand::Unknown);
    assert_eq!(b.read_command("MOVE-UP"), TerminalCommand::Unknown);
    assert_eq!(b.rpc.buffer.len(), 6);
    assert_eq!(b.rpc.buffer[4].message, "Unknown command: 'wait'");
    assert_eq!(b.rpc.buffer[0].message, "Moving UP");
}

#[test]
fn coordinates_default_to_zero() {
    let mut b = TerminalControlledBot::new(BotLogger::new(1));
    assert_eq!(b.read_coordinates("3 7\n"), Pos((3, 7)));
    assert_eq!(b.read_coordinates("  12\t  +4 9"), Pos((12, 4)));
    assert_eq!(b.read_coordinates("x 5"), Pos((0, 5)));
    assert_eq!(b.read_coordinates("8"), Pos((8, 0)));
    assert_eq!(b.read_coordinates(""), Pos((0, 0)));
    assert_eq!(b.read_coordinates("-1 99999999999999999999999"), Pos((0, 0)));
    assert_eq!(b.rpc.buffer[0].message, "Moving to coordinates (3, 7)");
}

#[test]
fn text_helpers_match_the_standard_library() {
    for s in ["", " ", "a", " a b ", "\tab\u{3000}cd\u{85}", "x\u{a0}y", "  +12  34 "] {
        assert_eq!(trim(s), s.trim());
        let words: Vec<String> = s.split_whitespace().map(|w| w.to_string()).collect();
        assert_eq!(split_words(s), words);
    }
    for s in ["0", "42", "+7", "+", "", "-3", "18446744073709551615", "18446744073709551616", "1a", "٣"] {
        assert_eq!(parse_usize(s), s.parse::<usize>().ok(), "{:?}", s);
    }
}

#[test]
fn a_random_walker_steps_somewhere() {
    let mut b = RandomWalkBot::new(BotLogger::new(2), 5, 5);
    for _ in 0..10 {
        assert!(matches!(b.update(), Some(Action::MoveDir(_))));
    }
    assert_eq!(b.ctx.buffer.len(), 10);
    assert!(b.ctx.buffer[0].message.starts_with("Moving "));
}
