use swarm_lib::bot::{BotData, BotUpdate, FrameKind, Subsystems};
use swarm_lib::bot_logger::{
    format_file_line, format_system_time, is_leap_year, BotLogger, LogEntry, LogLevel,
};
use swarm_lib::known_map::{ClientCellState, KnownMap};
use swarm_lib::text::{push_i64, push_padded, push_repeat, push_str, push_u64};
use swarm_lib::types::{Energy, Item, Pos, Team};

#[test]
fn epoch_is_formatted_as_the_first_instant_of_1970() {
    assert_eq!(format_system_time(0, 0), "1970-01-01 00:00:00.000");
}

#[test]
fn a_known_instant_is_formatted_with_date_and_time() {
    // 2023-11-14T22:13:20Z
    assert_eq!(format_system_time(1_700_000_000, 7), "2023-11-14 22:13:20.007");
    // Leap day of 2024
    assert_eq!(format_system_time(1_709_210_096, 123), "2024-02-29 12:34:56.123");
    // Last second of 1999
    assert_eq!(format_system_time(946_684_799, 999), "1999-12-31 23:59:59.999");
}

#[test]
fn leap_years_follow_the_gregorian_rule() {
    assert!(is_leap_year(2024));
    assert!(!is_leap_year(2023));
    assert!(!is_leap_year(1900));
    assert!(is_leap_year(2000));
}

#[test]
fn numbers_are_written_in_decimal() {
    let mut s = String::from("x=");
    push_u64(&mut s, 1204);
    push_str(&mut s, ";");
    push_i64(&mut s, -37);
    push_str(&mut s, ";");
    push_padded(&mut s, 7, 3);
    push_str(&mut s, ";");
    push_padded(&mut s, 12345, 3);
    push_repeat(&mut s, "ab", 3);
    assert_eq!(s, "x=1204;-37;007;12345ababab");
}

#[test]
fn level_names() {
    assert_eq!(LogLevel::Debug.as_str(), "DEBUG");
    assert_eq!(LogLevel::Info.as_str(), "INFO");
    assert_eq!(LogLevel::Warn.as_str(), "WARN");
    assert_eq!(LogLevel::Error.as_str(), "ERROR");
}

#[test]
fn logger_buffers_until_flushed() {
    let mut log = BotLogger::new(4);
    assert_eq!(log.set_tick(2), None);
    log.info("hello".to_string());
    log.log_with_attrs(LogLevel::Warn, "careful".to_string(), vec![("k".to_string(), "v".to_string())]);
    assert_eq!(log.set_tick(2), None);
    assert_eq!(log.buffer.len(), 2);
    let (text, entries) = log.flush_buffer();
    assert_eq!(
        text.unwrap(),
        "\n===== Bot 4 - Tick 2 =====\n[\x1b[32mINFO\x1b[0m] hello\n[\x1b[33mWARN\x1b[0m] careful\n  k = v\n=========================\n"
    );
    assert_eq!(entries.len(), 2);
    assert_eq!(entries[0].tick, 2);
    assert_eq!(entries[1].level, LogLevel::Warn);
    let (none, empty) = log.flush_buffer();
    assert!(none.is_none());
    assert!(empty.is_empty());
}

#[test]
fn moving_to_a_new_tick_flushes_the_old_one() {
    let mut log = BotLogger::new(1);
    log.error("bad".to_string());
    let text = log.set_tick(9).unwrap();
    assert!(text.contains("Tick 0"));
    assert!(text.contains("ERROR"));
    assert_eq!(log.current_tick, 9);
    assert!(log.buffer.is_empty());
}

#[test]
fn file_lines_carry_timestamp_tick_level_and_attrs() {
    let e = LogEntry {
        bot_id: 1,
        tick: 12,
        level: LogLevel::Debug,
        message: "msg".to_string(),
        attrs: Some(vec![("a".to_string(), "1".to_string()), ("b".to_string(), "2".to_string())]),
    };
    assert_eq!(
        format_file_line("2024-01-01 00:00:00.000", &e),
        "[2024-01-01 00:00:00.000] [Tick 12] [DEBUG] msg\n  a = 1\n  b = 2\n"
    );
}

#[test]
fn status_report_every_few_ticks() {
    let mut data = BotData::new(
        FrameKind::Flea,
        Subsystems::new(&[]),
        Pos((3, 4)),
        Team::Player,
        Energy(55),
        KnownMap::new(2, 2, ClientCellState::default()),
        Vec::new(),
    );
    data.inventory.add(Item::Metal, 2);
    data.inventory.add(Item::Crumb, 1);
    let update = BotUpdate { tick: 10, bot_data: data, in_progress_action: None, completed_action: None };
    let mut log = BotLogger::new(2);
    log.log_debug_info(&update, 5);
    assert_eq!(log.buffer.len(), 2);
    assert_eq!(log.buffer[0].message, "Processing tick 10");
    assert_eq!(
        log.buffer[1].message,
        "Bot Status Report [Tick 10]:\nPos(3, 4)\nEnergy: Energy(55)\nItems: Crumb: 1, Metal: 2\nTeam: Player"
    );
    let update2 = BotUpdate { tick: 11, ..update };
    log.log_debug_info(&update2, 5);
    assert_eq!(log.buffer.len(), 3);
}
