use hb_buy_strategy::proto::SendParcel;
use hb_buy_strategy::strategy::TradeState;
use hb_buy_strategy::strategy_server::{
    config_error_report, finished_report, on_strategy_message, start_strategy, state_report,
    stop_report, stop_strategy, tail_of_log, RequestAction, StrategyServer, LOG_TAIL_LINES,
};

#[test]
fn tail_of_short_log_is_whole() {
    assert_eq!(tail_of_log("a\nb\nc\n"), "a\nb\nc\n");
    assert_eq!(tail_of_log("a\nb\nc"), "a\nb\nc\n");
}

#[test]
fn tail_of_empty_log_is_empty() {
    assert_eq!(tail_of_log(""), "");
}

#[test]
fn tail_keeps_empty_lines() {
    assert_eq!(tail_of_log("\n"), "\n");
    assert_eq!(tail_of_log("a\n\nb"), "a\n\nb\n");
}

#[test]
fn tail_strips_carriage_returns_before_newlines() {
    assert_eq!(tail_of_log("a\r\nb\r\n"), "a\nb\n");
    assert_eq!(tail_of_log("a\rb\nc\r"), "a\rb\nc\r\n");
}

#[test]
fn tail_keeps_last_lines() {
    let log: String = (0..40).map(|i| format!("line {}\n", i)).collect();
    let expected: String = (8..40).map(|i| format!("line {}\n", i)).collect();
    assert_eq!(tail_of_log(&log), expected);
    assert_eq!(LOG_TAIL_LINES, 32);
}

#[test]
fn tail_of_33_lines_drops_the_first() {
    let log: String = (0..33).map(|i| format!("line {}\n", i)).collect();
    let expected: String = (1..33).map(|i| format!("line {}\n", i)).collect();
    assert_eq!(tail_of_log(&log), expected);
}

#[test]
fn tail_of_32_lines_is_whole() {
    let log: String = (0..32).map(|i| format!("line {}", i)).collect::<Vec<_>>().join("\n");
    let expected: String = (0..32).map(|i| format!("line {}\n", i)).collect();
    assert_eq!(tail_of_log(&log), expected);
}

#[test]
fn tail_of_unicode_log() {
    assert_eq!(tail_of_log("策略结束！\n盈利"), "策略结束！\n盈利\n");
}

#[test]
fn tail_matches_lines_of_std() {
    let log = "x\r\ny\n\nz\rw\n\r\nlast";
    let lines: Vec<&str> = log.lines().collect();
    let expected: String = lines.iter().map(|l| format!("{}\n", l)).collect();
    assert_eq!(tail_of_log(log), expected);
}

#[test]
fn sessions_connect_and_disconnect() {
    let mut server: StrategyServer<&str> = StrategyServer::new();
    assert!(server.sessions().is_empty());
    let a = server.connect_with_id(7, "a");
    assert_eq!(a, 7);
    let b = server.connect_with_id(9, "b");
    assert_eq!(server.sessions().len(), 2);
    server.disconnect(a);
    assert_eq!(server.sessions().len(), 1);
    assert_eq!(server.sessions().get(&b), Some(&"b"));
    server.disconnect(12345);
    assert_eq!(server.sessions().len(), 1);
}

#[test]
fn sessions_same_id_replaces() {
    let mut server: StrategyServer<&str> = StrategyServer::default();
    server.connect_with_id(1, "old");
    server.connect_with_id(1, "new");
    assert_eq!(server.sessions().len(), 1);
    assert_eq!(server.sessions().get(&1), Some(&"new"));
}

#[test]
fn sessions_connect_random_id() {
    let mut server: StrategyServer<u8> = StrategyServer::new();
    let id = server.connect(5);
    assert!(id <= u32::MAX as usize);
    assert_eq!(server.sessions().get(&id), Some(&5));
}

#[test]
fn running_strategy_is_reported() {
    let mut s = TradeState::new();
    assert!(matches!(on_strategy_message(&s), RequestAction::Start));
    start_strategy(&mut s);
    assert!(s.is_running && !s.is_profit && !s.is_cover && s.cover_num == 0);
    assert!(matches!(on_strategy_message(&s), RequestAction::ReportState));
}

#[test]
fn stop_reports_log_as_config_error() {
    let mut s = TradeState::new();
    start_strategy(&mut s);
    s.cover_num = 2;
    stop_strategy(&mut s);
    let parcel = stop_report("one\ntwo\n");
    assert!(!s.is_running);
    assert_eq!(s.cover_num, 2);
    assert_eq!(parcel, SendParcel::ConfigError("one\ntwo\n".to_string()));
    assert!(matches!(on_strategy_message(&s), RequestAction::Start));
}

#[test]
fn reports_carry_their_texts() {
    assert_eq!(state_report("a\r\nb"), SendParcel::StrategyState("a\nb\n".to_string()));
    assert_eq!(config_error_report(), SendParcel::ConfigError("加载配置错误！".to_string()));
    assert_eq!(finished_report("12.5"), SendParcel::StrategyState("策略结束！盈利 = 12.5".to_string()));
}
