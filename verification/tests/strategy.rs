use hb_buy_strategy::strategy::{poll_interval_secs, CoverDecision, TradeState};

fn state(is_running: bool, is_profit: bool, is_cover: bool, cover_num: u8) -> TradeState {
    TradeState { is_running, is_profit, is_cover, cover_num }
}

fn same(a: &TradeState, b: &TradeState) -> bool {
    a.is_running == b.is_running && a.is_profit == b.is_profit && a.is_cover == b.is_cover
        && a.cover_num == b.cover_num
}

#[test]
fn new_state_is_idle() {
    assert!(same(&TradeState::new(), &state(false, false, false, 0)));
}

#[test]
fn reset_keeps_running() {
    let mut s = state(true, true, true, 3);
    s.reset();
    assert!(same(&s, &state(true, false, false, 0)));
}

#[test]
fn profit_taken_after_pull_back() {
    let mut s = state(true, false, true, 2);
    assert!(s.judge_profit(true, true));
    assert!(same(&s, &state(false, true, false, 2)));
}

#[test]
fn profit_without_pull_back_continues() {
    let mut s = state(true, false, true, 2);
    assert!(!s.judge_profit(true, false));
    assert!(same(&s, &state(true, true, false, 2)));
}

#[test]
fn no_profit_keeps_cover_armed() {
    let mut s = state(true, true, true, 1);
    assert!(!s.judge_profit(false, true));
    assert!(same(&s, &state(true, false, true, 1)));
}

#[test]
fn cover_bought_on_rebound() {
    let mut s = state(true, false, false, 0);
    match s.judge_cover(3, true, true) {
        CoverDecision::Buy { exponent } => assert_eq!(exponent, 1),
        CoverDecision::Hold => panic!("expected a buy"),
    }
    assert!(same(&s, &state(true, false, false, 1)));
}

#[test]
fn cover_armed_without_rebound() {
    let mut s = state(true, false, false, 0);
    assert!(matches!(s.judge_cover(3, true, false), CoverDecision::Hold));
    assert!(same(&s, &state(true, false, true, 0)));
    // the armed cover is bought later on a rebound, without a new decline
    match s.judge_cover(3, false, true) {
        CoverDecision::Buy { exponent } => assert_eq!(exponent, 1),
        CoverDecision::Hold => panic!("expected a buy"),
    }
    assert!(same(&s, &state(true, false, false, 1)));
}

#[test]
fn cover_limit_stops_buying() {
    let mut s = state(true, false, true, 2);
    assert!(matches!(s.judge_cover(2, true, true), CoverDecision::Hold));
    assert!(same(&s, &state(true, false, true, 2)));
}

#[test]
fn cover_counts_up_to_limit() {
    let mut s = state(true, false, false, 0);
    let mut buys = 0;
    for _ in 0..10 {
        if let CoverDecision::Buy { .. } = s.judge_cover(4, true, true) {
            buys += 1;
        }
        assert!(s.cover_num <= 4);
    }
    assert_eq!(buys, 4);
    assert_eq!(s.cover_num, 4);
}

#[test]
fn poll_interval_at_least_one_second() {
    assert_eq!(poll_interval_secs(0), 1);
    assert_eq!(poll_interval_secs(1), 1);
    assert_eq!(poll_interval_secs(30), 30);
}
