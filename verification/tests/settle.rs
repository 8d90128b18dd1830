use unbrowser::json::print_json;
use unbrowser::settle::{
    reason_str, Settle, SettleNext, SettleReason, SettleRound, FETCH_WAIT_MS, MICROTASK_CAP,
};

fn round(fired: u64, resolved: u64, timers: u64, fetches: u64, microtasks: bool) -> SettleRound {
    SettleRound {
        fired,
        resolved,
        pending_timers: timers,
        pending_fetches: fetches,
        pending_microtasks: microtasks,
    }
}

#[test]
fn a_page_at_rest_is_idle() {
    let mut s = Settle::start(2000, 50);
    assert_eq!(s.begin_round(0), None);
    assert!(s.microtask(true, 1));
    assert!(!s.microtask(false, 1));
    assert!(matches!(s.end_round(round(1, 2, 0, 0, false)), SettleNext::Stop));
    assert_eq!(
        print_json(&s.result(SettleReason::Idle, 5, 0, 0, false)),
        r#"{"elapsed_ms":5,"fetches_resolved":2,"iters":0,"microtasks_run":1,"pending_fetches":0,"pending_microtasks":false,"pending_timers":0,"reason":"idle","timed_out":false,"timers_fired":1}"#
    );
}

#[test]
fn work_goes_on_until_a_bound() {
    let mut s = Settle::start(100, 2);
    assert_eq!(s.begin_round(0), None);
    assert!(matches!(s.end_round(round(0, 0, 1, 0, false)), SettleNext::WaitForTimer));
    assert_eq!(s.begin_round(99), None);
    assert!(matches!(s.end_round(round(0, 0, 1, 1, false)), SettleNext::WaitForFetch));
    assert_eq!(s.begin_round(99), Some(SettleReason::MaxIters));
    let r = s.result(SettleReason::MaxIters, 99, 1, 1, true);
    assert_eq!(r.text_at("reason").unwrap(), "max_iters");
    assert_eq!(r.bool_at("timed_out"), Some(true));
    assert_eq!(r.u64_at("iters"), Some(2));
    let mut t = Settle::start(100, 2);
    assert_eq!(t.begin_round(100), Some(SettleReason::BudgetExhausted));
    assert_eq!(reason_str(SettleReason::BudgetExhausted), "budget_exhausted");
}

#[test]
fn it_waits_only_without_work() {
    let mut s = Settle::start(100, 50);
    assert!(matches!(s.end_round(round(1, 0, 1, 0, false)), SettleNext::Again));
    assert!(matches!(s.end_round(round(0, 1, 1, 1, false)), SettleNext::Again));
    assert!(matches!(s.end_round(round(0, 0, 0, 0, true)), SettleNext::Again));
    assert_eq!(FETCH_WAIT_MS, 20);
}

#[test]
fn microtasks_are_bounded() {
    let mut s = Settle::start(100, 50);
    let mut ran = 1;
    while s.microtask(true, 1) {
        ran += 1;
    }
    assert_eq!((ran, MICROTASK_CAP), (2000, 2000));
    assert_eq!(s.this_round, MICROTASK_CAP);
    let mut t = Settle::start(100, 50);
    assert!(!t.microtask(true, 100));
    assert_eq!(t.this_round, 1);
}

#[test]
fn timers_are_awaited_within_the_time() {
    let s = Settle::start(100, 50);
    assert_eq!(s.timer_wait(1050, 1000, 10), 50);
    assert_eq!(s.timer_wait(1500, 1000, 10), 90);
    assert_eq!(s.timer_wait(900, 1000, 10), 0);
    assert_eq!(s.timer_wait(1500, 1000, 200), 0);
}
