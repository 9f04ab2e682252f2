use git_hours::estimate::{estimate_hours, session_seconds, sort_timestamps, WorkEstimate};

fn hours(times: Vec<i64>) -> f64 {
    estimate_hours(&times).seconds as f64 / 3600.0
}

#[test]
fn no_commits_estimate_zero() {
    assert_eq!(estimate_hours(&vec![]).seconds, 0);
    assert_eq!(hours(vec![]), 0.0);
}

#[test]
fn one_commit_estimates_zero() {
    assert_eq!(estimate_hours(&vec![1_700_000_000]).seconds, 0);
    assert_eq!(hours(vec![42]), 0.0);
}

#[test]
fn same_session_counts_elapsed_time() {
    assert_eq!(estimate_hours(&vec![0, 600, 1800]).seconds, 1800);
    assert_eq!(hours(vec![0, 600, 1800]), 0.5);
}

#[test]
fn session_boundary_counts_two_hours() {
    assert_eq!(estimate_hours(&vec![0, 10800]).seconds, 7200);
    assert_eq!(hours(vec![0, 10800]), 2.0);
}

#[test]
fn mixed_sessions() {
    assert_eq!(estimate_hours(&vec![0, 600, 10800, 11400]).seconds, 8400);
    let h = hours(vec![0, 600, 10800, 11400]);
    assert!((h - 2.333).abs() < 0.001);
}

#[test]
fn input_order_does_not_matter() {
    let a = estimate_hours(&vec![0, 600, 10800, 11400]);
    let b = estimate_hours(&vec![11400, 0, 10800, 600]);
    let c = estimate_hours(&vec![600, 11400, 10800, 0]);
    assert_eq!(a, b);
    assert_eq!(a, c);
}

#[test]
fn repeated_runs_agree() {
    let times = vec![1_000, 5_000, 40_000, 40_100, 3_000];
    let first = estimate_hours(&times);
    for _ in 0..5 {
        assert_eq!(estimate_hours(&times), first);
    }
}

#[test]
fn gap_threshold_edges() {
    assert_eq!(estimate_hours(&vec![0, 7199]).seconds, 7199);
    assert_eq!(estimate_hours(&vec![0, 7200]).seconds, 7200);
    assert_eq!(estimate_hours(&vec![0, 7201]).seconds, 7200);
    assert_eq!(estimate_hours(&vec![0, 100_000_000]).seconds, 7200);
}

#[test]
fn equal_timestamps_add_nothing() {
    assert_eq!(estimate_hours(&vec![500, 500]).seconds, 0);
    assert_eq!(estimate_hours(&vec![500, 500, 1100, 1100]).seconds, 600);
}

#[test]
fn extreme_timestamps_do_not_overflow() {
    assert_eq!(estimate_hours(&vec![i64::MAX, i64::MIN]).seconds, 7200);
    assert_eq!(estimate_hours(&vec![i64::MIN, i64::MIN + 60, i64::MAX]).seconds, 7260);
}

#[test]
fn sorting_orders_oldest_first() {
    assert_eq!(sort_timestamps(&vec![30, -5, 10, 10, 0]), vec![-5, 0, 10, 10, 30]);
    assert_eq!(sort_timestamps(&vec![]), Vec::<i64>::new());
}

#[test]
fn backwards_gaps_credit_nothing() {
    assert_eq!(session_seconds(&vec![600, 0]), 0);
    assert_eq!(session_seconds(&vec![0, 600, 300, 900]), 1200);
    assert_eq!(session_seconds(&vec![0, 600, 1800]), 1800);
}

#[test]
fn rounded_hours_round_half_up() {
    assert_eq!(WorkEstimate { seconds: 8400 }.rounded_hours(), 2);
    assert_eq!(WorkEstimate { seconds: 5400 }.rounded_hours(), 2);
    assert_eq!(WorkEstimate { seconds: 5399 }.rounded_hours(), 1);
    assert_eq!(WorkEstimate { seconds: 0 }.rounded_hours(), 0);
}
