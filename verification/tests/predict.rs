use omatide::predict::{bisect, dropped_turns, series_times, time_order, Turn};

/// The turns kept, where `values` says how strong each is.
fn kept(turns: &[(i64, f64, Turn)], threshold: f64) -> Vec<i64> {
    let kinds: Vec<Turn> = turns.iter().map(|t| t.2).collect();
    let faint: Vec<bool> = turns.iter().map(|t| t.1.abs() < threshold).collect();
    let drop = dropped_turns(&kinds, &faint);
    turns.iter().zip(drop).filter(|(_, d)| !d).map(|(t, _)| t.0).collect()
}

#[test]
fn a_stream_that_barely_reverses_reads_as_one_slack() {
    let turns = vec![
        (0, 50.0, Turn::Flood),
        (100, 0.0, Turn::Slack),
        (200, -0.001, Turn::Ebb),
        (300, 0.0, Turn::Slack),
        (400, 60.0, Turn::Flood),
        (500, 0.0, Turn::Slack),
        (600, -40.0, Turn::Ebb),
    ];
    let left = kept(&turns, 1.0);
    assert_eq!(left, [0, 100, 400, 500, 600]);
    // The slack kept is the one where the stream first died.
    assert_eq!(left[1], 100);
    // Nothing is weak, nothing goes.
    assert_eq!(kept(&turns, 0.0005).len(), turns.len());
    // A weak maximum that is not between two slacks is left alone: it is
    // the whole of a run, not a blip inside one.
    let lone = vec![(0, 0.0, Turn::Slack), (100, 0.001, Turn::Flood)];
    assert_eq!(kept(&lone, 1.0), [0, 100]);
    assert!(kept(&[], 1.0).is_empty());
}

#[test]
fn turns_have_names() {
    assert_eq!(Turn::High.name(), "high");
    assert_eq!(Turn::Low.name(), "low");
    assert_eq!(Turn::Slack.name(), "slack");
    assert_eq!(Turn::Flood.name(), "flood");
    assert_eq!(Turn::Ebb.name(), "ebb");
}

#[test]
fn a_series_covers_its_window() {
    let start = 1_798_750_800; // 2026-12-31T21:00:00Z
    let times = series_times(start, start + 6 * 3600, 3600);
    assert_eq!(times.len(), 7);
    assert_eq!(times[0], start);
    assert_eq!(times[6], start + 6 * 3600);
    assert!(series_times(start, start - 1, 600).is_empty());
    assert_eq!(series_times(start, start, 600), [start]);
    // A step under a second is a second.
    assert_eq!(series_times(0, 2, 0), [0, 1, 2]);
}

#[test]
fn turns_sort_by_time_keeping_ties_in_order() {
    assert_eq!(time_order(&vec![30, -5, 30, 10]), [1, 3, 0, 2]);
    assert!(time_order(&Vec::new()).is_empty());
    assert_eq!(time_order(&vec![i64::MAX, i64::MIN]), [1, 0]);
}

#[test]
fn a_sign_change_is_found_to_the_second() {
    // The curve crosses zero at 1234: before it, the same side as 0.
    let at = bisect(0, 10_000, |t| t < 1234);
    assert_eq!(at, 1234);
    assert_eq!(bisect(5, 6, |_| true), 6);
}
