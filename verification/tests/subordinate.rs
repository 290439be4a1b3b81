use omatide::predict::Turn;
use omatide::subordinate::{floods_next, in_window, segment, shift_minutes};

#[test]
fn a_stream_takes_a_different_offset_at_each_kind_of_turn() {
    let turns = vec![Turn::Slack, Turn::Flood, Turn::Slack, Turn::Ebb, Turn::Slack];
    // Slack before flood 15, max flood 0, slack before ebb 24, max ebb 20.
    let shift = |i| shift_minutes(&turns, i, 15, 0, 24, 20);
    assert_eq!(shift(0), 15);
    assert_eq!(shift(1), 0);
    assert_eq!(shift(2), 24);
    assert_eq!(shift(3), 20);
    // The last slack has no maximum after it: the ebb before it says a
    // flood comes next.
    assert_eq!(shift(4), 15);
}

#[test]
fn which_way_a_slack_turns_is_read_from_its_neighbours() {
    let turns = vec![Turn::Slack, Turn::Slack, Turn::Ebb];
    assert!(!floods_next(&turns, 0));
    let turns = vec![Turn::Flood, Turn::Slack];
    assert!(!floods_next(&turns, 1));
    let only = vec![Turn::Slack];
    assert!(!floods_next(&only, 0));
}

#[test]
fn a_moment_falls_between_one_pair_of_turns() {
    let times = vec![0, 100, 200, 300];
    assert_eq!(segment(&times, 0, 50), 0);
    assert_eq!(segment(&times, 0, 150), 1);
    assert_eq!(segment(&times, 0, 250), 2);
    // Past the last turn: the last pair there is.
    assert_eq!(segment(&times, 0, 1000), 2);
    assert_eq!(segment(&times, 1, 50), 1);
    assert!(in_window(5, 0, 10));
    assert!(in_window(10, 0, 10));
    assert!(!in_window(11, 0, 10));
}
