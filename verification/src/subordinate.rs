//! Predicting a station that has no constants of its own, only offsets
//! against one that has.
//!
//! NOAA publishes the offsets only at the turns, so the reference's turns
//! are moved, each by its own offset, and its curve is warped onto them.
//! The heights are the caller's; here is which offset each turn takes,
//! which pair of turns a moment falls between, and the window kept.

use vstd::prelude::*;
use crate::predict::Turn;

verus! {

/// Enough either side of a window, in seconds, to be sure of bracketing
/// it: the longest run between turns is a little over half a day, and the
/// largest offset in the bay is a little over two hours.
pub const MARGIN: i64 = 86400;

/// `j` is the first turn after `i` that is not a slack.
pub open spec fn is_next_maximum(turns: Seq<Turn>, i: int, j: int) -> bool {
    &&& i < j < turns.len()
    &&& turns[j] != Turn::Slack
    &&& forall|k: int| i < k < j ==> turns[k] == Turn::Slack
}

/// `j` is the last turn before `i` that is not a slack.
pub open spec fn is_last_maximum(turns: Seq<Turn>, i: int, j: int) -> bool {
    &&& 0 <= j < i
    &&& turns[j] != Turn::Slack
    &&& forall|k: int| j < k < i ==> turns[k] == Turn::Slack
}

/// Whether the stream floods next after the slack at `i`: a slack is
/// named for what follows it. Where nothing follows it in the window, it
/// is the other one from what came before.
pub open spec fn floods_next_spec(turns: Seq<Turn>, i: int) -> bool {
    if exists|j: int| is_next_maximum(turns, i, j) {
        turns[choose|j: int| is_next_maximum(turns, i, j)] == Turn::Flood
    } else if exists|j: int| is_last_maximum(turns, i, j) {
        turns[choose|j: int| is_last_maximum(turns, i, j)] == Turn::Ebb
    } else {
        false
    }
}

proof fn lemma_next_maximum_unique(turns: Seq<Turn>, i: int, a: int, b: int)
    requires
        is_next_maximum(turns, i, a),
        is_next_maximum(turns, i, b),
    ensures
        a == b,
{
    if a < b {
        assert(turns[a] == Turn::Slack);
    } else if b < a {
        assert(turns[b] == Turn::Slack);
    }
}

proof fn lemma_last_maximum_unique(turns: Seq<Turn>, i: int, a: int, b: int)
    requires
        is_last_maximum(turns, i, a),
        is_last_maximum(turns, i, b),
    ensures
        a == b,
{
    if a < b {
        assert(turns[b] == Turn::Slack);
    } else if b < a {
        assert(turns[a] == Turn::Slack);
    }
}

/// Whether the stream floods next after the slack at `i`.
pub fn floods_next(turns: &Vec<Turn>, i: usize) -> (r: bool)
    requires
        i < turns@.len(),
    ensures
        r == floods_next_spec(turns@, i as int),
{
    let n = turns.len();
    let mut j = i + 1;
    while j < n
        invariant
            n == turns@.len(),
            i < j <= n,
            forall|k: int| i < k < j ==> turns@[k] == Turn::Slack,
        decreases n - j,
    {
        if turns[j] != Turn::Slack {
            proof {
                assert(is_next_maximum(turns@, i as int, j as int));
                let c = choose|c: int| is_next_maximum(turns@, i as int, c);
                lemma_next_maximum_unique(turns@, i as int, c, j as int);
            }
            return turns[j] == Turn::Flood;
        }
        j += 1;
    }
    assert(!exists|c: int| is_next_maximum(turns@, i as int, c));
    let mut k = i;
    while k > 0
        invariant
            k <= i < turns@.len(),
            forall|m: int| k <= m < i ==> turns@[m] == Turn::Slack,
            !exists|c: int| is_next_maximum(turns@, i as int, c),
        decreases k,
    {
        if turns[k - 1] != Turn::Slack {
            proof {
                let w = (k - 1) as int;
                assert(is_last_maximum(turns@, i as int, w));
                let c = choose|c: int| is_last_maximum(turns@, i as int, c);
                lemma_last_maximum_unique(turns@, i as int, c, w);
            }
            return turns[k - 1] == Turn::Ebb;
        }
        k -= 1;
    }
    assert(!exists|c: int| is_last_maximum(turns@, i as int, c));
    false
}

/// The minutes a stream's turn is moved: each kind of turn takes its
/// own offset, and a slack the one for what follows it.
pub open spec fn shift_minutes_spec(turns: Seq<Turn>, i: int, slack_before_flood: i64, max_flood: i64, slack_before_ebb: i64, max_ebb: i64) -> i64 {
    match turns[i] {
        Turn::Flood => max_flood,
        Turn::Ebb => max_ebb,
        _ => if floods_next_spec(turns, i) { slack_before_flood } else { slack_before_ebb },
    }
}

/// The minutes turn `i` of a subordinate stream is moved by.
pub fn shift_minutes(turns: &Vec<Turn>, i: usize, slack_before_flood: i64, max_flood: i64, slack_before_ebb: i64, max_ebb: i64) -> (r: i64)
    requires
        i < turns@.len(),
    ensures
        r == shift_minutes_spec(turns@, i as int, slack_before_flood, max_flood, slack_before_ebb, max_ebb),
{
    match turns[i] {
        Turn::Flood => max_flood,
        Turn::Ebb => max_ebb,
        _ => if floods_next(turns, i) { slack_before_flood } else { slack_before_ebb },
    }
}

/// The pair of turns a moment falls between, moving on from pair `k`:
/// the last pair whose start is at or before it, or the last pair there
/// is.
pub fn segment(times: &Vec<i64>, k: usize, t: i64) -> (r: usize)
    requires
        k + 1 < times@.len(),
    ensures
        k <= r,
        r + 1 < times@.len(),
        forall|j: int| k < j <= r ==> t >= #[trigger] times@[j],
        r + 2 >= times@.len() || t < times@[r + 1],
{
    let n = times.len();
    let mut k = k;
    let ghost k0 = k;
    while k + 2 < n && t >= times[k + 1]
        invariant
            n == times@.len(),
            k0 <= k,
            k + 1 < n,
            forall|j: int| k0 < j <= k ==> t >= #[trigger] times@[j],
        decreases n - k,
    {
        k += 1;
    }
    k
}

/// Whether a moved turn falls inside the window asked for.
pub fn in_window(time: i64, start: i64, end: i64) -> (r: bool)
    ensures
        r == (start <= time && time <= end),
{
    start <= time && time <= end
}

} // verus!
