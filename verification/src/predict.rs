//! The turning points a sailor reads off a tide — high and low water,
//! slack and maximum flood or ebb — and the bookkeeping around a
//! predicted curve: when its points fall, how its turns are ordered,
//! how a crossing is closed in on, and which turns are too weak to print.
//!
//! The heights and speeds themselves are sums of cosines, worked out in
//! floating point by the caller; what is decided about them is here.

use vstd::prelude::*;
use crate::order::{stable_order, is_stable_sort, key_view, pair_lt};

verus! {

/// A turning point: high or low water, or a current's slack and maximum.
#[derive(Clone, Copy, Debug, PartialEq, Eq, Structural)]
pub enum Turn {
    High,
    Low,
    Slack,
    Flood,
    Ebb,
}

impl Turn {
    pub open spec fn spec_name(self) -> Seq<char> {
        match self {
            Turn::High => "high"@,
            Turn::Low => "low"@,
            Turn::Slack => "slack"@,
            Turn::Flood => "flood"@,
            Turn::Ebb => "ebb"@,
        }
    }

    pub fn name(self) -> (r: &'static str)
        ensures
            r@ == self.spec_name(),
    {
        match self {
            Turn::High => "high",
            Turn::Low => "low",
            Turn::Slack => "slack",
            Turn::Flood => "flood",
            Turn::Ebb => "ebb",
        }
    }
}

/// How many points a curve from `start` to `end` inclusive has, one
/// every `step` seconds (at least one).
pub open spec fn series_len(start: int, end: int, step: int) -> int {
    let s = if step < 1 { 1 } else { step };
    if end < start {
        0
    } else {
        (end - start) / s + 1
    }
}

/// When the points of a curve fall: `start`, then every `step` seconds
/// up to and including `end`.
pub fn series_times(start: i64, end: i64, step: i64) -> (times: Vec<i64>)
    requires
        end + (if step < 1 { 1 } else { step }) <= i64::MAX,
    ensures
        times@.len() == series_len(start as int, end as int, step as int),
        forall|k: int| 0 <= k < times@.len() ==> #[trigger] times@[k] == start + k * (if step < 1 { 1 } else { step }),
{
    let step: i64 = if step < 1 { 1 } else { step };
    let mut times: Vec<i64> = Vec::new();
    let mut t = start;
    assert(start + (times@.len() as int) * step == start) by (nonlinear_arith)
        requires
            times@.len() == 0,
    ;
    while t <= end
        invariant
            step >= 1,
            end + step <= i64::MAX,
            start <= t,
            times@.len() > 0 ==> t <= end + step,
            times@.len() == 0 ==> t == start,
            t == start + times@.len() * step,
            forall|k: int| 0 <= k < times@.len() ==> #[trigger] times@[k] == start + k * step,
        decreases end + step - t,
    {
        proof {
            assert((times@.len() as int) * step + step == (times@.len() as int + 1) * step) by (nonlinear_arith);
        }
        times.push(t);
        t += step;
    }
    proof {
        if end >= start {
            let n = times@.len() as int;
            assert(start + n * step > end);
            assert(n >= 1);
            assert(start + (n - 1) * step <= end) by {
                assert((n - 1) * step == n * step - step) by (nonlinear_arith);
            }
            assert((end - start) / (step as int) == n - 1) by (nonlinear_arith)
                requires
                    step >= 1,
                    n >= 1,
                    (n - 1) * step <= end - start,
                    end - start < n * step,
            {
            }
        } else {
            assert(times@.len() == 0) by {
                if times@.len() > 0 {
                    let n = times@.len() as int;
                    assert(n * step >= step) by (nonlinear_arith)
                        requires
                            n >= 1,
                            step >= 1,
                    ;
                }
            }
        }
    }
    times
}

/// An order-keeping code for a moment, for sorting by time.
pub open spec fn time_code(t: i64) -> u64 {
    (t as int - i64::MIN as int) as u64
}

/// The places of `times` in time order, keeping turns that fall at the
/// same second in the order they came: what a stable sort by time leaves.
pub fn time_order(times: &Vec<i64>) -> (order: Vec<usize>)
    ensures
        crate::order::is_permutation(order@, times@.len() as int),
        forall|q: int, r: int| #![trigger order@[q], order@[r]]
            0 <= q < r < order@.len() ==> times@[order@[q] as int] <= times@[order@[r] as int],
        forall|q: int, r: int| #![trigger order@[q], order@[r]]
            0 <= q < r < order@.len() && times@[order@[q] as int] == times@[order@[r] as int] ==> order@[q] < order@[r],
{
    let mut keys: Vec<(Vec<char>, u64)> = Vec::new();
    let mut i: usize = 0;
    while i < times.len()
        invariant
            i <= times@.len(),
            keys@.len() == i,
            forall|j: int| 0 <= j < i ==> key_view(#[trigger] keys@[j]) == (Seq::<char>::empty(), time_code(times@[j])),
        decreases times@.len() - i,
    {
        let code: u64 = ((times[i] as i128) + 9223372036854775808i128) as u64;
        keys.push((Vec::new(), code));
        i += 1;
    }
    let order = stable_order(&keys);
    proof {
        assert forall|q: int, r: int| #![trigger order@[q], order@[r]]
            0 <= q < r < order@.len() implies times@[order@[q] as int] <= times@[order@[r] as int] by {
            assert(!pair_lt(key_view(keys@[order@[r] as int]), key_view(keys@[order@[q] as int])));
            crate::order::lemma_lex_irreflexive(Seq::<char>::empty());
        }
        assert forall|q: int, r: int| #![trigger order@[q], order@[r]]
            0 <= q < r < order@.len() && times@[order@[q] as int] == times@[order@[r] as int] implies order@[q] < order@[r] by {
            assert(key_view(keys@[order@[q] as int]) == key_view(keys@[order@[r] as int]));
        }
    }
    order
}

/// Where a sign changes between `lo` and `hi`, to the second.
///
/// `same_side(t)` says whether the curve at `t` is on the same side of
/// zero as at `lo`; at `hi` it is not. The bracket closes in by halves, so
/// it can never escape: the answer is the first second on the far side,
/// with the second before it on the near one.
pub fn bisect<F: Fn(i64) -> bool>(lo: i64, hi: i64, same_side: F) -> (r: i64)
    requires
        lo < hi,
        hi - lo <= i64::MAX,
        forall|t: i64| lo < t < hi ==> call_requires(same_side, (t,)),
    ensures
        lo < r <= hi,
        r == hi || call_ensures(same_side, (r,), false),
        r - 1 == lo || call_ensures(same_side, ((r - 1) as i64,), true),
{
    let mut lo_t = lo;
    let mut hi_t = hi;
    while hi_t - lo_t > 1
        invariant
            lo <= lo_t < hi_t <= hi,
            hi - lo <= i64::MAX,
            forall|t: i64| lo < t < hi ==> call_requires(same_side, (t,)),
            hi_t == hi || call_ensures(same_side, (hi_t,), false),
            lo_t == lo || call_ensures(same_side, (lo_t,), true),
        decreases hi_t - lo_t,
    {
        let mid = lo_t + (hi_t - lo_t) / 2;
        if same_side(mid) {
            lo_t = mid;
        } else {
            hi_t = mid;
        }
    }
    hi_t
}

/// A weak maximum: a flood or ebb too faint to print, with a slack on
/// either side of it.
pub open spec fn is_weak(turns: Seq<Turn>, faint: Seq<bool>, i: int) -> bool {
    &&& 0 < i
    &&& i + 1 < turns.len()
    &&& (turns[i] == Turn::Flood || turns[i] == Turn::Ebb)
    &&& faint[i]
    &&& turns[i - 1] == Turn::Slack
    &&& turns[i + 1] == Turn::Slack
}

/// Which turns to drop where the stream barely reverses.
///
/// Where the maths finds a maximum of a fraction of a knot between two
/// slacks minutes apart, what a sailor wants to read is one slack. The
/// turn dropped is the weak maximum, and of the two slacks around it the
/// later one, so the slack that remains is where the stream first died.
/// `faint[i]` says whether turn `i` is weaker than the threshold.
pub fn dropped_turns(turns: &Vec<Turn>, faint: &Vec<bool>) -> (drop: Vec<bool>)
    requires
        faint@.len() == turns@.len(),
    ensures
        drop@.len() == turns@.len(),
        forall|k: int| 0 <= k < drop@.len() ==> #[trigger] drop@[k] == (is_weak(turns@, faint@, k) || (k > 0 && is_weak(turns@, faint@, k - 1))),
{
    let n = turns.len();
    let mut drop: Vec<bool> = Vec::new();
    let mut k: usize = 0;
    while k < n
        invariant
            n == turns@.len(),
            faint@.len() == n,
            k <= n,
            drop@.len() == k,
            forall|j: int| 0 <= j < k ==> #[trigger] drop@[j] == (is_weak(turns@, faint@, j) || (j > 0 && is_weak(turns@, faint@, j - 1))),
        decreases n - k,
    {
        let weak_here = weak_at(turns, faint, k);
        let weak_before = k > 0 && weak_at(turns, faint, k - 1);
        drop.push(weak_here || weak_before);
        k += 1;
    }
    drop
}

fn weak_at(turns: &Vec<Turn>, faint: &Vec<bool>, i: usize) -> (r: bool)
    requires
        faint@.len() == turns@.len(),
        i < turns@.len(),
    ensures
        r == is_weak(turns@, faint@, i as int),
{
    i > 0 && i < turns.len() - 1 && (turns[i] == Turn::Flood || turns[i] == Turn::Ebb) && faint[i]
        && turns[i - 1] == Turn::Slack && turns[i + 1] == Turn::Slack
}

} // verus!
