//! The session-gap estimator: turns commit timestamps into credited work time.
use vstd::prelude::*;
use vstd::relations::{sorted_by, total_ordering};

verus! {

/// A gap between consecutive commits shorter than this (in seconds) is one session.
pub const SESSION_GAP_SECONDS: i64 = 7200;

/// Work credited for a session boundary: two hours, in seconds.
pub const SESSION_ALLOWANCE_SECONDS: u128 = 7200;

/// Seconds in an hour.
pub const SECONDS_PER_HOUR: u128 = 3600;

/// The order in which timestamps are estimated: oldest first.
pub open spec fn time_leq() -> spec_fn(i64, i64) -> bool {
    |a: i64, b: i64| a <= b
}

/// `s` sorted oldest first.
pub open spec fn sorted_times(s: Seq<i64>) -> Seq<i64> {
    s.sort_by(time_leq())
}

/// Work credited for the gap between an earlier and a later commit: the gap itself
/// inside one session, the flat allowance at a session boundary, nothing for a
/// gap that is not positive.
pub open spec fn gap_credit(earlier: i64, later: i64) -> int {
    let g = later - earlier;
    if g <= 0 {
        0
    } else if g < SESSION_GAP_SECONDS {
        g
    } else {
        SESSION_ALLOWANCE_SECONDS as int
    }
}

/// Sum of the credits of each consecutive pair of `s`, in the order given.
pub open spec fn credited_seconds(s: Seq<i64>) -> int
    decreases s.len(),
{
    if s.len() < 2 {
        0
    } else {
        credited_seconds(s.drop_last()) + gap_credit(s[s.len() - 2], s.last())
    }
}

/// The estimate, in seconds of work, for a multiset of commit timestamps.
pub open spec fn estimate_of(s: Seq<i64>) -> int {
    credited_seconds(sorted_times(s))
}

/// An hour estimate, held exactly as whole seconds of credited work.
#[derive(Clone, Copy, Debug, PartialEq, Eq, Structural)]
pub struct WorkEstimate {
    pub seconds: u128,
}

impl WorkEstimate {
    /// The estimate in hours, rounded to the nearest whole hour (halves round up).
    pub fn rounded_hours(&self) -> (r: u128)
        requires
            self.seconds <= u128::MAX - SECONDS_PER_HOUR,
        ensures
            r as int == (self.seconds + SECONDS_PER_HOUR / 2) / (SECONDS_PER_HOUR as int),
    {
        (self.seconds + SECONDS_PER_HOUR / 2) / SECONDS_PER_HOUR
    }
}

/// Oldest-first is a total order on timestamps.
pub proof fn lemma_time_leq_total()
    ensures
        total_ordering(time_leq()),
{
}

/// Every credit lies between nothing and the session allowance.
pub proof fn lemma_credited_bounds(s: Seq<i64>)
    ensures
        0 <= credited_seconds(s),
        s.len() >= 1 ==> credited_seconds(s) <= SESSION_ALLOWANCE_SECONDS * (s.len() - 1),
    decreases s.len(),
{
    if s.len() >= 2 {
        lemma_credited_bounds(s.drop_last());
    }
}

/// The estimate depends only on which timestamps occur and how often, not on the
/// order in which they are given.
pub proof fn lemma_order_independent(a: Seq<i64>, b: Seq<i64>)
    requires
        a.to_multiset() == b.to_multiset(),
    ensures
        estimate_of(a) == estimate_of(b),
{
    lemma_time_leq_total();
    a.lemma_sort_by_ensures(time_leq());
    b.lemma_sort_by_ensures(time_leq());
    vstd::seq_lib::lemma_sorted_unique(sorted_times(a), sorted_times(b), time_leq());
}

/// Fewer than two timestamps give an estimate of nothing.
pub proof fn lemma_short_history_is_zero(s: Seq<i64>)
    requires
        s.len() < 2,
    ensures
        estimate_of(s) == 0,
{
    lemma_time_leq_total();
    s.lemma_sort_by_ensures(time_leq());
    vstd::seq_lib::to_multiset_len(s);
    vstd::seq_lib::to_multiset_len(sorted_times(s));
}

/// Returns `times` sorted oldest first.
pub fn sort_timestamps(times: &Vec<i64>) -> (r: Vec<i64>)
    ensures
        r@ == sorted_times(times@),
{
    broadcast use vstd::seq_lib::group_to_multiset_ensures;

    let mut out: Vec<i64> = Vec::new();
    let mut i: usize = 0;
    while i < times.len()
        invariant
            i <= times@.len(),
            sorted_by(out@, time_leq()),
            out@.to_multiset() == times@.subrange(0, i as int).to_multiset(),
        decreases times@.len() - i,
    {
        let x = times[i];
        let mut p: usize = 0;
        while p < out.len() && out[p] <= x
            invariant
                p <= out@.len(),
                forall|k: int| 0 <= k < p ==> out@[k] <= x,
            decreases out@.len() - p,
        {
            p = p + 1;
        }
        proof {
            assert(forall|k: int| p <= k < out@.len() ==> x < out@[k]) by {
                if p < out@.len() {
                    assert(x < out@[p as int]);
                    assert forall|k: int| p <= k < out@.len() implies x < out@[k] by {
                        if k > p {
                            assert(time_leq()(out@[p as int], out@[k]));
                        }
                    }
                }
            }
            assert(times@.subrange(0, i + 1) =~= times@.subrange(0, i as int).push(x));
        }
        let ghost before = out@;
        out.insert(p, x);
        proof {
            assert forall|a: int, b: int| 0 <= a < b < out@.len() implies #[trigger] time_leq()(
                out@[a],
                out@[b],
            ) by {
                if b < p {
                    assert(time_leq()(before[a], before[b]));
                } else if b == p {
                } else if a < p {
                } else if a > p {
                    assert(time_leq()(before[a - 1], before[b - 1]));
                }
            }
            vstd::seq_lib::to_multiset_insert(before, p as int, x);
            vstd::seq_lib::to_multiset_build(times@.subrange(0, i as int), x);
            assert(out@.to_multiset() == before.insert(p as int, x).to_multiset());
            assert(times@.subrange(0, i as int).push(x).to_multiset()
                == times@.subrange(0, i as int).to_multiset().insert(x));
        }
        i = i + 1;
    }
    proof {
        assert(times@.subrange(0, times@.len() as int) =~= times@);
        lemma_time_leq_total();
        times@.lemma_sort_by_ensures(time_leq());
        vstd::seq_lib::lemma_sorted_unique(out@, sorted_times(times@), time_leq());
    }
    out
}

/// The credit for one gap, as `gap_credit` states it.
fn credit_between(earlier: i64, later: i64) -> (r: u128)
    ensures
        r as int == gap_credit(earlier, later),
{
    let g: i128 = later as i128 - earlier as i128;
    if g <= 0 {
        0
    } else if g < SESSION_GAP_SECONDS as i128 {
        g as u128
    } else {
        SESSION_ALLOWANCE_SECONDS
    }
}

/// Sums the credit of each consecutive pair of `times` in the order given; a pair
/// that goes back in time is credited nothing.
pub fn session_seconds(times: &Vec<i64>) -> (r: u128)
    ensures
        r as int == credited_seconds(times@),
{
    let n = times.len();
    if n < 2 {
        return 0;
    }
    let mut total: u128 = 0;
    let mut i: usize = 1;
    while i < n
        invariant
            n == times@.len(),
            1 <= i <= n,
            total as int == credited_seconds(times@.subrange(0, i as int)),
        decreases n - i,
    {
        proof {
            lemma_credited_bounds(times@.subrange(0, i as int));
            assert(times@.subrange(0, i + 1).drop_last() =~= times@.subrange(0, i as int));
        }
        let c = credit_between(times[i - 1], times[i]);
        assert(total + c <= SESSION_ALLOWANCE_SECONDS * i) by (nonlinear_arith)
            requires
                total <= SESSION_ALLOWANCE_SECONDS * (i - 1),
                c <= SESSION_ALLOWANCE_SECONDS,
                i >= 1,
        ;
        assert(SESSION_ALLOWANCE_SECONDS * i <= 7200 * usize::MAX) by (nonlinear_arith)
            requires
                i <= usize::MAX,
        ;
        total = total + c;
        i = i + 1;
    }
    assert(times@.subrange(0, n as int) =~= times@);
    total
}

/// Estimates the work behind a set of commit timestamps, given in any order: sorted
/// oldest first, each gap under two hours counts as it is, each longer gap counts
/// two hours, and fewer than two timestamps give nothing.
pub fn estimate_hours(times: &Vec<i64>) -> (r: WorkEstimate)
    ensures
        r.seconds as int == estimate_of(times@),
        times@.len() < 2 ==> r.seconds == 0,
{
    proof {
        if times@.len() < 2 {
            lemma_short_history_is_zero(times@);
        }
    }
    let sorted = sort_timestamps(times);
    WorkEstimate { seconds: session_seconds(&sorted) }
}

} // verus!
