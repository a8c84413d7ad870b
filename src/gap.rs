//! Gap analysis over the bucket times of one fetched batch.
use vstd::arithmetic::div_mod::lemma_fundamental_div_mod;
use vstd::prelude::*;
use vstd::relations::{sorted_by, total_ordering};

verus! {

/// A run of missing buckets between two consecutive observed bucket times.
#[derive(Clone, Copy, Debug, PartialEq, Eq, Structural)]
pub struct GapRange {
    /// The first missing bucket time.
    pub from: i64,
    /// The next observed bucket time, which is not missing.
    pub to: i64,
    /// How many buckets are missing in `[from, to)`.
    pub missing: u64,
}

/// The outcome of a gap analysis: every missing run, ascending, and their total.
#[derive(Debug)]
pub struct GapReport {
    pub gap_count: u64,
    pub ranges: Vec<GapRange>,
}

/// A batch whose bucket times cannot be audited against the period grid.
#[derive(Clone, Copy, Debug, PartialEq, Eq, Structural)]
pub enum ShapeFault {
    /// The period is zero or negative.
    NonPositivePeriod,
    /// The same bucket time occurs twice.
    Duplicate { time: i64 },
    /// A bucket time is smaller than the one before it.
    OutOfOrder { time: i64 },
    /// A bucket time is not a whole number of periods after the one before it.
    Misaligned { time: i64 },
}

/// Ascending order on bucket times.
pub open spec fn time_leq() -> spec_fn(i64, i64) -> bool {
    |a: i64, b: i64| a <= b
}

/// The bucket times in ascending order.
pub open spec fn sorted_times(s: Seq<i64>) -> Seq<i64> {
    s.sort_by(time_leq())
}

/// The fault found at position `i` (at least 1) of a sequence, if any.
pub open spec fn fault_at(s: Seq<i64>, period: int, i: int) -> Option<ShapeFault> {
    if s[i] == s[i - 1] {
        Some(ShapeFault::Duplicate { time: s[i] })
    } else if s[i] < s[i - 1] {
        Some(ShapeFault::OutOfOrder { time: s[i] })
    } else if (s[i] - s[i - 1]) % period != 0 {
        Some(ShapeFault::Misaligned { time: s[i] })
    } else {
        None
    }
}

/// The first fault met walking the sequence from its start.
pub open spec fn step_fault(s: Seq<i64>, period: int) -> Option<ShapeFault>
    decreases s.len(),
{
    if s.len() < 2 {
        None
    } else {
        match step_fault(s.drop_last(), period) {
            Some(f) => Some(f),
            None => fault_at(s, period, s.len() - 1),
        }
    }
}

/// Why a sequence of bucket times cannot be audited, if it cannot.
pub open spec fn shape_fault(s: Seq<i64>, period: int) -> Option<ShapeFault> {
    if period <= 0 {
        Some(ShapeFault::NonPositivePeriod)
    } else {
        step_fault(s, period)
    }
}

/// The missing run between observed times `a` and `b`.
pub open spec fn range_between(a: i64, b: i64, period: int) -> GapRange {
    GapRange { from: (a + period) as i64, to: b, missing: ((b - a) / period - 1) as u64 }
}

/// The missing runs of a well-shaped ascending sequence, in order.
pub open spec fn gap_ranges(s: Seq<i64>, period: int) -> Seq<GapRange>
    decreases s.len(),
{
    if s.len() < 2 {
        Seq::empty()
    } else {
        let prev = gap_ranges(s.drop_last(), period);
        let a = s[s.len() - 2];
        let b = s[s.len() - 1];
        if b - a == period {
            prev
        } else {
            prev.push(range_between(a, b, period))
        }
    }
}

/// The number of buckets that a list of runs leaves out.
pub open spec fn total_missing(r: Seq<GapRange>) -> int
    decreases r.len(),
{
    if r.len() == 0 {
        0
    } else {
        total_missing(r.drop_last()) + r.last().missing
    }
}

/// The report owed for a well-shaped ascending sequence.
pub open spec fn matches_gaps(g: GapReport, s: Seq<i64>, period: int) -> bool {
    &&& g.ranges@ == gap_ranges(s, period)
    &&& g.gap_count == total_missing(gap_ranges(s, period))
}

/// `<=` on bucket times is a total order, as sorting needs.
pub proof fn lemma_time_leq_total()
    ensures
        total_ordering(time_leq()),
{
}

/// A fault in a prefix is the first fault of the whole sequence.
proof fn lemma_fault_of_prefix(s: Seq<i64>, period: int, j: int)
    requires
        2 <= j <= s.len(),
        step_fault(s.subrange(0, j), period) is Some,
    ensures
        step_fault(s, period) == step_fault(s.subrange(0, j), period),
    decreases s.len(),
{
    if j < s.len() {
        let t = s.drop_last();
        assert(t.subrange(0, j) =~= s.subrange(0, j));
        lemma_fault_of_prefix(t, period, j);
    } else {
        assert(s.subrange(0, j) =~= s);
    }
}

/// Audits an ascending sequence of bucket times: stops at the first step that
/// is not a positive whole number of periods, else lists every missing run.
pub fn analyze_sorted(s: &Vec<i64>, period: i64) -> (r: Result<GapReport, ShapeFault>)
    ensures
        match shape_fault(s@, period as int) {
            Some(f) => r == Err::<GapReport, ShapeFault>(f),
            None => r is Ok && matches_gaps(r->Ok_0, s@, period as int),
        },
{
    if period <= 0 {
        return Err(ShapeFault::NonPositivePeriod);
    }
    let mut ranges: Vec<GapRange> = Vec::new();
    let mut count: u64 = 0;
    if s.len() < 2 {
        return Ok(GapReport { gap_count: count, ranges });
    }
    let p: u64 = period as u64;
    let mut i: usize = 1;
    let ghost mut k: int = 0;
    assert(s@.subrange(0, 1).len() == 1);
    while i < s.len()
        invariant
            1 <= i <= s.len(),
            p == period,
            period > 0,
            step_fault(s@.subrange(0, i as int), period as int) is None,
            ranges@ == gap_ranges(s@.subrange(0, i as int), period as int),
            count == total_missing(ranges@),
            s[i - 1] - s[0] == k * period,
            count == k - (i - 1),
        decreases s.len() - i,
    {
        let a = s[i - 1];
        let b = s[i];
        let ghost pre = s@.subrange(0, i as int);
        let ghost cur = s@.subrange(0, i + 1);
        assert(cur.drop_last() =~= pre);
        if b == a {
            proof {
                lemma_fault_of_prefix(s@, period as int, i + 1);
            }
            return Err(ShapeFault::Duplicate { time: b });
        }
        if b < a {
            proof {
                lemma_fault_of_prefix(s@, period as int, i + 1);
            }
            return Err(ShapeFault::OutOfOrder { time: b });
        }
        let diff: u64 = (b as i128 - a as i128) as u64;
        if diff % p != 0 {
            proof {
                lemma_fault_of_prefix(s@, period as int, i + 1);
            }
            return Err(ShapeFault::Misaligned { time: b });
        }
        let d: u64 = diff / p;
        proof {
            lemma_fundamental_div_mod(diff as int, p as int);
            assert(diff == p * d);
            assert(d >= 1) by (nonlinear_arith)
                requires diff == p * d, diff > 0, p > 0;
            assert(p <= diff) by (nonlinear_arith)
                requires diff == p * d, d >= 1, p > 0;
            assert(k * p + d * p == (k + d) * p) by (nonlinear_arith);
            assert(k + d <= (k + d) * p) by (nonlinear_arith)
                requires k + d >= 0, p >= 1;
            assert(s[i as int] - s[0] <= u64::MAX);
        }
        assert(cur[i - 1] == a && cur[i as int] == b);
        assert((b - a) / (period as int) == d);
        if d > 1 {
            assert(b - a != period) by (nonlinear_arith)
                requires b - a == p * d, d > 1, p > 0, p == period;
            let range = GapRange { from: a + period, to: b, missing: d - 1 };
            ranges.push(range);
            count = count + (d - 1);
            assert(ranges@.drop_last() =~= gap_ranges(pre, period as int));
        } else {
            assert(d == 1);
            assert(diff == p * 1);
            assert(b - a == period);
        }
        proof {
            k = k + d;
        }
        i += 1;
    }
    assert(s@.subrange(0, s.len() as int) =~= s@);
    Ok(GapReport { gap_count: count, ranges })
}

/// Relies on `slice::sort_unstable`: afterwards the slice holds the same values, ascending.
#[verifier::external_body]
fn sort_ascending(v: &mut Vec<i64>)
    ensures
        final(v)@.to_multiset() == old(v)@.to_multiset(),
        sorted_by(final(v)@, time_leq()),
{
    v.sort_unstable();
}

/// Sorts a copy of the bucket times ascending.
pub fn sorted_copy(times: &Vec<i64>) -> (r: Vec<i64>)
    ensures
        r@ == sorted_times(times@),
        r@.len() == times@.len(),
{
    let mut v = times.clone();
    sort_ascending(&mut v);
    proof {
        vstd::seq_lib::to_multiset_len(v@);
        vstd::seq_lib::to_multiset_len(times@);
        lemma_time_leq_total();
        times@.lemma_sort_by_ensures(time_leq());
        vstd::seq_lib::lemma_sorted_unique(v@, sorted_times(times@), time_leq());
    }
    v
}

/// Audits the bucket times of a batch, in whatever order they came: sorts them,
/// then reports every run of missing buckets and their total.
pub fn analyze_gaps(times: &Vec<i64>, period: i64) -> (r: Result<GapReport, ShapeFault>)
    ensures
        match shape_fault(sorted_times(times@), period as int) {
            Some(f) => r == Err::<GapReport, ShapeFault>(f),
            None => r is Ok && matches_gaps(r->Ok_0, sorted_times(times@), period as int),
        },
{
    let sorted = sorted_copy(times);
    analyze_sorted(&sorted, period)
}

} // verus!
