//! Properties that relate several steps of the ingestion pipeline.
use crate::candle::{distinct_times, has_time, lemma_max_time, max_time, times_of, Candle};
use crate::gap::{
    fault_at, gap_ranges, lemma_time_leq_total, shape_fault, step_fault, time_leq, total_missing,
};
use crate::reconcile::{
    batch_fault, batch_times, cursor_for, ingest_ok, ingest_result, kept_rows, EPOCH_DEFAULT,
};
use crate::store::{not_at, without_time};
use vstd::arithmetic::div_mod::lemma_fundamental_div_mod;
use vstd::prelude::*;

verus! {

broadcast use vstd::seq_lib::group_seq_properties, vstd::seq_lib::group_filter_ensures;

/// A candle lies at or after bucket `t`.
pub open spec fn at_or_after(t: i64) -> spec_fn(Candle) -> bool {
    |c: Candle| c.bucket_time >= t
}

/// What a provider holding the rows `remote` answers to a fetch from cursor
/// `after`: its rows at or after the cursor, in its own order.
pub open spec fn fetched(remote: Seq<Candle>, after: i64) -> Seq<Candle> {
    remote.filter(at_or_after(after))
}

proof fn lemma_filter_iff(s: Seq<Candle>, p: spec_fn(Candle) -> bool, x: Candle)
    ensures
        s.filter(p).contains(x) <==> s.contains(x) && p(x),
{
    if s.filter(p).contains(x) {
        s.lemma_filter_contains_rev(p, x);
        let i = choose|i: int| 0 <= i < s.filter(p).len() && s.filter(p)[i] == x;
        s.lemma_filter_pred(p, i);
    }
    if s.contains(x) && p(x) {
        let i = choose|i: int| 0 <= i < s.len() && s[i] == x;
        s.lemma_filter_contains(p, i);
    }
}

/// Keeping some rows of a table keeps its bucket times distinct.
proof fn lemma_filter_distinct(s: Seq<Candle>, p: spec_fn(Candle) -> bool)
    requires
        distinct_times(s),
    ensures
        distinct_times(s.filter(p)),
    decreases s.len(),
{
    reveal(Seq::filter);
    if s.len() > 0 {
        let t = s.drop_last();
        assert(distinct_times(t)) by {
            assert forall|i: int, j: int|
                0 <= i < t.len() && 0 <= j < t.len() && i != j implies t[i].bucket_time != t[j].bucket_time by {
                assert(t[i] == s[i] && t[j] == s[j]);
            }
        }
        lemma_filter_distinct(t, p);
        let f = t.filter(p);
        if p(s.last()) {
            assert forall|i: int| 0 <= i < f.len() implies f[i].bucket_time != s.last().bucket_time by {
                t.lemma_filter_contains_rev(p, f[i]);
                let m = choose|m: int| 0 <= m < t.len() && t[m] == f[i];
                assert(s[m] == t[m]);
            }
            let g = f.push(s.last());
            assert forall|i: int, j: int|
                0 <= i < g.len() && 0 <= j < g.len() && i != j implies g[i].bucket_time != g[j].bucket_time by {
                if i < f.len() && j < f.len() {
                    assert(g[i] == f[i] && g[j] == f[j]);
                }
            }
        }
    }
}

/// A batch of one candle is sorted as it stands.
proof fn lemma_single_batch(b: Seq<Candle>, period: int)
    requires
        b.len() == 1,
        period > 0,
    ensures
        batch_fault(b, period) is None,
{
    lemma_time_leq_total();
    times_of(b).lemma_sort_by_ensures(time_leq());
    vstd::seq_lib::to_multiset_len(times_of(b));
    vstd::seq_lib::to_multiset_len(batch_times(b));
}

/// Idempotence: when the provider holds a fixed set of rows, a second
/// reconciliation right after a successful one succeeds and leaves the same
/// rows. Rows at exactly the epoch default are left out: a cursor there is
/// read as "no data yet", so the boundary row is not deleted.
pub proof fn law_reconcile_twice(s: Seq<Candle>, remote: Seq<Candle>, period: int)
    requires
        distinct_times(s),
        distinct_times(remote),
        !has_time(s, EPOCH_DEFAULT),
        !has_time(remote, EPOCH_DEFAULT),
        ingest_ok(s, cursor_for(max_time(s)), fetched(remote, cursor_for(max_time(s))), period),
    ensures
        ({
            let a1 = cursor_for(max_time(s));
            let s1 = ingest_result(s, a1, fetched(remote, a1));
            let a2 = cursor_for(max_time(s1));
            let b2 = fetched(remote, a2);
            &&& ingest_ok(s1, a2, b2, period)
            &&& ingest_result(s1, a2, b2).to_set() == s1.to_set()
        }),
{
    let a1 = cursor_for(max_time(s));
    let b1 = fetched(remote, a1);
    let s1 = ingest_result(s, a1, b1);
    let a2 = cursor_for(max_time(s1));
    let b2 = fetched(remote, a2);
    let r2 = ingest_result(s1, a2, b2);
    if b1.len() == 0 {
        assert(r2 == s1);
    } else {
        lemma_max_time(s);
        let kept1 = kept_rows(s, a1);
        assert(s1 == kept1 + b1);
        // The rows kept from before lie strictly before the first cursor.
        assert forall|x: Candle| kept1.contains(x) implies x.bucket_time < a1 by {
            if max_time(s) is Some {
                let w = max_time(s)->Some_0;
                assert(w != EPOCH_DEFAULT);
                lemma_filter_iff(s, not_at(w), x);
                let i = choose|i: int| 0 <= i < s.len() && s[i] == x;
            }
        }
        lemma_max_time(s1);
        let w2 = max_time(s1)->Some_0;
        assert(b1.contains(b1[0]));
        lemma_filter_iff(remote, at_or_after(a1), b1[0]);
        assert(s1.contains(b1[0]));
        let k0 = choose|k: int| 0 <= k < s1.len() && s1[k] == b1[0];
        assert(w2 >= a1);
        let j = choose|j: int| 0 <= j < s1.len() && s1[j].bucket_time == w2;
        let y = s1[j];
        assert(s1.contains(y));
        assert(b1.contains(y));
        lemma_filter_iff(remote, at_or_after(a1), y);
        let m = choose|m: int| 0 <= m < remote.len() && remote[m] == y;
        assert(w2 != EPOCH_DEFAULT);
        assert(a2 == w2);
        // Every row fetched the second time sits at the new watermark and was
        // fetched the first time as well.
        assert forall|x: Candle| b2.contains(x) implies x.bucket_time == w2 && b1.contains(x) by {
            lemma_filter_iff(remote, at_or_after(w2), x);
            lemma_filter_iff(remote, at_or_after(a1), x);
            assert(s1.contains(x));
            let i = choose|i: int| 0 <= i < s1.len() && s1[i] == x;
        }
        lemma_filter_distinct(remote, at_or_after(w2));
        assert(b2.len() <= 1) by {
            if b2.len() >= 2 {
                assert(b2.contains(b2[0]));
                assert(b2.contains(b2[1]));
            }
        }
        if b2.len() == 1 {
            lemma_single_batch(b2, period);
        }
        let kept2 = without_time(s1, w2);
        assert(kept_rows(s1, a2) == kept2);
        assert forall|i: int, k: int|
            0 <= i < kept2.len() && 0 <= k < b2.len() implies kept2[i].bucket_time != b2[k].bucket_time by {
            assert(b2.contains(b2[k]));
        }
        assert forall|x: Candle| r2.contains(x) <==> s1.contains(x) by {
            lemma_filter_iff(s1, not_at(w2), x);
            lemma_filter_iff(remote, at_or_after(w2), x);
            if s1.contains(x) && x.bucket_time == w2 {
                if kept1.contains(x) {
                } else {
                    lemma_filter_iff(remote, at_or_after(a1), x);
                }
            }
        }
        assert(r2.to_set() =~= s1.to_set());
    }
}

/// Monotonicity: after a successful reconciliation of a non-empty batch the
/// next cursor is at or after every bucket time just written.
pub proof fn law_cursor_covers_batch(s: Seq<Candle>, after: i64, b: Seq<Candle>, period: int)
    requires
        ingest_ok(s, after, b, period),
        b.len() > 0,
    ensures
        forall|i: int|
            0 <= i < b.len() ==> b[i].bucket_time <= cursor_for(max_time(ingest_result(s, after, b))),
{
    let s1 = ingest_result(s, after, b);
    lemma_max_time(s1);
    let k = kept_rows(s, after);
    assert forall|i: int| 0 <= i < b.len() implies b[i].bucket_time <= cursor_for(max_time(s1)) by {
        assert(s1[k.len() + i] == b[i]);
    }
}

/// The gap count is exact: on bucket times that fit the period grid, the
/// first and last times lie (observed + missing - 1) periods apart, so every
/// grid point between them is either observed or counted as missing.
pub proof fn law_gap_count_fills_grid(s: Seq<i64>, period: int)
    requires
        s.len() >= 1,
        shape_fault(s, period) is None,
    ensures
        s.last() - s[0] == period * (s.len() - 1 + total_missing(gap_ranges(s, period))),
    decreases s.len(),
{
    if s.len() >= 2 {
        let t = s.drop_last();
        assert(step_fault(t, period) is None);
        assert(fault_at(s, period, s.len() - 1) is None);
        law_gap_count_fills_grid(t, period);
        let a = s[s.len() - 2];
        let b = s.last();
        assert(t.last() == a && t[0] == s[0]);
        let q = (b - a) / period;
        lemma_fundamental_div_mod(b - a, period);
        assert(b - a == period * q);
        let tm = total_missing(gap_ranges(t, period));
        let n = t.len();
        if b - a == period {
            assert(q == 1) by (nonlinear_arith)
                requires b - a == period * q, b - a == period, period > 0;
            assert(gap_ranges(s, period) == gap_ranges(t, period));
        } else {
            assert(q >= 2) by (nonlinear_arith)
                requires b - a == period * q, b - a != period, b - a > 0, period > 0;
            let g = gap_ranges(s, period);
            assert(g.drop_last() == gap_ranges(t, period));
            assert(g.last().missing == q - 1);
        }
        assert(total_missing(gap_ranges(s, period)) == tm + q - 1);
        assert(period * (n - 1 + tm) + period * q == period * (n + tm + q - 1)) by (nonlinear_arith);
        assert(s.len() - 1 + total_missing(gap_ranges(s, period)) == n + tm + q - 1);
    } else {
        assert(total_missing(gap_ranges(s, period)) == 0);
        assert(s.last() == s[0]);
        assert(period * (s.len() - 1 + 0) == 0) by (nonlinear_arith)
            requires s.len() == 1;
    }
}

} // verus!
