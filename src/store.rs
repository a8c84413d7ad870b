//! An in-memory candle store for one (source, instrument, period) series.
use crate::candle::{distinct_times, has_time, lemma_max_time, max_time, Candle};
use vstd::prelude::*;

verus! {

/// Two sequences have no bucket time in common.
pub open spec fn disjoint_times(a: Seq<Candle>, b: Seq<Candle>) -> bool {
    forall|i: int, j: int|
        0 <= i < a.len() && 0 <= j < b.len() ==> a[i].bucket_time != b[j].bucket_time
}

/// A candle lies outside bucket `t`.
pub open spec fn not_at(t: i64) -> spec_fn(Candle) -> bool {
    |c: Candle| c.bucket_time != t
}

/// The rows that remain after deleting bucket `t`.
pub open spec fn without_time(s: Seq<Candle>, t: i64) -> Seq<Candle> {
    s.filter(not_at(t))
}

/// A batch can be inserted into `s` without a duplicate key.
pub open spec fn insertable(s: Seq<Candle>, batch: Seq<Candle>) -> bool {
    distinct_times(batch) && disjoint_times(s, batch)
}

/// A store write refused because the key (series, bucket time) is taken.
#[derive(Clone, Copy, Debug, PartialEq, Eq, Structural)]
pub enum StoreFault {
    /// The bucket time is already stored, or occurs twice in the batch.
    Conflict { time: i64 },
}

/// The rows of one series, at most one per bucket time.
pub struct CandleTable {
    rows: Vec<Candle>,
}

impl View for CandleTable {
    type V = Seq<Candle>;

    closed spec fn view(&self) -> Seq<Candle> {
        self.rows@
    }
}

impl CandleTable {
    /// Well-formed: no two rows share a bucket time.
    pub open spec fn wf(&self) -> bool {
        distinct_times(self@)
    }

    /// An empty table.
    pub fn new() -> (r: Self)
        ensures
            r.wf(),
            r@ == Seq::<Candle>::empty(),
    {
        CandleTable { rows: Vec::new() }
    }

    /// The number of rows.
    pub fn len(&self) -> (r: usize)
        ensures
            r == self@.len(),
    {
        self.rows.len()
    }

    /// The watermark: the largest stored bucket time, `None` when nothing is stored.
    pub fn watermark(&self) -> (r: Option<i64>)
        ensures
            r == max_time(self@),
    {
        let mut best: Option<i64> = None;
        let mut i: usize = 0;
        while i < self.rows.len()
            invariant
                0 <= i <= self@.len(),
                best == max_time(self@.subrange(0, i as int)),
            decreases self@.len() - i,
        {
            proof {
                assert(self@.subrange(0, i + 1).drop_last() =~= self@.subrange(0, i as int));
            }
            let t = self.rows[i].bucket_time;
            best = match best {
                None => Some(t),
                Some(m) => Some(if t > m { t } else { m }),
            };
            i += 1;
        }
        proof {
            assert(self@.subrange(0, self@.len() as int) =~= self@);
        }
        best
    }

    /// Deletes the row at bucket `t`, if there is one; returns how many rows went (0 or 1).
    pub fn delete_one(&mut self, t: i64) -> (r: usize)
        requires
            old(self).wf(),
        ensures
            final(self).wf(),
            final(self)@ == without_time(old(self)@, t),
            r == (if has_time(old(self)@, t) { 1usize } else { 0usize }),
    {
        let ghost s = self@;
        let mut kept: Vec<Candle> = Vec::new();
        let mut removed: usize = 0;
        let mut i: usize = 0;
        while i < self.rows.len()
            invariant
                self@ == s,
                distinct_times(s),
                0 <= i <= s.len(),
                kept@ == without_time(s.subrange(0, i as int), t),
                distinct_times(kept@),
                forall|j: int| 0 <= j < kept@.len() ==> has_time(s.subrange(0, i as int), #[trigger] kept@[j].bucket_time),
                removed <= 1,
                removed == 0 <==> !has_time(s.subrange(0, i as int), t),
            decreases s.len() - i,
        {
            let ghost pre = s.subrange(0, i as int);
            let ghost cur = s.subrange(0, i + 1);
            proof {
                assert(cur.drop_last() =~= pre);
                assert(cur.last() == s[i as int]);
                reveal(Seq::filter);
                assert forall|j: int| 0 <= j < pre.len() implies pre[j] == cur[j] by {}
            }
            let c = self.rows[i];
            if c.bucket_time != t {
                proof {
                    assert forall|j: int| 0 <= j < kept@.len() implies kept@[j].bucket_time != c.bucket_time by {
                        let m = choose|m: int| 0 <= m < pre.len() && pre[m].bucket_time == kept@[j].bucket_time;
                        assert(s[m] == pre[m]);
                    }
                }
                kept.push(c);
            } else {
                proof {
                    if removed == 1 {
                        let m = choose|m: int| 0 <= m < pre.len() && pre[m].bucket_time == t;
                        assert(s[m] == pre[m]);
                    }
                }
                removed = removed + 1;
            }
            proof {
                assert forall|j: int| 0 <= j < kept@.len() implies has_time(cur, #[trigger] kept@[j].bucket_time) by {
                    if j < kept@.len() - 1 || c.bucket_time == t {
                        let m = choose|m: int| 0 <= m < pre.len() && pre[m].bucket_time == kept@[j].bucket_time;
                        assert(cur[m] == pre[m]);
                    } else {
                        assert(cur[i as int] == c);
                    }
                }
                if has_time(pre, t) {
                    let m = choose|m: int| 0 <= m < pre.len() && pre[m].bucket_time == t;
                    assert(cur[m] == pre[m]);
                }
                if has_time(cur, t) && !has_time(pre, t) {
                    let m = choose|m: int| 0 <= m < cur.len() && cur[m].bucket_time == t;
                    if m < i {
                        assert(pre[m] == cur[m]);
                    }
                }
            }
            i += 1;
        }
        proof {
            assert(s.subrange(0, s.len() as int) =~= s);
        }
        self.rows = kept;
        removed
    }

    /// Inserts every row of the batch, or none of them: a bucket time that is
    /// already stored, or that the batch holds twice, refuses the whole batch.
    pub fn insert_batch(&mut self, batch: &Vec<Candle>) -> (r: Result<usize, StoreFault>)
        requires
            old(self).wf(),
        ensures
            final(self).wf(),
            r is Ok <==> insertable(old(self)@, batch@),
            r is Ok ==> r->Ok_0 == batch@.len() && final(self)@ == old(self)@ + batch@,
            r is Err ==> final(self)@ == old(self)@,
            r matches Err(StoreFault::Conflict { time }) ==> has_time(batch@, time),
    {
        let mut j: usize = 0;
        while j < batch.len()
            invariant
                0 <= j <= batch@.len(),
                self.wf(),
                forall|a: int, b: int|
                    0 <= a < j && 0 <= b < batch@.len() && a != b ==> batch@[a].bucket_time != batch@[b].bucket_time,
                forall|a: int, b: int|
                    0 <= a < self@.len() && 0 <= b < j ==> self@[a].bucket_time != batch@[b].bucket_time,
            decreases batch@.len() - j,
        {
            let t = batch[j].bucket_time;
            let mut k: usize = 0;
            while k < batch.len()
                invariant
                    self.wf(),
                    0 <= j < batch@.len(),
                    t == batch@[j as int].bucket_time,
                    0 <= k <= batch@.len(),
                    forall|b: int| 0 <= b < k && b != j ==> batch@[b].bucket_time != t,
                decreases batch@.len() - k,
            {
                if k != j && batch[k].bucket_time == t {
                    return Err(StoreFault::Conflict { time: t });
                }
                k += 1;
            }
            let mut m: usize = 0;
            while m < self.rows.len()
                invariant
                    self.wf(),
                    0 <= j < batch@.len(),
                    t == batch@[j as int].bucket_time,
                    0 <= m <= self@.len(),
                    forall|a: int| 0 <= a < m ==> self@[a].bucket_time != t,
                decreases self@.len() - m,
            {
                if self.rows[m].bucket_time == t {
                    return Err(StoreFault::Conflict { time: t });
                }
                m += 1;
            }
            j += 1;
        }
        let mut n: usize = 0;
        let ghost s = self@;
        while n < batch.len()
            invariant
                0 <= n <= batch@.len(),
                self@ == s + batch@.subrange(0, n as int),
            decreases batch@.len() - n,
        {
            self.rows.push(batch[n]);
            proof {
                assert(s + batch@.subrange(0, n + 1) =~= (s + batch@.subrange(0, n as int)).push(batch@[n as int]));
            }
            n += 1;
        }
        proof {
            assert(batch@.subrange(0, batch@.len() as int) =~= batch@);
            assert forall|a: int, b: int|
                0 <= a < self@.len() && 0 <= b < self@.len() && a != b implies self@[a].bucket_time != self@[b].bucket_time by {
                if a >= s.len() && b >= s.len() {
                    assert(self@[a] == batch@[a - s.len()]);
                    assert(self@[b] == batch@[b - s.len()]);
                } else if a >= s.len() {
                    assert(self@[a] == batch@[a - s.len()]);
                    assert(self@[b] == s[b]);
                } else if b >= s.len() {
                    assert(self@[b] == batch@[b - s.len()]);
                    assert(self@[a] == s[a]);
                }
            }
        }
        Ok(batch.len())
    }

    /// A separate table holding the same rows.
    pub fn snapshot(&self) -> (r: Self)
        ensures
            r@ == self@,
    {
        CandleTable { rows: self.rows.clone() }
    }

    /// Every row of the series; the order is the order of insertion.
    pub fn read_range(&self) -> (r: Vec<Candle>)
        ensures
            r@ == self@,
    {
        self.rows.clone()
    }
}

} // verus!
