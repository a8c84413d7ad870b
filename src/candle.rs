//! One time bucket of trading activity, and facts about sequences of them.
use vstd::prelude::*;

verus! {

/// One bucket of one (source, instrument, period) series. The prices and the
/// volume are carried as IEEE 754 binary64 bit patterns: the pipeline moves
/// them between the provider and the store and never computes on them.
#[derive(Clone, Copy, Debug, PartialEq, Eq, Structural)]
pub struct Candle {
    pub bucket_time: i64,
    pub open: u64,
    pub high: u64,
    pub low: u64,
    pub close: u64,
    pub volume: u64,
}

/// The bucket times of a sequence of candles, in the same order.
pub open spec fn times_of(s: Seq<Candle>) -> Seq<i64> {
    s.map_values(|c: Candle| c.bucket_time)
}

/// No two candles share a bucket time.
pub open spec fn distinct_times(s: Seq<Candle>) -> bool {
    forall|i: int, j: int|
        0 <= i < s.len() && 0 <= j < s.len() && i != j ==> s[i].bucket_time != s[j].bucket_time
}

/// Some candle of the sequence sits in bucket `t`.
pub open spec fn has_time(s: Seq<Candle>, t: i64) -> bool {
    exists|i: int| 0 <= i < s.len() && s[i].bucket_time == t
}

/// The largest bucket time of a sequence, or `None` when it is empty.
pub open spec fn max_time(s: Seq<Candle>) -> Option<i64>
    decreases s.len(),
{
    if s.len() == 0 {
        None
    } else {
        match max_time(s.drop_last()) {
            None => Some(s.last().bucket_time),
            Some(m) => Some(if s.last().bucket_time > m { s.last().bucket_time } else { m }),
        }
    }
}

/// `max_time` is absent exactly on the empty sequence, and otherwise is a
/// bucket time of the sequence that no other exceeds.
pub proof fn lemma_max_time(s: Seq<Candle>)
    ensures
        max_time(s) is None <==> s.len() == 0,
        max_time(s) is Some ==> has_time(s, max_time(s)->Some_0),
        max_time(s) is Some ==> forall|i: int|
            0 <= i < s.len() ==> s[i].bucket_time <= max_time(s)->Some_0,
    decreases s.len(),
{
    if s.len() > 0 {
        let t = s.drop_last();
        lemma_max_time(t);
        assert forall|i: int| 0 <= i < t.len() implies t[i] == s[i] by {}
        if max_time(t) is Some {
            let j = choose|j: int| 0 <= j < t.len() && t[j].bucket_time == max_time(t)->Some_0;
            assert(s[j] == t[j]);
        }
        assert(s[s.len() - 1] == s.last());
    }
}

} // verus!
