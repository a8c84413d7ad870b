//! Where ingestion resumes, and how one fetched batch is merged into the store.
use crate::candle::{lemma_max_time, max_time, times_of, Candle};
use crate::gap::{matches_gaps, shape_fault, sorted_copy, sorted_times, analyze_sorted, GapReport, ShapeFault};
use crate::store::{insertable, without_time, CandleTable, StoreFault};
use vstd::prelude::*;

verus! {

/// The cursor used when a series has no rows yet: 2018-01-01T00:00:00Z, the
/// start of the history this system keeps.
pub const EPOCH_DEFAULT: i64 = 1514764800;

/// The fetch cursor for a series with the given watermark.
pub open spec fn cursor_for(watermark: Option<i64>) -> i64 {
    match watermark {
        Some(w) => w,
        None => EPOCH_DEFAULT,
    }
}

/// The boundary row to delete before a non-empty batch fetched from `after`:
/// the bucket at the cursor, unless the cursor is the epoch default.
pub open spec fn boundary_for(after: i64) -> Option<i64> {
    if after != EPOCH_DEFAULT {
        Some(after)
    } else {
        None
    }
}

/// The bucket times of a batch, ascending.
pub open spec fn batch_times(b: Seq<Candle>) -> Seq<i64> {
    sorted_times(times_of(b))
}

/// Why a batch cannot be ingested as it stands; an empty batch always can.
pub open spec fn batch_fault(b: Seq<Candle>, period: int) -> Option<ShapeFault> {
    if b.len() == 0 {
        None
    } else {
        shape_fault(batch_times(b), period)
    }
}

/// The summary of one reconciliation.
#[derive(Debug)]
pub struct Report {
    /// How many candles were written.
    pub ingested: usize,
    /// The earliest bucket time of the batch.
    pub earliest: Option<i64>,
    /// The latest bucket time of the batch.
    pub latest: Option<i64>,
    /// The audit of the batch for missing buckets.
    pub gaps: GapReport,
}

/// What a store must do to take in one fetched batch: delete the boundary
/// row, if any, then insert `rows` in one transaction.
#[derive(Debug)]
pub struct IngestPlan {
    pub delete: Option<i64>,
    pub rows: Vec<Candle>,
    pub report: Report,
}

/// `r` is the report owed for batch `b`.
pub open spec fn report_of(r: Report, b: Seq<Candle>, period: int) -> bool {
    &&& r.ingested == b.len()
    &&& if b.len() == 0 {
        &&& r.earliest is None
        &&& r.latest is None
        &&& r.gaps.gap_count == 0
        &&& r.gaps.ranges@.len() == 0
    } else {
        &&& r.earliest == Some(batch_times(b)[0])
        &&& r.latest == Some(batch_times(b).last())
        &&& matches_gaps(r.gaps, batch_times(b), period)
    }
}

/// `p` is the plan owed for batch `b` fetched from cursor `after`.
pub open spec fn plan_of(p: IngestPlan, after: i64, b: Seq<Candle>, period: int) -> bool {
    &&& p.delete == (if b.len() == 0 { None } else { boundary_for(after) })
    &&& p.rows@ == b
    &&& report_of(p.report, b, period)
}

/// The rows of `s` that a batch fetched from `after` leaves in place.
pub open spec fn kept_rows(s: Seq<Candle>, after: i64) -> Seq<Candle> {
    match boundary_for(after) {
        Some(t) => without_time(s, t),
        None => s,
    }
}

/// Reconciling batch `b`, fetched from `after`, into rows `s` succeeds.
pub open spec fn ingest_ok(s: Seq<Candle>, after: i64, b: Seq<Candle>, period: int) -> bool {
    b.len() == 0 || (batch_fault(b, period) is None && insertable(kept_rows(s, after), b))
}

/// The rows after reconciling batch `b`, fetched from `after`, into rows `s`.
pub open spec fn ingest_result(s: Seq<Candle>, after: i64, b: Seq<Candle>) -> Seq<Candle> {
    if b.len() == 0 {
        s
    } else {
        kept_rows(s, after) + b
    }
}

/// Why a reconciliation wrote nothing.
#[derive(Clone, Copy, Debug, PartialEq, Eq, Structural)]
pub enum ReconcileError {
    /// The batch's bucket times do not fit the period grid.
    Shape(ShapeFault),
    /// A batch row collides with a stored row other than the boundary one.
    Store(StoreFault),
}

/// The fetch cursor for a series with the given watermark: the watermark
/// itself, so that the last known bucket is fetched again, or the epoch
/// default when the series is empty.
pub fn resolve(watermark: Option<i64>) -> (r: i64)
    ensures
        r == cursor_for(watermark),
{
    match watermark {
        Some(w) => w,
        None => EPOCH_DEFAULT,
    }
}

/// Plans the ingestion of a batch fetched from cursor `after`: an empty batch
/// asks for nothing; otherwise the batch is audited and, if its bucket times
/// fit the period grid, the boundary row is deleted and the batch inserted
/// as it came.
pub fn plan_ingest(after: i64, batch: Vec<Candle>, period: i64) -> (r: Result<IngestPlan, ShapeFault>)
    ensures
        match batch_fault(batch@, period as int) {
            Some(f) => r == Err::<IngestPlan, ShapeFault>(f),
            None => r is Ok && plan_of(r->Ok_0, after, batch@, period as int),
        },
{
    let n = batch.len();
    if n == 0 {
        let gaps = GapReport { gap_count: 0, ranges: Vec::new() };
        let report = Report { ingested: 0, earliest: None, latest: None, gaps };
        return Ok(IngestPlan { delete: None, rows: batch, report });
    }
    let mut times: Vec<i64> = Vec::new();
    let mut i: usize = 0;
    while i < n
        invariant
            n == batch@.len(),
            0 <= i <= n,
            times@.len() == i,
            forall|j: int| 0 <= j < i ==> times@[j] == batch@[j].bucket_time,
        decreases n - i,
    {
        times.push(batch[i].bucket_time);
        i += 1;
    }
    assert(times@ =~= times_of(batch@));
    let sorted = sorted_copy(&times);
    let gaps = match analyze_sorted(&sorted, period) {
        Ok(g) => g,
        Err(f) => return Err(f),
    };
    let earliest = sorted[0];
    let latest = sorted[n - 1];
    let delete = resolve_boundary(after);
    let report = Report { ingested: n, earliest: Some(earliest), latest: Some(latest), gaps };
    Ok(IngestPlan { delete, rows: batch, report })
}

/// The boundary row to delete before inserting a batch fetched from `after`.
pub fn resolve_boundary(after: i64) -> (r: Option<i64>)
    ensures
        r == boundary_for(after),
{
    if after != EPOCH_DEFAULT {
        Some(after)
    } else {
        None
    }
}

impl CandleTable {
    /// The cursor from which the next fetch of this series starts.
    pub fn resolve(&self) -> (r: i64)
        ensures
            r == cursor_for(max_time(self@)),
    {
        resolve(self.watermark())
    }

    /// Merges a batch fetched from cursor `after` into the table: deletes the
    /// boundary row, inserts the batch, and reports on it. Nothing is written
    /// unless all of it can be, and readers never see the boundary row missing.
    pub fn reconcile(&mut self, after: i64, batch: Vec<Candle>, period: i64) -> (r: Result<Report, ReconcileError>)
        requires
            old(self).wf(),
        ensures
            final(self).wf(),
            r is Ok <==> ingest_ok(old(self)@, after, batch@, period as int),
            r is Ok ==> final(self)@ == ingest_result(old(self)@, after, batch@)
                && report_of(r->Ok_0, batch@, period as int),
            r is Err ==> final(self)@ == old(self)@,
            batch_fault(batch@, period as int) matches Some(f) ==> r == Err::<Report, ReconcileError>(ReconcileError::Shape(f)),
    {
        let ghost b = batch@;
        let plan = match plan_ingest(after, batch, period) {
            Ok(p) => p,
            Err(f) => return Err(ReconcileError::Shape(f)),
        };
        if plan.rows.len() == 0 {
            return Ok(plan.report);
        }
        let mut staged = self.snapshot();
        if let Some(t) = plan.delete {
            staged.delete_one(t);
        }
        match staged.insert_batch(&plan.rows) {
            Ok(_) => {
                *self = staged;
                Ok(plan.report)
            },
            Err(e) => Err(ReconcileError::Store(e)),
        }
    }
}

} // verus!
