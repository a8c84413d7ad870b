use fetch_ohlcv::bot::{Bot, BotList};
use fetch_ohlcv::candle::Candle;
use fetch_ohlcv::gap::{analyze_gaps, analyze_sorted, sorted_copy, GapRange, ShapeFault};
use fetch_ohlcv::reconcile::{plan_ingest, resolve, resolve_boundary, ReconcileError, EPOCH_DEFAULT};
use fetch_ohlcv::store::{CandleTable, StoreFault};

fn candle(t: i64, price: f64) -> Candle {
    Candle {
        bucket_time: t,
        open: price.to_bits(),
        high: (price + 1.0).to_bits(),
        low: (price - 1.0).to_bits(),
        close: price.to_bits(),
        volume: 10.5f64.to_bits(),
    }
}

fn table_with(rows: &[Candle]) -> CandleTable {
    let mut t = CandleTable::new();
    t.insert_batch(&rows.to_vec()).unwrap();
    t
}

#[test]
fn gap_example_from_three_times() {
    let g = analyze_gaps(&vec![100, 160, 180], 20).unwrap();
    assert_eq!(g.gap_count, 2);
    assert_eq!(g.ranges, vec![GapRange { from: 120, to: 160, missing: 2 }]);
}

#[test]
fn gap_analysis_sorts_first() {
    let g = analyze_gaps(&vec![180, 100, 160], 20).unwrap();
    assert_eq!(g.gap_count, 2);
    assert_eq!(g.ranges, vec![GapRange { from: 120, to: 160, missing: 2 }]);
}

#[test]
fn gap_analysis_several_runs() {
    let g = analyze_gaps(&vec![0, 60, 120, 300, 360, 600], 60).unwrap();
    assert_eq!(g.gap_count, 5);
    assert_eq!(
        g.ranges,
        vec![
            GapRange { from: 180, to: 300, missing: 2 },
            GapRange { from: 420, to: 600, missing: 3 },
        ]
    );
}

#[test]
fn gap_analysis_empty_and_single() {
    let g = analyze_gaps(&vec![], 60).unwrap();
    assert_eq!(g.gap_count, 0);
    assert!(g.ranges.is_empty());
    let g = analyze_gaps(&vec![1514764800], 60).unwrap();
    assert_eq!(g.gap_count, 0);
    assert!(g.ranges.is_empty());
}

#[test]
fn gap_analysis_without_gaps() {
    let g = analyze_gaps(&vec![120, 60, 0, 180], 60).unwrap();
    assert_eq!(g.gap_count, 0);
    assert!(g.ranges.is_empty());
}

#[test]
fn gap_analysis_rejects_bad_period() {
    assert_eq!(analyze_gaps(&vec![100, 120], 0).unwrap_err(), ShapeFault::NonPositivePeriod);
    assert_eq!(analyze_gaps(&vec![100, 120], -20).unwrap_err(), ShapeFault::NonPositivePeriod);
}

#[test]
fn gap_analysis_rejects_misaligned_time() {
    assert_eq!(
        analyze_gaps(&vec![100, 160, 170], 20).unwrap_err(),
        ShapeFault::Misaligned { time: 170 }
    );
    assert_eq!(analyze_gaps(&vec![100, 150], 20).unwrap_err(), ShapeFault::Misaligned { time: 150 });
}

#[test]
fn gap_analysis_rejects_duplicate_time() {
    assert_eq!(analyze_gaps(&vec![160, 100, 160], 20).unwrap_err(), ShapeFault::Duplicate { time: 160 });
}

#[test]
fn sorted_analysis_rejects_descending_step() {
    assert_eq!(analyze_sorted(&vec![160, 100], 20).unwrap_err(), ShapeFault::OutOfOrder { time: 100 });
}

#[test]
fn gap_analysis_extreme_times() {
    let g = analyze_gaps(&vec![i64::MIN, i64::MAX], 1).unwrap();
    assert_eq!(g.gap_count, u64::MAX - 1);
    assert_eq!(g.ranges, vec![GapRange { from: i64::MIN + 1, to: i64::MAX, missing: u64::MAX - 1 }]);
}

#[test]
fn sorted_copy_orders_ascending() {
    assert_eq!(sorted_copy(&vec![300, -5, 120, 7]), vec![-5, 7, 120, 300]);
}

#[test]
fn resolve_uses_watermark_or_epoch() {
    assert_eq!(EPOCH_DEFAULT, 1514764800);
    assert_eq!(resolve(None), EPOCH_DEFAULT);
    assert_eq!(resolve(Some(1600000000)), 1600000000);
    assert_eq!(resolve_boundary(EPOCH_DEFAULT), None);
    assert_eq!(resolve_boundary(1600000000), Some(1600000000));
}

#[test]
fn epoch_default_for_empty_table() {
    let t = CandleTable::new();
    assert_eq!(t.watermark(), None);
    assert_eq!(t.resolve(), EPOCH_DEFAULT);
    let plan = plan_ingest(t.resolve(), vec![candle(1514764860, 1.0), candle(1514764920, 2.0)], 60).unwrap();
    assert_eq!(plan.delete, None);
    assert_eq!(plan.rows.len(), 2);
    assert_eq!(plan.report.ingested, 2);
}

#[test]
fn epoch_default_first_reconcile_inserts_batch() {
    let mut t = CandleTable::new();
    let after = t.resolve();
    let batch = vec![candle(1514764860, 1.0), candle(1514764980, 2.0)];
    let report = t.reconcile(after, batch.clone(), 60).unwrap();
    assert_eq!(report.ingested, 2);
    assert_eq!(report.gaps.gap_count, 1);
    assert_eq!(t.read_range(), batch);
    assert_eq!(t.watermark(), Some(1514764980));
}

#[test]
fn boundary_row_is_replaced() {
    let old = candle(500, 1.0);
    let mut t = table_with(&[old]);
    let after = t.resolve();
    assert_eq!(after, 500);
    let fresh = candle(500, 2.0);
    let next = candle(520, 3.0);
    let report = t.reconcile(after, vec![fresh, next], 20).unwrap();
    assert_eq!(report.ingested, 2);
    assert_eq!(report.earliest, Some(500));
    assert_eq!(report.latest, Some(520));
    assert_eq!(report.gaps.gap_count, 0);
    let rows = t.read_range();
    assert_eq!(rows.len(), 2);
    assert_eq!(rows.iter().filter(|c| c.bucket_time == 500).count(), 1);
    assert!(rows.contains(&fresh));
    assert!(!rows.contains(&old));
    assert!(rows.contains(&next));
}

#[test]
fn plan_deletes_boundary_row() {
    let plan = plan_ingest(500, vec![candle(520, 3.0), candle(500, 2.0)], 20).unwrap();
    assert_eq!(plan.delete, Some(500));
    assert_eq!(plan.rows, vec![candle(520, 3.0), candle(500, 2.0)]);
    assert_eq!(plan.report.earliest, Some(500));
    assert_eq!(plan.report.latest, Some(520));
}

#[test]
fn empty_batch_changes_nothing() {
    let rows = [candle(440, 1.0), candle(500, 2.0)];
    let mut t = table_with(&rows);
    let report = t.reconcile(t.resolve(), vec![], 20).unwrap();
    assert_eq!(report.ingested, 0);
    assert_eq!(report.gaps.gap_count, 0);
    assert_eq!(report.earliest, None);
    assert_eq!(report.latest, None);
    assert_eq!(t.read_range(), rows.to_vec());
    let plan = plan_ingest(500, vec![], 0).unwrap();
    assert_eq!(plan.delete, None);
    assert!(plan.rows.is_empty());
}

#[test]
fn second_reconcile_keeps_same_rows() {
    let remote = vec![candle(1600000000, 1.0), candle(1600000060, 2.0), candle(1600000180, 3.0)];
    let mut t = table_with(&[candle(1599999940, 0.5), candle(1600000000, 0.9)]);
    let fetch = |after: i64| -> Vec<Candle> { remote.iter().copied().filter(|c| c.bucket_time >= after).collect() };
    let a1 = t.resolve();
    t.reconcile(a1, fetch(a1), 60).unwrap();
    let mut first = t.read_range();
    let a2 = t.resolve();
    assert_eq!(a2, 1600000180);
    let report = t.reconcile(a2, fetch(a2), 60).unwrap();
    assert_eq!(report.ingested, 1);
    let mut second = t.read_range();
    first.sort_by_key(|c| c.bucket_time);
    second.sort_by_key(|c| c.bucket_time);
    assert_eq!(first, second);
    assert_eq!(second.len(), 4);
}

#[test]
fn cursor_never_falls_behind_batch() {
    let mut t = table_with(&[candle(600, 1.0)]);
    let report = t.reconcile(t.resolve(), vec![candle(600, 1.5), candle(660, 2.0), candle(720, 2.5)], 60).unwrap();
    assert!(t.resolve() >= report.latest.unwrap());
    assert_eq!(t.resolve(), 720);
}

#[test]
fn misaligned_batch_writes_nothing() {
    let rows = [candle(600, 1.0)];
    let mut t = table_with(&rows);
    let err = t.reconcile(600, vec![candle(600, 1.5), candle(630, 2.0)], 60).unwrap_err();
    assert_eq!(err, ReconcileError::Shape(ShapeFault::Misaligned { time: 630 }));
    assert_eq!(t.read_range(), rows.to_vec());
}

#[test]
fn colliding_batch_writes_nothing() {
    let rows = [candle(540, 0.5), candle(600, 1.0)];
    let mut t = table_with(&rows);
    let err = t.reconcile(600, vec![candle(540, 9.0), candle(600, 1.5)], 60).unwrap_err();
    assert_eq!(err, ReconcileError::Store(StoreFault::Conflict { time: 540 }));
    assert_eq!(t.read_range(), rows.to_vec());
}

#[test]
fn insert_batch_is_all_or_nothing() {
    let mut t = table_with(&[candle(60, 1.0)]);
    assert_eq!(t.insert_batch(&vec![candle(120, 1.0), candle(60, 2.0)]), Err(StoreFault::Conflict { time: 60 }));
    assert_eq!(t.insert_batch(&vec![candle(180, 1.0), candle(180, 2.0)]), Err(StoreFault::Conflict { time: 180 }));
    assert_eq!(t.len(), 1);
    assert_eq!(t.insert_batch(&vec![candle(120, 1.0), candle(180, 2.0)]), Ok(2));
    assert_eq!(t.len(), 3);
}

#[test]
fn delete_one_is_idempotent() {
    let mut t = table_with(&[candle(60, 1.0), candle(120, 2.0)]);
    assert_eq!(t.delete_one(120), 1);
    assert_eq!(t.delete_one(120), 0);
    assert_eq!(t.read_range(), vec![candle(60, 1.0)]);
    assert_eq!(t.watermark(), Some(60));
}

#[test]
fn bot_getters() {
    let bot = Bot {
        id: 7,
        name: "alpha".to_string(),
        description: "test bot".to_string(),
        enable: true,
        registered: 1600000000,
        token: "tok".to_string(),
        long_order: true,
        short_order: false,
        operate_type: "backtest".to_string(),
    };
    assert_eq!(bot.get_id(), 7);
    let list = BotList { bot: vec![bot] };
    assert_eq!(list.get_list_len(), 1);
    assert_eq!(BotList { bot: vec![] }.get_list_len(), 0);
}

#[test]
fn gap_count_fills_grid() {
    let times = vec![0, 60, 120, 300, 360, 600];
    let g = analyze_gaps(&times, 60).unwrap();
    assert_eq!((600 - 0) / 60 + 1, times.len() as i64 + g.gap_count as i64);
}
