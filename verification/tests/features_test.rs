use lob_analytics::dec::Dec;
use lob_analytics::features::{assemble_features, FeatureBatcher, FeaturesSnapshot};
use lob_analytics::orderbook::OrderBook;
use lob_analytics::trades::{Trade, TradesLog};

fn d(n: i64) -> Dec {
    Dec::from_int(n)
}

fn du(units: i128) -> Dec {
    Dec::from_units(units)
}

fn empty_record() -> FeaturesSnapshot {
    let book = OrderBook::new();
    let mut log = TradesLog::new(10);
    let ob = book.get_snapshot_at(0);
    let tr = log.get_snapshot();
    assemble_features("t".to_string(), &ob, &tr, None, d(0))
}

#[test]
fn test_assemble_pivots_fields() {
    let mut book = OrderBook::new();
    book.apply_snapshot(vec![(d(100), d(1))], vec![(d(101), d(2))]);
    let mut log = TradesLog::new(10);
    log.insert_trade(Trade { price: d(100), quantity: d(1), timestamp: 5, is_buyer_maker: false });
    let ob = book.get_snapshot_at(0);
    let tr = log.get_snapshot();
    let rec = assemble_features("2020-01-01T00:00:00Z".to_string(), &ob, &tr, Some(d(1)), du(3_650_000_000));
    assert_eq!(rec.timestamp, "2020-01-01T00:00:00Z");
    assert_eq!(rec.best_bid, Some(d(100)));
    assert_eq!(rec.best_ask, Some(d(101)));
    assert_eq!(rec.microprice, None);
    assert_eq!(rec.last_trade_price, Some(d(100)));
    assert_eq!(rec.signed_count_momentum, 1);
    assert_eq!(rec.order_flow_imbalance, Some(d(1)));
    assert_eq!(rec.order_flow_pressure, du(3_650_000_000));
    // 3.65 is below the significance threshold of 10
    assert!(!rec.order_flow_significance);
}

#[test]
fn test_significance_threshold_inclusive() {
    let book = OrderBook::new();
    let mut log = TradesLog::new(10);
    let ob = book.get_snapshot_at(0);
    let tr = log.get_snapshot();
    let at = assemble_features("t".to_string(), &ob, &tr, None, d(10));
    assert!(at.order_flow_significance);
    let below = assemble_features("t".to_string(), &ob, &tr, None, du(9_999_999_999));
    assert!(!below.order_flow_significance);
}

#[test]
fn test_batch_flush_cadence() {
    // batch size 4: after 4*m + r pushes there were m flushes and r
    // records are pending
    let mut batcher = FeatureBatcher::new(4);
    let mut flushes: Vec<(usize, u64)> = Vec::new();
    for n in 1..=11 {
        match batcher.push(empty_record()) {
            Some((full, id)) => flushes.push((full.len(), id)),
            None => {}
        }
        assert_eq!(batcher.batch_id as usize, n / 4);
        assert_eq!(batcher.batch.len(), n % 4);
    }
    assert_eq!(flushes, vec![(4, 0), (4, 1)]);
}

#[test]
fn test_single_flush_with_residue() {
    // 1001 pushes at batch size 1000: exactly one flush, one pending
    let mut batcher = FeatureBatcher::new(1000);
    let mut flushed = 0;
    for _ in 0..1001 {
        if let Some((full, id)) = batcher.push(empty_record()) {
            assert_eq!(full.len(), 1000);
            assert_eq!(id, 0);
            flushed += 1;
        }
    }
    assert_eq!(flushed, 1);
    assert_eq!(batcher.batch.len(), 1);
    assert_eq!(batcher.batch_id, 1);
}
