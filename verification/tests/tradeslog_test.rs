use lob_analytics::dec::Dec;
use lob_analytics::trades::{Trade, TradesLog, TradesLogError};

fn create_test_trade(price: Dec, quantity: Dec, is_buyer_maker: bool) -> Trade {
    Trade { price, quantity, timestamp: 0, is_buyer_maker }
}

fn d(n: i64) -> Dec {
    Dec::from_int(n)
}

fn du(units: i128) -> Dec {
    Dec::from_units(units)
}

#[test]
fn test_new_trades_log() {
    let log = TradesLog::new(100);
    assert_eq!(log.trades.len(), 0);
    assert_eq!(log.max_len, 100);
    assert_eq!(log.buy_volume, d(0));
    assert_eq!(log.sell_volume, d(0));
}

#[test]
fn test_insert_trade() {
    let mut log = TradesLog::new(2); // max_len = 2

    // 1. Add first buy trade
    log.insert_trade(create_test_trade(d(100), d(1), false));
    assert_eq!(log.signed_count_momentum(), 1, "First buy should set momentum to 1");

    // 2. Add sell trade
    log.insert_trade(create_test_trade(d(101), d(1), true));
    assert_eq!(log.signed_count_momentum(), 0, "Sell should decrement momentum to 0");

    // 3. Add another buy trade (will evict the first trade)
    log.insert_trade(create_test_trade(d(102), d(1), false));

    // Breakdown of expected momentum calculation:
    // - Evict first buy trade (was +1): momentum -= 1 -> -1
    // - Add new buy trade: momentum += 1 -> 0
    // - Current trades in buffer: sell (-1) and buy (+1) -> net 0
    assert_eq!(log.signed_count_momentum(), 0, "After eviction and new buy, momentum should be 0");

    // Verify volumes
    assert_eq!(log.buy_volume, d(1), "Buy volume should be 1");
    assert_eq!(log.sell_volume, d(1), "Sell volume should be 1");
}

#[test]
fn test_vwap_calculation() {
    let mut log = TradesLog::new(10);

    // Empty log
    assert!(matches!(log.vwap(1), Err(TradesLogError::InsufficientTrades)));

    // Add trades
    log.insert_trade(create_test_trade(d(100), d(1), false));
    log.insert_trade(create_test_trade(d(101), d(2), true));
    log.insert_trade(create_test_trade(d(102), d(3), false));

    // Test VWAP with approximate comparison
    let vwap = log.vwap(3).unwrap();
    let expected = du(101_333_333_333); // 608 / 6 at nine decimal places
    assert!(vwap.minus(expected).abs().lt(du(100)));

    // Test zero volume error
    let mut empty_log = TradesLog::new(10);
    empty_log.insert_trade(create_test_trade(d(100), d(0), false));
    assert!(matches!(empty_log.vwap(1), Err(TradesLogError::ZeroVolume)));
}

#[test]
fn test_trade_rate() {
    let mut log = TradesLog::new(10);

    // Empty log
    assert!(matches!(log.trade_rate(1000), Err(TradesLogError::InsufficientTrades)));

    // Add trades with timestamps
    let now = 100_000; // ms
    log.insert_trade(Trade { price: d(100), quantity: d(1), timestamp: now - 5000, is_buyer_maker: false });
    log.insert_trade(Trade { price: d(101), quantity: d(2), timestamp: now - 3000, is_buyer_maker: true });
    log.insert_trade(Trade { price: d(102), quantity: d(3), timestamp: now, is_buyer_maker: false });

    // Test trade rate with approximate comparison: 3 trades / 5 seconds
    let rate = log.trade_rate(5000).unwrap();
    assert!(rate.minus(du(600_000_000)).abs().lt(du(100_000)));
}

#[test]
fn test_aggressor_volume_ratio() {
    let mut log = TradesLog::new(10);

    // Empty log
    assert!(matches!(log.aggressor_volume_ratio(1), Err(TradesLogError::InsufficientTrades)));

    // Add trades
    log.insert_trade(create_test_trade(d(100), d(1), false));
    log.insert_trade(create_test_trade(d(101), d(2), true));

    // Use approximate comparison for decimal values: 1 / 3
    let ratio = log.aggressor_volume_ratio(2).unwrap();
    assert!(ratio.minus(du(333_333_333)).abs().lt(du(100)));
}

#[test]
fn test_snapshot() {
    let mut log = TradesLog::new(10);

    // Add trades
    log.insert_trade(create_test_trade(d(100), d(1), false));
    log.insert_trade(create_test_trade(d(101), d(2), true));

    let snapshot = log.get_snapshot();

    assert_eq!(snapshot.last_price, Some(d(101)));
    assert!(snapshot.trade_imbalance.unwrap().minus(du(333_333_333)).abs().lt(du(100)));
    assert_eq!(snapshot.vwap_10, log.vwap(10).ok());
}

#[test]
fn test_zero_quantity_trades() {
    let mut log = TradesLog::new(10);
    log.insert_trade(create_test_trade(d(100), d(0), false));
    assert_eq!(log.buy_volume, d(0));
    assert!(matches!(log.vwap(1), Err(TradesLogError::ZeroVolume)));
}

#[test]
fn test_insert_trade_momentum() {
    let mut log = TradesLog::new(3);

    // First buy trade
    log.insert_trade(create_test_trade(d(100), d(1), false));
    assert_eq!(log.signed_count_momentum(), 1);

    // Sell trade
    log.insert_trade(create_test_trade(d(101), d(1), true));
    assert_eq!(log.signed_count_momentum(), 0);

    // Another buy trade
    log.insert_trade(create_test_trade(d(102), d(1), false));
    assert_eq!(log.signed_count_momentum(), 1);

    // Force eviction of first trade
    log.insert_trade(create_test_trade(d(103), d(1), false));
    assert_eq!(log.signed_count_momentum(), 1); // Evicted buy (-1), added buy (+1)
}

#[test]
fn test_aggressor_ratio_edge_cases() {
    let mut log = TradesLog::new(10);

    // Single trade
    log.insert_trade(create_test_trade(d(100), d(1), false));
    assert_eq!(log.aggressor_volume_ratio(1).unwrap(), d(1));

    // All buys
    log.insert_trade(create_test_trade(d(101), d(2), false));
    assert_eq!(log.aggressor_volume_ratio(2).unwrap(), d(1));

    // All sells
    let mut sell_log = TradesLog::new(10);
    sell_log.insert_trade(create_test_trade(d(100), d(1), true));
    assert_eq!(sell_log.aggressor_volume_ratio(1).unwrap(), d(0));
}

#[test]
fn test_volume_invariant_random_inserts() {
    // capacity 4; a mixed sequence of inserts with evictions; the
    // volumes always partition the resident quantity and the momentum
    // counts aggressors
    let mut log = TradesLog::new(4);
    let seq: Vec<(i64, i64, bool)> = vec![
        (100, 1, false),
        (101, 3, true),
        (102, 2, false),
        (99, 5, true),
        (98, 4, false),
        (103, 1, true),
        (104, 2, true),
    ];
    let mut inserted: Vec<(i64, bool)> = Vec::new();
    for (p, q, m) in seq {
        log.insert_trade(create_test_trade(d(p), d(q), m));
        inserted.push((q, m));
        let resident: Vec<(i64, bool)> = inserted
            .iter()
            .rev()
            .take(4)
            .rev()
            .cloned()
            .collect();
        let total: i64 = resident.iter().map(|t| t.0).sum();
        let buys: i64 = resident.iter().filter(|t| !t.1).map(|t| t.0).sum();
        let sells: i64 = resident.iter().filter(|t| t.1).map(|t| t.0).sum();
        let mom: i64 = resident.iter().map(|t| if t.1 { -1 } else { 1 }).sum();
        assert_eq!(log.buy_volume, d(buys));
        assert_eq!(log.sell_volume, d(sells));
        assert_eq!(log.buy_volume.plus(log.sell_volume), d(total));
        assert_eq!(log.signed_count_momentum(), mom);
    }
}

#[test]
fn test_insert_three_trades_scenario() {
    // trades (100,1,buy-taker), (101,2,sell-taker), (102,3,buy-taker)
    let mut log = TradesLog::new(10);
    log.insert_trade(create_test_trade(d(100), d(1), false));
    log.insert_trade(create_test_trade(d(101), d(2), true));
    log.insert_trade(create_test_trade(d(102), d(3), false));

    // vwap(3) = 608/6
    assert_eq!(log.vwap(3).unwrap(), du(101_333_333_333));
    // buyer-taker volume 4 over total 6
    assert_eq!(log.aggressor_volume_ratio(3).unwrap(), du(666_666_666));
    // momentum +1 -1 +1
    assert_eq!(log.signed_count_momentum(), 1);
}

#[test]
fn test_window_error_variants() {
    let mut log = TradesLog::new(10);
    log.insert_trade(create_test_trade(d(100), d(1), false));
    assert!(matches!(log.vwap(0), Err(TradesLogError::InvalidWindowSize)));
    assert!(matches!(log.vwap(2), Err(TradesLogError::InsufficientTrades)));
    assert!(matches!(log.aggressor_volume_ratio(0), Err(TradesLogError::InvalidWindowSize)));
    assert!(matches!(log.trade_rate(5000), Err(TradesLogError::InsufficientTrades)));
}

#[test]
fn test_cached_stats_refresh() {
    let mut log = TradesLog::new(10);
    log.insert_trade(create_test_trade(d(100), d(2), false));
    log.insert_trade(create_test_trade(d(104), d(2), true));

    // imbalance 2/4, average size 4/2, vwap_total reduces to last price
    assert_eq!(log.trade_imbalance(), Some(du(500_000_000)));
    assert_eq!(log.avg_trade_size(), Some(d(2)));
    assert_eq!(log.vwap_total(), Some(d(104)));
    assert_eq!(log.last_price(), Some(d(104)));
    // first refresh has no previous last price
    assert_eq!(log.price_change(), None);

    // another trade, then the change is measured against 104
    log.insert_trade(create_test_trade(d(107), d(1), false));
    assert_eq!(log.price_change(), Some(d(3)));
}
