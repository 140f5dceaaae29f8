use lob_analytics::dec::Dec;
use lob_analytics::trades::TradesLog;
use lob_analytics::wire::{parse_dec, parse_levels, trade_from_update, BinanceTradeUpdate, FeedError};

fn du(units: i128) -> Dec {
    Dec::from_units(units)
}

#[test]
fn test_parse_integers_and_fractions() {
    assert_eq!(parse_dec("0"), Some(du(0)));
    assert_eq!(parse_dec("5"), Some(du(5_000_000_000)));
    assert_eq!(parse_dec("100.5"), Some(du(100_500_000_000)));
    assert_eq!(parse_dec("0.000000001"), Some(du(1)));
    assert_eq!(parse_dec("123.456789012"), Some(du(123_456_789_012)));
    assert_eq!(parse_dec("-3.25"), Some(du(-3_250_000_000)));
    assert_eq!(parse_dec("-0"), Some(du(0)));
    assert_eq!(parse_dec("10000000"), Some(du(10_000_000_000_000_000)));
}

#[test]
fn test_parse_rejects_malformed() {
    assert_eq!(parse_dec(""), None);
    assert_eq!(parse_dec("-"), None);
    assert_eq!(parse_dec("."), None);
    assert_eq!(parse_dec("1."), None);
    assert_eq!(parse_dec(".5"), None);
    assert_eq!(parse_dec("1.2.3"), None);
    assert_eq!(parse_dec("12a"), None);
    assert_eq!(parse_dec("a12"), None);
    assert_eq!(parse_dec("1,5"), None);
    assert_eq!(parse_dec("--1"), None);
}

#[test]
fn test_parse_rejects_out_of_range() {
    // more than nine fraction digits
    assert_eq!(parse_dec("1.0000000001"), None);
    // integer part beyond the value limit
    assert_eq!(parse_dec("10000001"), None);
    assert_eq!(parse_dec("10000000.5"), None);
    assert_eq!(parse_dec("99999999999999999999"), None);
}

#[test]
fn test_parse_levels_keeps_valid_pairs() {
    let levels: Vec<(String, String)> = vec![
        ("100.5".to_string(), "1".to_string()),
        ("bad".to_string(), "2".to_string()),
        ("99".to_string(), "bad".to_string()),
        ("98.25".to_string(), "0.5".to_string()),
    ];
    let parsed = parse_levels(&levels);
    assert_eq!(
        parsed,
        vec![
            (du(100_500_000_000), du(1_000_000_000)),
            (du(98_250_000_000), du(500_000_000)),
        ]
    );
}

#[test]
fn test_trade_from_update() {
    let update = BinanceTradeUpdate {
        price: "100.5".to_string(),
        quantity: "0.25".to_string(),
        timestamp: 123_456,
        is_buyer_maker: true,
    };
    let trade = trade_from_update(&update).unwrap();
    assert_eq!(trade.price, du(100_500_000_000));
    assert_eq!(trade.quantity, du(250_000_000));
    assert_eq!(trade.timestamp, 123_456);
    assert!(trade.is_buyer_maker);

    let bad = BinanceTradeUpdate {
        price: "oops".to_string(),
        quantity: "0.25".to_string(),
        timestamp: 1,
        is_buyer_maker: false,
    };
    assert!(matches!(trade_from_update(&bad), Err(FeedError::DecimalConversion)));
}

#[test]
fn test_parsed_trade_feeds_log() {
    // a parsed feed record flows into the log unchanged
    let update = BinanceTradeUpdate {
        price: "101".to_string(),
        quantity: "2".to_string(),
        timestamp: 7,
        is_buyer_maker: false,
    };
    let trade = trade_from_update(&update).unwrap();
    let mut log = TradesLog::new(10);
    log.insert_trade(trade);
    assert_eq!(log.last_price(), Some(du(101_000_000_000)));
    assert_eq!(log.buy_volume, du(2_000_000_000));
}
