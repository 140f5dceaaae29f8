use lob_analytics::dec::Dec;
use lob_analytics::flow::FlowEvent;
use lob_analytics::orderbook::OrderBook;

fn d(n: i64) -> Dec {
    Dec::from_int(n)
}

fn du(units: i128) -> Dec {
    Dec::from_units(units)
}

fn sample_book() -> OrderBook {
    let mut book = OrderBook::new();
    book.apply_snapshot(
        vec![(d(100), d(1)), (d(99), d(2))],
        vec![(d(101), d(1)), (d(102), d(2))],
    );
    book
}

#[test]
fn test_snapshot_basic_features() {
    // snapshot bids [(100,1),(99,2)], asks [(101,1),(102,2)]
    let book = sample_book();
    assert_eq!(book.best_bid(), Some((d(100), d(1))));
    assert_eq!(book.best_ask(), Some((d(101), d(1))));
    assert_eq!(book.mid_price(), Some(du(100_500_000_000)));
    assert_eq!(book.spread(), Some(d(1)));
    assert_eq!(book.order_book_imbalance(), Some(du(500_000_000)));
}

#[test]
fn test_zero_qty_delta_cancels() {
    // after the snapshot, delta bids [(100, 0)] removes the level and
    // records exactly one bid cancel
    let mut book = sample_book();
    book.apply_deltas_at(vec![(d(100), d(0))], vec![], 1000);
    assert_eq!(book.best_bid(), Some((d(99), d(2))));
    assert_eq!(book.flow_tracker.events.len(), 1);
    assert_eq!(book.flow_tracker.events[0], (1000, FlowEvent::BidCancel));
}

#[test]
fn test_zero_qty_delta_absent_is_noop() {
    let mut book = sample_book();
    book.apply_deltas_at(vec![(d(98), d(0))], vec![], 1000);
    // book unchanged, no event recorded
    assert_eq!(book.top_bids(10), vec![(d(100), d(1)), (d(99), d(2))]);
    assert_eq!(book.flow_tracker.events.len(), 0);
}

#[test]
fn test_delta_idempotent() {
    let mut book = sample_book();
    book.apply_deltas_at(vec![(d(100), d(5))], vec![], 1000);
    let bids_once = book.top_bids(10);
    let asks_once = book.top_asks(10);
    book.apply_deltas_at(vec![(d(100), d(5))], vec![], 1001);
    assert_eq!(book.top_bids(10), bids_once);
    assert_eq!(book.top_asks(10), asks_once);
}

#[test]
fn test_delta_insert_updates_best() {
    let mut book = sample_book();
    book.apply_deltas_at(vec![(d(103), d(4))], vec![(d(100), d(7))], 1000);
    assert_eq!(book.best_bid(), Some((d(103), d(4))));
    assert_eq!(book.best_ask(), Some((d(100), d(7))));
    assert_eq!(
        book.flow_tracker.events[0],
        (1000, FlowEvent::BidOrder(d(4)))
    );
    assert_eq!(
        book.flow_tracker.events[1],
        (1000, FlowEvent::AskOrder(d(7)))
    );
}

#[test]
fn test_negative_pairs_rejected_silently() {
    let mut book = sample_book();
    book.apply_deltas_at(vec![(d(-5), d(1)), (d(100), d(-1))], vec![], 1000);
    assert_eq!(book.top_bids(10), vec![(d(100), d(1)), (d(99), d(2))]);
    assert_eq!(book.flow_tracker.events.len(), 0);
}

#[test]
fn test_snapshot_skips_zero_quantities() {
    let mut book = OrderBook::new();
    book.apply_snapshot(vec![(d(100), d(0)), (d(99), d(2))], vec![(d(101), d(1))]);
    assert_eq!(book.top_bids(10), vec![(d(99), d(2))]);
}

#[test]
fn test_top_levels_order() {
    let book = sample_book();
    assert_eq!(book.top_bids(1), vec![(d(100), d(1))]);
    assert_eq!(book.top_bids(5), vec![(d(100), d(1)), (d(99), d(2))]);
    assert_eq!(book.top_asks(1), vec![(d(101), d(1))]);
    assert_eq!(book.top_asks(5), vec![(d(101), d(1)), (d(102), d(2))]);
}

#[test]
fn test_volume_at_price() {
    let book = sample_book();
    assert_eq!(book.volume_at_price(d(99), true), d(2));
    assert_eq!(book.volume_at_price(d(98), true), d(0));
    assert_eq!(book.volume_at_price(d(102), false), d(2));
}

#[test]
fn test_cumulative_volume() {
    let book = sample_book();
    // bids walking down: 100 >= 99.5 counts, 99 stops
    assert_eq!(book.cumulative_volume_up_to(du(99_500_000_000), true), d(1));
    assert_eq!(book.cumulative_volume_up_to(d(99), true), d(3));
    // asks walking up
    assert_eq!(book.cumulative_volume_up_to(d(101), false), d(1));
    assert_eq!(book.cumulative_volume_up_to(d(102), false), d(3));
}

#[test]
fn test_slope_exact() {
    let book = sample_book();
    // bid: ((100-100)*1 + (100-99)*2) / 3 = 2/3; ask symmetric
    let (b, a) = book.slope(5).unwrap();
    assert_eq!(b, du(666_666_666));
    assert_eq!(a, du(666_666_666));
}

#[test]
fn test_volume_imbalance_and_depth() {
    let book = sample_book();
    assert_eq!(book.volume_imbalance(), Some(du(500_000_000)));
    let (bd, ad) = book.depth_ratio().unwrap();
    assert_eq!(bd, d(1));
    assert_eq!(ad, d(1));
}

#[test]
fn test_volume_within_percent_range() {
    let book = sample_book();
    // mid 100.5, 1% band is [99.495, 101.505]: one level per side
    let (bv, av) = book.volume_within_percent_range(d(1)).unwrap();
    assert_eq!(bv, d(1));
    assert_eq!(av, d(1));
}

#[test]
fn test_avg_price_distance_exact() {
    let book = sample_book();
    // mid 100.5; both sides: (0.5 + 1.5) / 2 = 1.0
    let (bd, ad) = book.avg_price_distance(2).unwrap();
    assert_eq!(bd, d(1));
    assert_eq!(ad, d(1));
}

#[test]
fn test_pwi_exact() {
    let book = sample_book();
    // 50% band covers everything: 298 / (298 + 305)
    let pwi = book.price_weighted_imbalance_percent(d(50)).unwrap();
    assert_eq!(pwi, du(494_195_688));
}

#[test]
fn test_empty_book_queries() {
    let book = OrderBook::new();
    assert_eq!(book.best_bid(), None);
    assert_eq!(book.best_ask(), None);
    assert_eq!(book.mid_price(), None);
    assert_eq!(book.spread(), None);
    assert_eq!(book.order_book_imbalance(), None);
    assert_eq!(book.slope(5), None);
    assert_eq!(book.volume_imbalance(), None);
    assert_eq!(book.price_weighted_imbalance_percent(d(1)), None);
    assert_eq!(book.volume_within_percent_range(d(1)), None);
    assert_eq!(book.avg_price_distance(5), None);
    assert_eq!(book.top_bids(5), vec![]);
}

#[test]
fn test_get_snapshot_consistent() {
    let book = sample_book();
    let snap = book.get_snapshot_at(1000);
    assert_eq!(snap.best_bid, Some((d(100), d(1))));
    assert_eq!(snap.best_ask, Some((d(101), d(1))));
    assert_eq!(snap.mid_price, Some(du(100_500_000_000)));
    assert_eq!(snap.spread, Some(d(1)));
    assert_eq!(snap.imbalance, Some(du(500_000_000)));
    assert_eq!(snap.top_bids, vec![(d(100), d(1)), (d(99), d(2))]);
    assert_eq!(snap.top_asks, vec![(d(101), d(1)), (d(102), d(2))]);
    assert_eq!(snap.bid_slope, Some(du(666_666_666)));
    assert_eq!(snap.ask_slope, Some(du(666_666_666)));
    assert_eq!(snap.volume_imbalance_top5, Some(du(500_000_000)));
    assert_eq!(snap.bid_depth_ratio, Some(d(1)));
    assert_eq!(snap.ask_depth_ratio, Some(d(1)));
    assert_eq!(snap.order_flow_imbalance, None);
    assert_eq!(snap.order_flow_pressure, d(0));
}
