//! Assembly and batching of feature records.
//!
//! Each analytics tick pivots one order-book snapshot, one trades-log
//! snapshot and one flow reading into a flat feature record. Records are
//! buffered into a batch; when the batch reaches its size it is handed
//! back whole for persistence and the buffer starts again with the next
//! batch id.

use vstd::prelude::*;

use crate::dec::Dec;
use crate::orderbook::OrderBookSnapshot;
use crate::trades::TradeLogSnapshot;

verus! {

/// Pressure (in units) at and above which the order flow is flagged
/// significant: 10.0.
pub const SIGNIFICANCE_THRESHOLD_UNITS: i128 = 10_000_000_000;

/// One flat feature record: an ISO-8601 timestamp and every scalar from
/// the book and trades snapshots, plus the flow reading.
pub struct FeaturesSnapshot {
    pub timestamp: String,
    pub best_bid: Option<Dec>,
    pub best_ask: Option<Dec>,
    pub mid_price: Option<Dec>,
    pub microprice: Option<Dec>,
    pub spread: Option<Dec>,
    pub imbalance: Option<Dec>,
    pub top_bids: Vec<(Dec, Dec)>,
    pub top_asks: Vec<(Dec, Dec)>,
    pub pwi_1: Option<Dec>,
    pub pwi_5: Option<Dec>,
    pub pwi_25: Option<Dec>,
    pub pwi_50: Option<Dec>,
    pub bid_slope: Option<Dec>,
    pub ask_slope: Option<Dec>,
    pub volume_imbalance_top5: Option<Dec>,
    pub bid_depth_ratio: Option<Dec>,
    pub ask_depth_ratio: Option<Dec>,
    pub bid_volume_001: Option<Dec>,
    pub ask_volume_001: Option<Dec>,
    pub bid_avg_distance: Option<Dec>,
    pub ask_avg_distance: Option<Dec>,
    pub last_trade_price: Option<Dec>,
    pub trade_imbalance: Option<Dec>,
    pub vwap_total: Option<Dec>,
    pub price_change: Option<Dec>,
    pub avg_trade_size: Option<Dec>,
    pub signed_count_momentum: i64,
    pub trade_rate_10s: Option<Dec>,
    pub order_flow_imbalance: Option<Dec>,
    pub order_flow_pressure: Dec,
    pub order_flow_significance: bool,
    pub vwap_10: Option<Dec>,
    pub vwap_50: Option<Dec>,
    pub vwap_100: Option<Dec>,
    pub vwap_1000: Option<Dec>,
    pub aggr_ratio_10: Option<Dec>,
    pub aggr_ratio_50: Option<Dec>,
    pub aggr_ratio_100: Option<Dec>,
    pub aggr_ratio_1000: Option<Dec>,
}

/// Pivot one tick's snapshots into a flat feature record.
///
/// Every field is copied from its source; the best levels keep their
/// prices only; the microprice is a reserved field and stays absent; the
/// flow is significant exactly when the pressure reaches the threshold
/// (boundary inclusive).
pub fn assemble_features(
    timestamp: String,
    ob: &OrderBookSnapshot,
    tr: &TradeLogSnapshot,
    flow_imbalance: Option<Dec>,
    flow_pressure: Dec,
) -> (r: FeaturesSnapshot)
    ensures
        r.timestamp@ == timestamp@,
        r.best_bid == (match ob.best_bid {
            Option::None => Option::<Dec>::None,
            Option::Some(l) => Option::Some(l.0),
        }),
        r.best_ask == (match ob.best_ask {
            Option::None => Option::<Dec>::None,
            Option::Some(l) => Option::Some(l.0),
        }),
        r.mid_price == ob.mid_price,
        r.microprice is None,
        r.spread == ob.spread,
        r.imbalance == ob.imbalance,
        r.top_bids@ == ob.top_bids@,
        r.top_asks@ == ob.top_asks@,
        r.pwi_1 == ob.pwi_1,
        r.pwi_5 == ob.pwi_5,
        r.pwi_25 == ob.pwi_25,
        r.pwi_50 == ob.pwi_50,
        r.bid_slope == ob.bid_slope,
        r.ask_slope == ob.ask_slope,
        r.volume_imbalance_top5 == ob.volume_imbalance_top5,
        r.bid_depth_ratio == ob.bid_depth_ratio,
        r.ask_depth_ratio == ob.ask_depth_ratio,
        r.bid_volume_001 == ob.bid_volume_001,
        r.ask_volume_001 == ob.ask_volume_001,
        r.bid_avg_distance == ob.bid_avg_distance,
        r.ask_avg_distance == ob.ask_avg_distance,
        r.last_trade_price == tr.last_price,
        r.trade_imbalance == tr.trade_imbalance,
        r.vwap_total == tr.vwap_total,
        r.price_change == tr.price_change,
        r.avg_trade_size == tr.avg_trade_size,
        r.signed_count_momentum == tr.signed_count_momentum,
        r.trade_rate_10s == tr.trade_rate_10s,
        r.order_flow_imbalance == flow_imbalance,
        r.order_flow_pressure == flow_pressure,
        r.order_flow_significance == (flow_pressure@ >= SIGNIFICANCE_THRESHOLD_UNITS as int),
        r.vwap_10 == tr.vwap_10,
        r.vwap_50 == tr.vwap_50,
        r.vwap_100 == tr.vwap_100,
        r.vwap_1000 == tr.vwap_1000,
        r.aggr_ratio_10 == tr.aggr_ratio_10,
        r.aggr_ratio_50 == tr.aggr_ratio_50,
        r.aggr_ratio_100 == tr.aggr_ratio_100,
        r.aggr_ratio_1000 == tr.aggr_ratio_1000,
{
    let mut top_bids: Vec<(Dec, Dec)> = Vec::new();
    let mut top_asks: Vec<(Dec, Dec)> = Vec::new();
    copy_levels(&ob.top_bids, &mut top_bids);
    copy_levels(&ob.top_asks, &mut top_asks);
    FeaturesSnapshot {
        timestamp,
        best_bid: match ob.best_bid {
            Some(l) => Some(l.0),
            None => None,
        },
        best_ask: match ob.best_ask {
            Some(l) => Some(l.0),
            None => None,
        },
        mid_price: ob.mid_price,
        microprice: None,
        spread: ob.spread,
        imbalance: ob.imbalance,
        top_bids,
        top_asks,
        pwi_1: ob.pwi_1,
        pwi_5: ob.pwi_5,
        pwi_25: ob.pwi_25,
        pwi_50: ob.pwi_50,
        bid_slope: ob.bid_slope,
        ask_slope: ob.ask_slope,
        volume_imbalance_top5: ob.volume_imbalance_top5,
        bid_depth_ratio: ob.bid_depth_ratio,
        ask_depth_ratio: ob.ask_depth_ratio,
        bid_volume_001: ob.bid_volume_001,
        ask_volume_001: ob.ask_volume_001,
        bid_avg_distance: ob.bid_avg_distance,
        ask_avg_distance: ob.ask_avg_distance,
        last_trade_price: tr.last_price,
        trade_imbalance: tr.trade_imbalance,
        vwap_total: tr.vwap_total,
        price_change: tr.price_change,
        avg_trade_size: tr.avg_trade_size,
        signed_count_momentum: tr.signed_count_momentum,
        trade_rate_10s: tr.trade_rate_10s,
        order_flow_imbalance: flow_imbalance,
        order_flow_pressure: flow_pressure,
        order_flow_significance: !flow_pressure.lt(Dec::from_units(SIGNIFICANCE_THRESHOLD_UNITS)),
        vwap_10: tr.vwap_10,
        vwap_50: tr.vwap_50,
        vwap_100: tr.vwap_100,
        vwap_1000: tr.vwap_1000,
        aggr_ratio_10: tr.aggr_ratio_10,
        aggr_ratio_50: tr.aggr_ratio_50,
        aggr_ratio_100: tr.aggr_ratio_100,
        aggr_ratio_1000: tr.aggr_ratio_1000,
    }
}

/// Copy a level list into a fresh vector.
fn copy_levels(src: &Vec<(Dec, Dec)>, dst: &mut Vec<(Dec, Dec)>)
    requires
        old(dst)@.len() == 0,
    ensures
        final(dst)@ == src@,
{
    let n = src.len();
    let mut i: usize = 0;
    while i < n
        invariant
            n == src@.len(),
            0 <= i <= n,
            dst@ == src@.take(i as int),
        decreases n - i,
    {
        proof {
            assert(src@.take(i as int + 1) =~= src@.take(i as int).push(src@[i as int]));
        }
        dst.push(src[i]);
        i += 1;
    }
    proof {
        assert(src@.take(n as int) =~= src@);
    }
}

/// The growing batch of feature records, flushed whole every
/// `batch_size` pushes.
pub struct FeatureBatcher {
    pub batch: Vec<FeaturesSnapshot>,
    pub batch_id: u64,
    pub batch_size: usize,
}

impl FeatureBatcher {
    /// The batcher's invariant: the buffer is always strictly below the
    /// batch size.
    pub open spec fn wf(&self) -> bool {
        &&& 1 <= self.batch_size
        &&& self.batch@.len() < self.batch_size
    }

    /// An empty batcher flushing every `batch_size` records.
    pub fn new(batch_size: usize) -> (r: FeatureBatcher)
        requires
            batch_size >= 1,
        ensures
            r.wf(),
            r.batch@.len() == 0,
            r.batch_id == 0,
            r.batch_size == batch_size,
    {
        FeatureBatcher { batch: Vec::new(), batch_id: 0, batch_size }
    }

    /// Buffer one record. Exactly when the buffer reaches the batch
    /// size, the whole batch is returned together with its id, the
    /// buffer restarts empty and the id advances.
    pub fn push(&mut self, rec: FeaturesSnapshot) -> (r: Option<(Vec<FeaturesSnapshot>, u64)>)
        requires
            old(self).wf(),
            old(self).batch_id < u64::MAX,
        ensures
            final(self).wf(),
            final(self).batch_size == old(self).batch_size,
            old(self).batch@.len() + 1 == old(self).batch_size ==> {
                &&& r is Some
                &&& r->Some_0.0@ == old(self).batch@.push(rec)
                &&& r->Some_0.1 == old(self).batch_id
                &&& final(self).batch@.len() == 0
                &&& final(self).batch_id == old(self).batch_id + 1
            },
            old(self).batch@.len() + 1 < old(self).batch_size ==> {
                &&& r is None
                &&& final(self).batch@ == old(self).batch@.push(rec)
                &&& final(self).batch_id == old(self).batch_id
            },
            final(self).batch_id * final(self).batch_size + final(self).batch@.len() == old(
                self,
            ).batch_id * old(self).batch_size + old(self).batch@.len() + 1,
    {
        proof {
            vstd::arithmetic::mul::lemma_mul_is_distributive_add_other_way(
                self.batch_size as int,
                self.batch_id as int,
                1,
            );
        }
        self.batch.push(rec);
        if self.batch.len() >= self.batch_size {
            let id = self.batch_id;
            let mut full: Vec<FeaturesSnapshot> = Vec::new();
            core::mem::swap(&mut full, &mut self.batch);
            self.batch_id = self.batch_id + 1;
            Some((full, id))
        } else {
            None
        }
    }
}

/// After any number of pushes into a batcher of size `size`, the batch
/// id counts the completed flushes and the buffer holds the remainder:
/// from `id * size + len == n` with `len < size` it follows that
/// `id == n / size` and `len == n % size`.
pub proof fn lemma_flush_cadence(size: int, id: int, len: int, n: int)
    requires
        1 <= size,
        0 <= len < size,
        0 <= id,
        id * size + len == n,
    ensures
        id == n / size,
        len == n % size,
{
    vstd::arithmetic::div_mod::lemma_fundamental_div_mod_converse(n, size, id, len);
}

} // verus!
