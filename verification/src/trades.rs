//! Bounded trades log with incrementally maintained aggregates.
//!
//! A fixed-capacity queue of trades (oldest evicted on overflow) alongside
//! running buy/sell volumes and a signed count momentum, plus lazily
//! refreshed cached statistics and recomputed window queries (VWAP,
//! aggressor ratio, trade rate).

use std::collections::VecDeque;
use vstd::prelude::*;

use crate::dec::{
    dec_div, dec_mul, Dec, LEN_LIMIT, SCALE_UNITS, VAL_LIMIT_UNITS,
};

verus! {

/// One trade from the tape. `is_buyer_maker` true means the seller was
/// the aggressor.
#[derive(Clone, Copy, Debug)]
pub struct Trade {
    pub price: Dec,
    pub quantity: Dec,
    pub timestamp: u64,
    pub is_buyer_maker: bool,
}

/// Why a window query failed.
#[derive(Clone, Copy, Debug, PartialEq, Eq, Structural)]
pub enum TradesLogError {
    InsufficientTrades,
    ZeroVolume,
    InvalidWindowSize,
}

/// Price and quantity of a trade are nonnegative and in range.
pub open spec fn trade_valid(t: Trade) -> bool {
    &&& 0 <= t.price@ <= VAL_LIMIT_UNITS as int
    &&& 0 <= t.quantity@ <= VAL_LIMIT_UNITS as int
}

/// Every trade of the sequence is valid.
pub open spec fn trades_valid(s: Seq<Trade>) -> bool {
    forall|i: int| 0 <= i < s.len() ==> trade_valid(#[trigger] s[i])
}

/// Sum of quantities of aggressor-buy trades (`is_buyer_maker` false).
pub open spec fn sum_buy(s: Seq<Trade>) -> int
    decreases s.len(),
{
    if s.len() == 0 {
        0
    } else {
        sum_buy(s.drop_last()) + if s.last().is_buyer_maker {
            0
        } else {
            s.last().quantity@
        }
    }
}

/// Sum of quantities of aggressor-sell trades (`is_buyer_maker` true).
pub open spec fn sum_sell(s: Seq<Trade>) -> int
    decreases s.len(),
{
    if s.len() == 0 {
        0
    } else {
        sum_sell(s.drop_last()) + if s.last().is_buyer_maker {
            s.last().quantity@
        } else {
            0
        }
    }
}

/// Sum of all quantities.
pub open spec fn sum_q(s: Seq<Trade>) -> int
    decreases s.len(),
{
    if s.len() == 0 {
        0
    } else {
        sum_q(s.drop_last()) + s.last().quantity@
    }
}

/// Sum of price-times-quantity terms.
pub open spec fn sum_pq(s: Seq<Trade>) -> int
    decreases s.len(),
{
    if s.len() == 0 {
        0
    } else {
        sum_pq(s.drop_last()) + dec_mul(s.last().price@, s.last().quantity@)
    }
}

/// Number of aggressor-buy trades minus number of aggressor-sell trades.
pub open spec fn momentum(s: Seq<Trade>) -> int
    decreases s.len(),
{
    if s.len() == 0 {
        0
    } else {
        momentum(s.drop_last()) + if s.last().is_buyer_maker {
            -1
        } else {
            1
        }
    }
}

/// Number of trades in the maximal suffix whose timestamps are all at
/// least `start`.
pub open spec fn suffix_count(s: Seq<Trade>, start: int) -> int
    decreases s.len(),
{
    if s.len() == 0 {
        0
    } else if s.last().timestamp as int >= start {
        1 + suffix_count(s.drop_last(), start)
    } else {
        0
    }
}

/// Timestamps never decrease along the sequence.
pub open spec fn ts_sorted(s: Seq<Trade>) -> bool {
    forall|i: int, j: int| 0 <= i < j < s.len() ==> s[i].timestamp <= s[j].timestamp
}

/// Number of trades with timestamp at least `start`.
pub open spec fn count_at_or_after(s: Seq<Trade>, start: int) -> int
    decreases s.len(),
{
    if s.len() == 0 {
        0
    } else {
        count_at_or_after(s.drop_last(), start) + if s.last().timestamp as int >= start {
            1int
        } else {
            0int
        }
    }
}

/// The last trade's price, if any.
pub open spec fn spec_last_price(s: Seq<Trade>) -> Option<int> {
    if s.len() == 0 {
        None
    } else {
        Some(s.last().price@)
    }
}

/// Buy volume over total volume, absent when the total is zero.
pub open spec fn spec_trade_imbalance(s: Seq<Trade>) -> Option<int> {
    let tv = sum_buy(s) + sum_sell(s);
    if tv > 0 {
        Some(dec_div(sum_buy(s), tv))
    } else {
        None
    }
}

/// Total volume times the last price over total volume, absent when the
/// total is zero.
pub open spec fn spec_vwap_total(s: Seq<Trade>) -> Option<int> {
    let tv = sum_buy(s) + sum_sell(s);
    if tv > 0 {
        let last = if s.len() == 0 {
            0
        } else {
            s.last().price@
        };
        Some(dec_div(dec_mul(tv, last), tv))
    } else {
        None
    }
}

/// Last price minus the previously recorded last price; absent when
/// either is missing.
pub open spec fn spec_price_change(s: Seq<Trade>, prev_last: Option<int>) -> Option<int> {
    match prev_last {
        None => None,
        Some(prev) => if s.len() == 0 {
            None
        } else {
            Some(s.last().price@ - prev)
        },
    }
}

/// Total volume over the number of resident trades, absent when there
/// are none.
pub open spec fn spec_avg_trade_size(s: Seq<Trade>) -> Option<int> {
    if s.len() > 0 {
        Some(dec_div(sum_buy(s) + sum_sell(s), s.len() * SCALE_UNITS as int))
    } else {
        None
    }
}

/// The last `n` trades of `s` (all of them when fewer are resident).
pub open spec fn tail_of(s: Seq<Trade>, n: int) -> Seq<Trade> {
    if s.len() <= n {
        s
    } else {
        s.skip(s.len() - n)
    }
}

/// What `vwap` returns for window `n`, as an option.
pub open spec fn spec_vwap_opt(s: Seq<Trade>, n: int) -> Option<int> {
    if n < 1 || s.len() < n {
        None
    } else {
        let tail = tail_of(s, n);
        if sum_q(tail) == 0 {
            None
        } else {
            Some(dec_div(sum_pq(tail), sum_q(tail)))
        }
    }
}

/// What `aggressor_volume_ratio` returns for window `n`, as an option.
pub open spec fn spec_aggr_opt(s: Seq<Trade>, n: int) -> Option<int> {
    if n < 1 || s.len() == 0 {
        None
    } else {
        let tail = tail_of(s, n);
        if sum_buy(tail) + sum_sell(tail) == 0 {
            None
        } else {
            Some(dec_div(sum_buy(tail), sum_buy(tail) + sum_sell(tail)))
        }
    }
}

/// All per-trade sums are bounded by the trade count times the value
/// limit, and the momentum by the trade count.
pub proof fn lemma_trade_sums_bounds(s: Seq<Trade>)
    requires
        trades_valid(s),
    ensures
        0 <= sum_buy(s) <= s.len() * (VAL_LIMIT_UNITS as int),
        0 <= sum_sell(s) <= s.len() * (VAL_LIMIT_UNITS as int),
        0 <= sum_q(s) <= s.len() * (VAL_LIMIT_UNITS as int),
        -(s.len() as int) <= momentum(s) <= s.len() as int,
    decreases s.len(),
{
    if s.len() > 0 {
        assert(trades_valid(s.drop_last())) by {
            assert(forall|i: int|
                0 <= i < s.drop_last().len() ==> #[trigger] s.drop_last()[i] == s[i]);
        }
        lemma_trade_sums_bounds(s.drop_last());
        assert(trade_valid(s.last()));
        assert((s.len() - 1) * (VAL_LIMIT_UNITS as int) + (VAL_LIMIT_UNITS as int) == s.len() * (
        VAL_LIMIT_UNITS as int)) by (nonlinear_arith);
    }
}

/// Decompose each running sum at the front of the sequence.
pub proof fn lemma_sums_decompose_front(s: Seq<Trade>)
    requires
        s.len() > 0,
    ensures
        sum_buy(s) == (if s[0].is_buyer_maker {
            0int
        } else {
            s[0].quantity@
        }) + sum_buy(s.skip(1)),
        sum_sell(s) == (if s[0].is_buyer_maker {
            s[0].quantity@
        } else {
            0int
        }) + sum_sell(s.skip(1)),
        momentum(s) == (if s[0].is_buyer_maker {
            -1int
        } else {
            1int
        }) + momentum(s.skip(1)),
    decreases s.len(),
{
    if s.len() == 1 {
        assert(s.skip(1) =~= Seq::<Trade>::empty());
        assert(s.drop_last() =~= Seq::<Trade>::empty());
    } else {
        lemma_sums_decompose_front(s.drop_last());
        assert(s.drop_last()[0] == s[0]);
        assert(s.skip(1).drop_last() =~= s.drop_last().skip(1));
        assert(s.skip(1).last() == s.last());
    }
}

/// The sum of quantities splits into buy and sell volume.
pub proof fn lemma_sum_q_split(s: Seq<Trade>)
    ensures
        sum_q(s) == sum_buy(s) + sum_sell(s),
    decreases s.len(),
{
    if s.len() > 0 {
        lemma_sum_q_split(s.drop_last());
    }
}

/// On a time-sorted sequence the maximal suffix at or after `start`
/// contains exactly the trades with timestamp at least `start`.
pub proof fn lemma_suffix_count_sorted(s: Seq<Trade>, start: int)
    requires
        ts_sorted(s),
    ensures
        suffix_count(s, start) == count_at_or_after(s, start),
    decreases s.len(),
{
    if s.len() > 0 {
        assert(ts_sorted(s.drop_last())) by {
            assert(forall|i: int|
                0 <= i < s.drop_last().len() ==> #[trigger] s.drop_last()[i] == s[i]);
        }
        lemma_suffix_count_sorted(s.drop_last(), start);
        if s.last().timestamp as int >= start {
        } else {
            lemma_count_none_when_last_below(s, start);
        }
    }
}

/// On a time-sorted sequence whose last timestamp is below `start`, no
/// trade is at or after `start`.
proof fn lemma_count_none_when_last_below(s: Seq<Trade>, start: int)
    requires
        ts_sorted(s),
        s.len() > 0,
        (s.last().timestamp as int) < start,
    ensures
        count_at_or_after(s, start) == 0,
    decreases s.len(),
{
    if s.len() > 1 {
        assert(ts_sorted(s.drop_last())) by {
            assert(forall|i: int|
                0 <= i < s.drop_last().len() ==> #[trigger] s.drop_last()[i] == s[i]);
        }
        assert(s.drop_last().last() == s[s.len() - 2]);
        assert(s[s.len() - 2].timestamp <= s[s.len() - 1].timestamp);
        lemma_count_none_when_last_below(s.drop_last(), start);
    } else {
        assert(count_at_or_after(s.drop_last(), start) == 0);
    }
}

/// The suffix count never exceeds the length.
pub proof fn lemma_suffix_count_bounds(s: Seq<Trade>, start: int)
    ensures
        0 <= suffix_count(s, start) <= s.len(),
    decreases s.len(),
{
    if s.len() > 0 {
        lemma_suffix_count_bounds(s.drop_last(), start);
    }
}

/// In an all-buyer-aggressor tail the sell volume vanishes, so the
/// aggressor volume ratio is exactly one.
pub proof fn lemma_aggr_ratio_all_buyers(s: Seq<Trade>)
    requires
        trades_valid(s),
        forall|i: int| 0 <= i < s.len() ==> !(#[trigger] s[i]).is_buyer_maker,
        sum_buy(s) > 0,
    ensures
        sum_sell(s) == 0,
        dec_div(sum_buy(s), sum_buy(s) + sum_sell(s)) == SCALE_UNITS as int,
{
    lemma_all_buyers_no_sell(s);
    crate::dec::lemma_dec_div_self(sum_buy(s));
}

proof fn lemma_all_buyers_no_sell(s: Seq<Trade>)
    requires
        forall|i: int| 0 <= i < s.len() ==> !(#[trigger] s[i]).is_buyer_maker,
    ensures
        sum_sell(s) == 0,
    decreases s.len(),
{
    if s.len() > 0 {
        assert(forall|i: int|
            0 <= i < s.drop_last().len() ==> #[trigger] s.drop_last()[i] == s[i]);
        lemma_all_buyers_no_sell(s.drop_last());
    }
}

/// In an all-seller-aggressor tail the buy volume vanishes, so the
/// aggressor volume ratio is exactly zero.
pub proof fn lemma_aggr_ratio_all_sellers(s: Seq<Trade>)
    requires
        trades_valid(s),
        forall|i: int| 0 <= i < s.len() ==> (#[trigger] s[i]).is_buyer_maker,
        sum_sell(s) > 0,
    ensures
        sum_buy(s) == 0,
        dec_div(sum_buy(s), sum_buy(s) + sum_sell(s)) == 0,
{
    lemma_all_sellers_no_buy(s);
    crate::dec::lemma_dec_zero_ops(sum_sell(s));
}

proof fn lemma_all_sellers_no_buy(s: Seq<Trade>)
    requires
        forall|i: int| 0 <= i < s.len() ==> (#[trigger] s[i]).is_buyer_maker,
    ensures
        sum_buy(s) == 0,
    decreases s.len(),
{
    if s.len() > 0 {
        assert(forall|i: int|
            0 <= i < s.drop_last().len() ==> #[trigger] s.drop_last()[i] == s[i]);
        lemma_all_sellers_no_buy(s.drop_last());
    }
}

/// A prefix of a valid trade sequence is valid.
proof fn lemma_trades_valid_sub(s: Seq<Trade>, t: Seq<Trade>)
    requires
        trades_valid(s),
        t.len() <= s.len(),
        forall|i: int| 0 <= i < t.len() ==> #[trigger] t[i] == s[s.len() - t.len() + i],
    ensures
        trades_valid(t),
{
}

/// Lazily refreshed statistics over the resident trades, plus the
/// eagerly maintained signed count momentum.
#[derive(Clone, Copy, Debug)]
pub struct CachedStats {
    pub trade_imbalance: Option<Dec>,
    pub vwap_total: Option<Dec>,
    pub price_change: Option<Dec>,
    pub last_price: Option<Dec>,
    pub avg_trade_size: Option<Dec>,
    pub signed_count_momentum: i64,
}

/// A read-only projection of the log's statistics.
#[derive(Clone, Debug)]
pub struct TradeLogSnapshot {
    pub last_price: Option<Dec>,
    pub trade_imbalance: Option<Dec>,
    pub vwap_total: Option<Dec>,
    pub price_change: Option<Dec>,
    pub avg_trade_size: Option<Dec>,
    pub signed_count_momentum: i64,
    pub trade_rate_10s: Option<Dec>,
    pub vwap_10: Option<Dec>,
    pub vwap_50: Option<Dec>,
    pub vwap_100: Option<Dec>,
    pub vwap_1000: Option<Dec>,
    pub aggr_ratio_10: Option<Dec>,
    pub aggr_ratio_50: Option<Dec>,
    pub aggr_ratio_100: Option<Dec>,
    pub aggr_ratio_1000: Option<Dec>,
}

/// The bounded trades log.
pub struct TradesLog {
    pub trades: VecDeque<Trade>,
    pub max_len: usize,
    pub trade_count: usize,
    pub buy_volume: Dec,
    pub sell_volume: Dec,
    pub stats_dirty: bool,
    pub cached_stats: CachedStats,
}

impl TradesLog {
    /// The log's structural invariant: the resident trades are valid and
    /// within capacity, the running volumes and the momentum agree with
    /// the resident set, and the cached statistics agree with it whenever
    /// they are marked clean.
    pub open spec fn wf(&self) -> bool {
        &&& 1 <= self.max_len <= LEN_LIMIT
        &&& self.trades@.len() <= self.max_len
        &&& trades_valid(self.trades@)
        &&& self.trade_count == self.trades@.len()
        &&& self.buy_volume@ == sum_buy(self.trades@)
        &&& self.sell_volume@ == sum_sell(self.trades@)
        &&& self.cached_stats.signed_count_momentum as int == momentum(self.trades@)
        &&& match self.cached_stats.last_price {
            Some(p) => 0 <= p@ <= VAL_LIMIT_UNITS as int,
            None => true,
        }
        &&& !self.stats_dirty ==> {
            &&& crate::dec::opt_units(self.cached_stats.trade_imbalance)
                == spec_trade_imbalance(self.trades@)
            &&& crate::dec::opt_units(self.cached_stats.vwap_total) == spec_vwap_total(
                self.trades@,
            )
            &&& crate::dec::opt_units(self.cached_stats.last_price) == spec_last_price(
                self.trades@,
            )
            &&& crate::dec::opt_units(self.cached_stats.avg_trade_size) == spec_avg_trade_size(
                self.trades@,
            )
        }
    }

    /// An empty log of capacity `max_len`.
    pub fn new(max_len: usize) -> (r: TradesLog)
        requires
            1 <= max_len <= LEN_LIMIT,
        ensures
            r.wf(),
            r.trades@ == Seq::<Trade>::empty(),
            r.max_len == max_len,
            r.stats_dirty,
            r.cached_stats.signed_count_momentum == 0,
            r.buy_volume@ == 0,
            r.sell_volume@ == 0,
            r.cached_stats.last_price is None,
            r.cached_stats.price_change is None,
    {
        TradesLog {
            trades: VecDeque::with_capacity(max_len),
            max_len,
            trade_count: 0,
            buy_volume: Dec::zero(),
            sell_volume: Dec::zero(),
            stats_dirty: true,
            cached_stats: CachedStats {
                trade_imbalance: None,
                vwap_total: None,
                price_change: None,
                last_price: None,
                avg_trade_size: None,
                signed_count_momentum: 0,
            },
        }
    }

    /// Append a trade; when the log is at capacity the oldest trade is
    /// evicted first and its contribution to the volumes and to the
    /// momentum is reversed.
    pub fn insert_trade(&mut self, trade: Trade)
        requires
            old(self).wf(),
            trade_valid(trade),
        ensures
            final(self).wf(),
            final(self).trades@ == if old(self).trades@.len() == old(self).max_len {
                old(self).trades@.skip(1).push(trade)
            } else {
                old(self).trades@.push(trade)
            },
            final(self).max_len == old(self).max_len,
            final(self).stats_dirty,
            final(self).cached_stats.trade_imbalance == old(self).cached_stats.trade_imbalance,
            final(self).cached_stats.vwap_total == old(self).cached_stats.vwap_total,
            final(self).cached_stats.price_change == old(self).cached_stats.price_change,
            final(self).cached_stats.last_price == old(self).cached_stats.last_price,
            final(self).cached_stats.avg_trade_size == old(self).cached_stats.avg_trade_size,
    {
        proof {
            lemma_trade_sums_bounds(self.trades@);
        }
        if self.trades.len() == self.max_len {
            let ghost s0 = self.trades@;
            proof {
                lemma_sums_decompose_front(s0);
                lemma_trades_valid_sub(s0, s0.skip(1));
                lemma_trade_sums_bounds(s0.skip(1));
            }
            let removed = match self.trades.pop_front() {
                Some(t) => t,
                None => {
                    proof {
                        assert(false);
                    }
                    trade
                },
            };
            proof {
                assert(self.trades@ =~= s0.skip(1));
            }
            if removed.is_buyer_maker {
                self.sell_volume = self.sell_volume.minus(removed.quantity);
                self.cached_stats.signed_count_momentum =
                    self.cached_stats.signed_count_momentum + 1;
            } else {
                self.buy_volume = self.buy_volume.minus(removed.quantity);
                self.cached_stats.signed_count_momentum =
                    self.cached_stats.signed_count_momentum - 1;
            }
        } else {
            self.trade_count = self.trade_count + 1;
        }
        let ghost s1 = self.trades@;
        proof {
            lemma_trade_sums_bounds(s1);
        }
        if trade.is_buyer_maker {
            self.sell_volume = self.sell_volume.plus(trade.quantity);
            self.cached_stats.signed_count_momentum = self.cached_stats.signed_count_momentum - 1;
        } else {
            self.buy_volume = self.buy_volume.plus(trade.quantity);
            self.cached_stats.signed_count_momentum = self.cached_stats.signed_count_momentum + 1;
        }
        self.stats_dirty = true;
        self.trades.push_back(trade);
        proof {
            assert(self.trades@.drop_last() =~= s1);
            assert(forall|i: int| 0 <= i < s1.len() ==> #[trigger] self.trades@[i] == s1[i]);
        }
    }

    /// Refresh the cached statistics from the resident trades if they
    /// are marked dirty. The previously cached last price feeds the
    /// price-change statistic.
    pub fn update_cached_stats(&mut self)
        requires
            old(self).wf(),
        ensures
            final(self).wf(),
            !final(self).stats_dirty,
            final(self).trades == old(self).trades,
            final(self).max_len == old(self).max_len,
            final(self).buy_volume == old(self).buy_volume,
            final(self).sell_volume == old(self).sell_volume,
            final(self).trade_count == old(self).trade_count,
            final(self).cached_stats.signed_count_momentum == old(
                self,
            ).cached_stats.signed_count_momentum,
            old(self).stats_dirty ==> {
                &&& crate::dec::opt_units(final(self).cached_stats.trade_imbalance)
                    == spec_trade_imbalance(old(self).trades@)
                &&& crate::dec::opt_units(final(self).cached_stats.vwap_total) == spec_vwap_total(
                    old(self).trades@,
                )
                &&& crate::dec::opt_units(final(self).cached_stats.price_change)
                    == spec_price_change(
                    old(self).trades@,
                    crate::dec::opt_units(old(self).cached_stats.last_price),
                )
                &&& crate::dec::opt_units(final(self).cached_stats.last_price) == spec_last_price(
                    old(self).trades@,
                )
                &&& crate::dec::opt_units(final(self).cached_stats.avg_trade_size)
                    == spec_avg_trade_size(old(self).trades@)
            },
            !old(self).stats_dirty ==> final(self).cached_stats == old(self).cached_stats,
    {
        if !self.stats_dirty {
            return ;
        }
        proof {
            lemma_trade_sums_bounds(self.trades@);
            lemma_sum_q_split(self.trades@);
        }
        let total_volume = self.buy_volume.plus(self.sell_volume);
        let zero = Dec::zero();

        self.cached_stats.trade_imbalance = if zero.lt(total_volume) {
            Some(self.buy_volume.divide(total_volume))
        } else {
            None
        };

        self.cached_stats.vwap_total = if zero.lt(total_volume) {
            let nt = self.trades.len();
            let last_price = if nt > 0 {
                self.trades[nt - 1].price
            } else {
                Dec::zero()
            };
            proof {
                vstd::arithmetic::mul::lemma_mul_upper_bound(
                    total_volume@,
                    (LEN_LIMIT as int) * (VAL_LIMIT_UNITS as int),
                    last_price@,
                    VAL_LIMIT_UNITS as int,
                );
                crate::dec::lemma_dec_mul_bounds(
                    total_volume@,
                    last_price@,
                    (LEN_LIMIT as int) * (VAL_LIMIT_UNITS as int),
                    VAL_LIMIT_UNITS as int,
                );
            }
            Some(total_volume.times(last_price).divide(total_volume))
        } else {
            None
        };

        let nt2 = self.trades.len();
        self.cached_stats.price_change = match self.cached_stats.last_price {
            None => None,
            Some(prev) => {
                if nt2 == 0 {
                    None
                } else {
                    Some(self.trades[nt2 - 1].price.minus(prev))
                }
            },
        };

        self.cached_stats.last_price = if nt2 > 0 {
            Some(self.trades[nt2 - 1].price)
        } else {
            None
        };

        self.cached_stats.avg_trade_size = if self.trade_count > 0 {
            Some(total_volume.divide(Dec::from_int(self.trade_count as i64)))
        } else {
            None
        };

        self.stats_dirty = false;
    }

    /// The last `n` trades, newest first (fewer when fewer are resident).
    pub fn last_n_trades(&self, n: usize) -> (r: Vec<Trade>)
        ensures
            r@.len() == if self.trades@.len() < n {
                self.trades@.len() as int
            } else {
                n as int
            },
            forall|i: int|
                0 <= i < r@.len() ==> #[trigger] r@[i] == self.trades@[self.trades@.len() - 1 - i],
    {
        let len = self.trades.len();
        let k = if len < n {
            len
        } else {
            n
        };
        let mut out: Vec<Trade> = Vec::new();
        let mut i: usize = 0;
        while i < k
            invariant
                k <= len,
                len == self.trades@.len(),
                0 <= i <= k,
                out@.len() == i,
                forall|j: int|
                    0 <= j < i ==> #[trigger] out@[j] == self.trades@[self.trades@.len() - 1 - j],
            decreases k - i,
        {
            out.push(self.trades[len - 1 - i]);
            i += 1;
        }
        out
    }

    /// Volume-weighted average price over the last `window` trades.
    ///
    /// Fails with `InvalidWindowSize` for a zero window, with
    /// `InsufficientTrades` when fewer than `window` trades are resident,
    /// and with `ZeroVolume` when the window's quantities sum to zero.
    pub fn vwap(&self, window: usize) -> (r: Result<Dec, TradesLogError>)
        requires
            self.wf(),
        ensures
            window == 0 ==> r == Err::<Dec, TradesLogError>(TradesLogError::InvalidWindowSize),
            window >= 1 && self.trades@.len() < window ==> r == Err::<Dec, TradesLogError>(
                TradesLogError::InsufficientTrades,
            ),
            window >= 1 && self.trades@.len() >= window ==> {
                let tail = tail_of(self.trades@, window as int);
                if sum_q(tail) == 0 {
                    r == Err::<Dec, TradesLogError>(TradesLogError::ZeroVolume)
                } else {
                    r is Ok && r->Ok_0@ == dec_div(sum_pq(tail), sum_q(tail))
                }
            },
    {
        if window == 0 {
            return Err(TradesLogError::InvalidWindowSize);
        }
        let len = self.trades.len();
        if len < window {
            return Err(TradesLogError::InsufficientTrades);
        }
        let base = len - window;
        let ghost tail = tail_of(self.trades@, window as int);
        proof {
            lemma_trades_valid_sub(self.trades@, tail);
        }
        let mut spq = Dec::zero();
        let mut sq = Dec::zero();
        let mut i: usize = 0;
        while i < window
            invariant
                self.wf(),
                len == self.trades@.len(),
                base == len - window,
                window <= len,
                0 <= i <= window,
                tail == tail_of(self.trades@, window as int),
                tail.len() == window,
                trades_valid(tail),
                forall|j: int| 0 <= j < tail.len() ==> #[trigger] tail[j] == self.trades@[
                    base + j],
                spq@ == sum_pq(tail.take(i as int)),
                sq@ == sum_q(tail.take(i as int)),
                0 <= spq@ <= (i as int) * (crate::dec::PQ_LIMIT_UNITS as int),
                0 <= sq@ <= (i as int) * (VAL_LIMIT_UNITS as int),
            decreases window - i,
        {
            let t = self.trades[base + i];
            proof {
                assert(tail[i as int] == t);
                assert(tail.take(i as int + 1).drop_last() =~= tail.take(i as int));
                assert(tail.take(i as int + 1).last() == tail[i as int]);
                crate::dec::lemma_dec_mul_val_bounds(t.price@, t.quantity@);
            }
            spq = spq.plus(t.price.times(t.quantity));
            sq = sq.plus(t.quantity);
            i += 1;
        }
        proof {
            assert(tail.take(window as int) =~= tail);
        }
        if sq.is_zero() {
            Err(TradesLogError::ZeroVolume)
        } else {
            Ok(spq.divide(sq))
        }
    }

    /// Buyer-taker volume over total volume across the last `n` trades
    /// (all resident trades when fewer than `n`).
    ///
    /// Fails with `InvalidWindowSize` for a zero window, with
    /// `InsufficientTrades` on an empty log, and with `ZeroVolume` when
    /// the window's quantities sum to zero.
    pub fn aggressor_volume_ratio(&self, n: usize) -> (r: Result<Dec, TradesLogError>)
        requires
            self.wf(),
        ensures
            n == 0 ==> r == Err::<Dec, TradesLogError>(TradesLogError::InvalidWindowSize),
            n >= 1 && self.trades@.len() == 0 ==> r == Err::<Dec, TradesLogError>(
                TradesLogError::InsufficientTrades,
            ),
            n >= 1 && self.trades@.len() > 0 ==> {
                let tail = tail_of(self.trades@, n as int);
                if sum_buy(tail) + sum_sell(tail) == 0 {
                    r == Err::<Dec, TradesLogError>(TradesLogError::ZeroVolume)
                } else {
                    r is Ok && r->Ok_0@ == dec_div(sum_buy(tail), sum_buy(tail) + sum_sell(tail))
                }
            },
    {
        if n == 0 {
            return Err(TradesLogError::InvalidWindowSize);
        }
        let len = self.trades.len();
        if len == 0 {
            return Err(TradesLogError::InsufficientTrades);
        }
        let k = if len < n {
            len
        } else {
            n
        };
        let base = len - k;
        let ghost tail = tail_of(self.trades@, n as int);
        proof {
            lemma_trades_valid_sub(self.trades@, tail);
        }
        let mut buyer = Dec::zero();
        let mut seller = Dec::zero();
        let mut i: usize = 0;
        while i < k
            invariant
                self.wf(),
                len == self.trades@.len(),
                k == if len < n {
                    len as int
                } else {
                    n as int
                },
                base == len - k,
                0 <= i <= k,
                tail == tail_of(self.trades@, n as int),
                tail.len() == k,
                trades_valid(tail),
                forall|j: int| 0 <= j < tail.len() ==> #[trigger] tail[j] == self.trades@[
                    base + j],
                buyer@ == sum_buy(tail.take(i as int)),
                seller@ == sum_sell(tail.take(i as int)),
                0 <= buyer@ <= (i as int) * (VAL_LIMIT_UNITS as int),
                0 <= seller@ <= (i as int) * (VAL_LIMIT_UNITS as int),
            decreases k - i,
        {
            let t = self.trades[base + i];
            proof {
                assert(tail[i as int] == t);
                assert(tail.take(i as int + 1).drop_last() =~= tail.take(i as int));
                assert(tail.take(i as int + 1).last() == tail[i as int]);
            }
            if t.is_buyer_maker {
                seller = seller.plus(t.quantity);
            } else {
                buyer = buyer.plus(t.quantity);
            }
            i += 1;
        }
        proof {
            assert(tail.take(k as int) =~= tail);
        }
        let total = buyer.plus(seller);
        if total.is_zero() {
            Err(TradesLogError::ZeroVolume)
        } else {
            Ok(buyer.divide(total))
        }
    }

    /// Trades per second over the trailing `window_ms` milliseconds,
    /// where "now" is the newest resident timestamp.
    ///
    /// The count is the maximal suffix of trades with timestamp at least
    /// `now - window_ms`; on a time-sorted log this is exactly the number
    /// of trades in that span. Fails with `InsufficientTrades` when fewer
    /// than two trades are resident.
    pub fn trade_rate(&self, window_ms: u64) -> (r: Result<Dec, TradesLogError>)
        requires
            self.wf(),
            window_ms >= 1,
        ensures
            self.trades@.len() < 2 ==> r == Err::<Dec, TradesLogError>(
                TradesLogError::InsufficientTrades,
            ),
            self.trades@.len() >= 2 ==> {
                let now = self.trades@.last().timestamp as int;
                let start = if now >= window_ms as int {
                    now - window_ms as int
                } else {
                    0int
                };
                r is Ok && r->Ok_0@ == (suffix_count(self.trades@, start) * 1000 * (
                SCALE_UNITS as int)) / (window_ms as int)
            },
    {
        let len = self.trades.len();
        if len < 2 {
            return Err(TradesLogError::InsufficientTrades);
        }
        let now = self.trades[len - 1].timestamp;
        let start = if now >= window_ms {
            now - window_ms
        } else {
            0
        };
        let ghost s = self.trades@;
        proof {
            assert(s.take(len as int) =~= s);
        }
        let mut i: usize = len;
        while i > 0 && self.trades[i - 1].timestamp >= start
            invariant
                self.wf(),
                s == self.trades@,
                len == s.len(),
                0 <= i <= len,
                suffix_count(s, start as int) == suffix_count(s.take(i as int), start as int) + (
                len - i),
            decreases i,
        {
            proof {
                assert(s.take(i as int).last() == s[i as int - 1]);
                assert(s.take(i as int).drop_last() =~= s.take(i as int - 1));
            }
            i -= 1;
        }
        proof {
            if i > 0 {
                assert(s.take(i as int).last() == s[i as int - 1]);
            }
            assert(suffix_count(s.take(i as int), start as int) == 0);
            lemma_suffix_count_bounds(s, start as int);
        }
        let count = len - i;
        let num: i128 = (count as i128) * 1000 * SCALE_UNITS;
        Ok(Dec::from_units(num / (window_ms as i128)))
    }

    /// Buy volume over total volume of the resident trades.
    pub fn trade_imbalance(&mut self) -> (r: Option<Dec>)
        requires
            old(self).wf(),
        ensures
            final(self).wf(),
            final(self).trades == old(self).trades,
            final(self).max_len == old(self).max_len,
            crate::dec::opt_units(r) == spec_trade_imbalance(old(self).trades@),
    {
        self.update_cached_stats();
        self.cached_stats.trade_imbalance
    }

    /// Total volume times the last price over total volume.
    pub fn vwap_total(&mut self) -> (r: Option<Dec>)
        requires
            old(self).wf(),
        ensures
            final(self).wf(),
            final(self).trades == old(self).trades,
            final(self).max_len == old(self).max_len,
            crate::dec::opt_units(r) == spec_vwap_total(old(self).trades@),
    {
        self.update_cached_stats();
        self.cached_stats.vwap_total
    }

    /// Change of the last price across the two most recent statistic
    /// refreshes.
    pub fn price_change(&mut self) -> (r: Option<Dec>)
        requires
            old(self).wf(),
        ensures
            final(self).wf(),
            final(self).trades == old(self).trades,
            final(self).max_len == old(self).max_len,
            old(self).stats_dirty ==> crate::dec::opt_units(r) == spec_price_change(
                old(self).trades@,
                crate::dec::opt_units(old(self).cached_stats.last_price),
            ),
            !old(self).stats_dirty ==> r == old(self).cached_stats.price_change,
    {
        self.update_cached_stats();
        self.cached_stats.price_change
    }

    /// Price of the newest resident trade.
    pub fn last_price(&self) -> (r: Option<Dec>)
        ensures
            crate::dec::opt_units(r) == spec_last_price(self.trades@),
    {
        let len = self.trades.len();
        if len == 0 {
            None
        } else {
            Some(self.trades[len - 1].price)
        }
    }

    /// Average quantity per resident trade.
    pub fn avg_trade_size(&mut self) -> (r: Option<Dec>)
        requires
            old(self).wf(),
        ensures
            final(self).wf(),
            final(self).trades == old(self).trades,
            final(self).max_len == old(self).max_len,
            crate::dec::opt_units(r) == spec_avg_trade_size(old(self).trades@),
    {
        self.update_cached_stats();
        self.cached_stats.avg_trade_size
    }

    /// Number of aggressor-buy trades minus aggressor-sell trades among
    /// the residents.
    pub fn signed_count_momentum(&self) -> (r: i64)
        requires
            self.wf(),
        ensures
            r as int == momentum(self.trades@),
    {
        self.cached_stats.signed_count_momentum
    }

    /// A consistent projection of every statistic, with failed window
    /// queries coerced to absences.
    pub fn get_snapshot(&mut self) -> (r: TradeLogSnapshot)
        requires
            old(self).wf(),
        ensures
            final(self).wf(),
            final(self).trades == old(self).trades,
            final(self).max_len == old(self).max_len,
            crate::dec::opt_units(r.last_price) == spec_last_price(old(self).trades@),
            crate::dec::opt_units(r.trade_imbalance) == spec_trade_imbalance(old(self).trades@),
            crate::dec::opt_units(r.vwap_total) == spec_vwap_total(old(self).trades@),
            old(self).stats_dirty ==> crate::dec::opt_units(r.price_change) == spec_price_change(
                old(self).trades@,
                crate::dec::opt_units(old(self).cached_stats.last_price),
            ),
            !old(self).stats_dirty ==> r.price_change == old(self).cached_stats.price_change,
            crate::dec::opt_units(r.avg_trade_size) == spec_avg_trade_size(old(self).trades@),
            r.signed_count_momentum as int == momentum(old(self).trades@),
            old(self).trades@.len() < 2 ==> r.trade_rate_10s is None,
            old(self).trades@.len() >= 2 ==> {
                let now = old(self).trades@.last().timestamp as int;
                let start = if now >= 10_000 {
                    now - 10_000
                } else {
                    0int
                };
                r.trade_rate_10s is Some && r.trade_rate_10s->0@ == (suffix_count(
                    old(self).trades@,
                    start,
                ) * 1000 * (SCALE_UNITS as int)) / 10_000
            },
            crate::dec::opt_units(r.vwap_10) == spec_vwap_opt(old(self).trades@, 10),
            crate::dec::opt_units(r.vwap_50) == spec_vwap_opt(old(self).trades@, 50),
            crate::dec::opt_units(r.vwap_100) == spec_vwap_opt(old(self).trades@, 100),
            crate::dec::opt_units(r.vwap_1000) == spec_vwap_opt(old(self).trades@, 1000),
            crate::dec::opt_units(r.aggr_ratio_10) == spec_aggr_opt(old(self).trades@, 10),
            crate::dec::opt_units(r.aggr_ratio_50) == spec_aggr_opt(old(self).trades@, 50),
            crate::dec::opt_units(r.aggr_ratio_100) == spec_aggr_opt(old(self).trades@, 100),
            crate::dec::opt_units(r.aggr_ratio_1000) == spec_aggr_opt(old(self).trades@, 1000),
    {
        self.update_cached_stats();
        TradeLogSnapshot {
            last_price: self.last_price(),
            trade_imbalance: self.cached_stats.trade_imbalance,
            vwap_total: self.cached_stats.vwap_total,
            price_change: self.cached_stats.price_change,
            avg_trade_size: self.cached_stats.avg_trade_size,
            signed_count_momentum: self.cached_stats.signed_count_momentum,
            trade_rate_10s: match self.trade_rate(10_000) {
                Ok(v) => Some(v),
                Err(_) => None,
            },
            vwap_10: match self.vwap(10) {
                Ok(v) => Some(v),
                Err(_) => None,
            },
            vwap_50: match self.vwap(50) {
                Ok(v) => Some(v),
                Err(_) => None,
            },
            vwap_100: match self.vwap(100) {
                Ok(v) => Some(v),
                Err(_) => None,
            },
            vwap_1000: match self.vwap(1000) {
                Ok(v) => Some(v),
                Err(_) => None,
            },
            aggr_ratio_10: match self.aggressor_volume_ratio(10) {
                Ok(v) => Some(v),
                Err(_) => None,
            },
            aggr_ratio_50: match self.aggressor_volume_ratio(50) {
                Ok(v) => Some(v),
                Err(_) => None,
            },
            aggr_ratio_100: match self.aggressor_volume_ratio(100) {
                Ok(v) => Some(v),
                Err(_) => None,
            },
            aggr_ratio_1000: match self.aggressor_volume_ratio(1000) {
                Ok(v) => Some(v),
                Err(_) => None,
            },
        }
    }
}

/// The running volumes always partition the total resident quantity, and
/// the momentum counts aggressor buys against aggressor sells, whatever
/// sequence of inserts built the log.
pub proof fn lemma_volume_invariant(log: &TradesLog)
    requires
        log.wf(),
    ensures
        log.buy_volume@ + log.sell_volume@ == sum_q(log.trades@),
        log.cached_stats.signed_count_momentum as int == momentum(log.trades@),
{
    lemma_sum_q_split(log.trades@);
}

} // verus!
