//! Two-sided limit order book with cached best levels, its feature
//! queries, and the coupling to the rolling order-flow tracker.
//!
//! Bids and asks are sorted sides (ascending price). Bids iterate
//! best-first from the high end, asks from the low end. A snapshot
//! replaces both sides wholesale; deltas set or remove single levels and
//! emit order-flow events to the tracker as they go.

use vstd::prelude::*;

use crate::book_side::{
    lemma_remove_semantics, lemma_side_qty_at, seq_remove, seq_set, side_has, side_qty, side_wf,
    BookSide,
};
use crate::dec::{dec_div, dec_mul, Dec, LEN_LIMIT, SCALE_UNITS, VAL_LIMIT_UNITS};
use crate::flow::{pruned, FlowEvent, RollingFlowTracker};

verus! {

/// A snapshot or delta pair is admissible when price and quantity are
/// nonnegative and in range.
pub open spec fn pair_valid(d: (Dec, Dec)) -> bool {
    &&& 0 <= d.0@ <= VAL_LIMIT_UNITS as int
    &&& 0 <= d.1@ <= VAL_LIMIT_UNITS as int
}

/// The side built from snapshot pairs, in order: invalid pairs and zero
/// quantities are skipped (a zero quantity is an absence), later pairs
/// for the same price win.
pub open spec fn side_from_pairs(ps: Seq<(Dec, Dec)>) -> Seq<(Dec, Dec)>
    decreases ps.len(),
{
    if ps.len() == 0 {
        Seq::empty()
    } else {
        let prev = side_from_pairs(ps.drop_last());
        let d = ps.last();
        if pair_valid(d) && d.1@ > 0 {
            seq_set(prev, d.0, d.1)
        } else {
            prev
        }
    }
}

/// The side after a sequence of deltas, applied in order: a zero
/// quantity removes the level, a positive one sets it, invalid pairs are
/// skipped.
pub open spec fn deltas_fold(s: Seq<(Dec, Dec)>, ds: Seq<(Dec, Dec)>) -> Seq<(Dec, Dec)>
    decreases ds.len(),
{
    if ds.len() == 0 {
        s
    } else {
        let prev = deltas_fold(s, ds.drop_last());
        let d = ds.last();
        if !pair_valid(d) {
            prev
        } else if d.1@ == 0 {
            seq_remove(prev, d.0@)
        } else {
            seq_set(prev, d.0, d.1)
        }
    }
}

/// The flow events a delta sequence emits against a bid side: an order
/// event for each level set, a cancel for each removal of a level that
/// was present at that point.
pub open spec fn bid_delta_events(s: Seq<(Dec, Dec)>, ds: Seq<(Dec, Dec)>) -> Seq<FlowEvent>
    decreases ds.len(),
{
    if ds.len() == 0 {
        Seq::empty()
    } else {
        let prev_side = deltas_fold(s, ds.drop_last());
        let prev_events = bid_delta_events(s, ds.drop_last());
        let d = ds.last();
        if !pair_valid(d) {
            prev_events
        } else if d.1@ == 0 {
            if side_has(prev_side, d.0@) {
                prev_events.push(FlowEvent::BidCancel)
            } else {
                prev_events
            }
        } else {
            prev_events.push(FlowEvent::BidOrder(d.1))
        }
    }
}

/// The flow events a delta sequence emits against an ask side.
pub open spec fn ask_delta_events(s: Seq<(Dec, Dec)>, ds: Seq<(Dec, Dec)>) -> Seq<FlowEvent>
    decreases ds.len(),
{
    if ds.len() == 0 {
        Seq::empty()
    } else {
        let prev_side = deltas_fold(s, ds.drop_last());
        let prev_events = ask_delta_events(s, ds.drop_last());
        let d = ds.last();
        if !pair_valid(d) {
            prev_events
        } else if d.1@ == 0 {
            if side_has(prev_side, d.0@) {
                prev_events.push(FlowEvent::AskCancel)
            } else {
                prev_events
            }
        } else {
            prev_events.push(FlowEvent::AskOrder(d.1))
        }
    }
}

/// The events stamped with one observation instant.
pub open spec fn stamped(es: Seq<FlowEvent>, now: u64) -> Seq<(u64, FlowEvent)> {
    Seq::new(es.len(), |i: int| (now, es[i]))
}

/// What survives pruning starts at or after the cutoff.
proof fn lemma_pruned_front(s: Seq<(u64, FlowEvent)>, cutoff: int)
    ensures
        pruned(s, cutoff).len() == 0 || pruned(s, cutoff)[0].0 as int >= cutoff,
        pruned(s, cutoff).len() <= s.len(),
    decreases s.len(),
{
    if s.len() > 0 && (s[0].0 as int) < cutoff {
        lemma_pruned_front(s.skip(1), cutoff);
    }
}

/// Pruning keeps a subset of the events, so a common time bound
/// survives it.
proof fn lemma_pruned_times(s: Seq<(u64, FlowEvent)>, cutoff: int, bound: u64)
    requires
        forall|i: int| 0 <= i < s.len() ==> #[trigger] s[i].0 <= bound,
    ensures
        forall|i: int|
            0 <= i < pruned(s, cutoff).len() ==> #[trigger] pruned(s, cutoff)[i].0 <= bound,
    decreases s.len(),
{
    if s.len() > 0 && (s[0].0 as int) < cutoff {
        assert(forall|i: int|
            0 <= i < s.skip(1).len() ==> #[trigger] s.skip(1)[i].0 <= bound);
        lemma_pruned_times(s.skip(1), cutoff, bound);
        assert(pruned(s, cutoff) == pruned(s.skip(1), cutoff));
    } else {
        assert(pruned(s, cutoff) == s);
    }
}

/// Setting the same level twice with the same positive quantity is the
/// same as setting it once: the book is unchanged by the repetition.
pub proof fn lemma_delta_idempotent(s: Seq<(Dec, Dec)>, p: Dec, q: Dec)
    ensures
        seq_set(seq_set(s, p, q), p, q) == seq_set(s, p, q),
    decreases s.len(),
{
    let r = seq_set(s, p, q);
    if s.len() == 0 {
        assert(seq_set(r, p, q) =~= r);
    } else if s[0].0@ < p@ {
        lemma_delta_idempotent(s.skip(1), p, q);
        assert(r.skip(1) =~= seq_set(s.skip(1), p, q));
        assert(seq_set(r, p, q) =~= seq![r[0]] + seq_set(r.skip(1), p, q));
    } else if s[0].0@ == p@ {
        assert(r.skip(1) =~= s.skip(1));
        assert(seq_set(r, p, q) =~= r);
    } else {
        assert(r.skip(1) =~= s);
        assert(seq_set(r, p, q) =~= r);
    }
}

/// Applying the same delta twice leaves the side unchanged after the
/// second application, whatever the first one did.
pub proof fn lemma_same_delta_twice(b: Seq<(Dec, Dec)>, d: (Dec, Dec))
    requires
        d.1@ != 0,
    ensures
        deltas_fold(deltas_fold(b, seq![d]), seq![d]) == deltas_fold(b, seq![d]),
{
    let ds = seq![d];
    assert(ds.drop_last() =~= Seq::<(Dec, Dec)>::empty());
    assert(ds.last() == d);
    assert(deltas_fold(b, Seq::<(Dec, Dec)>::empty()) == b);
    assert(deltas_fold(b, ds.drop_last()) == b);
    let once = deltas_fold(b, ds);
    assert(deltas_fold(once, Seq::<(Dec, Dec)>::empty()) == once);
    assert(deltas_fold(once, ds.drop_last()) == once);
    if pair_valid(d) {
        assert(once == seq_set(b, d.0, d.1));
        assert(deltas_fold(once, ds) == seq_set(once, d.0, d.1));
        lemma_delta_idempotent(b, d.0, d.1);
    } else {
        assert(once == b);
        assert(deltas_fold(once, ds) == once);
    }
}

/// Book consistency: on a well-formed book — and `apply_snapshot` and
/// `apply_deltas` keep every book well-formed — every stored quantity is
/// strictly positive, and the cached bests are the extremal keys of
/// their sides.
pub proof fn lemma_book_consistency(b: &OrderBook)
    requires
        b.wf(),
    ensures
        forall|i: int| 0 <= i < b.bids@.len() ==> 0 < (#[trigger] b.bids@[i]).1@,
        forall|i: int| 0 <= i < b.asks@.len() ==> 0 < (#[trigger] b.asks@[i]).1@,
        forall|i: int|
            0 <= i < b.bids@.len() ==> (#[trigger] b.bids@[i]).0@ <= b.bids@.last().0@,
        forall|i: int| 0 <= i < b.asks@.len() ==> b.asks@[0].0@ <= (#[trigger] b.asks@[i]).0@,
        b.bids@.len() > 0 ==> b.best_bid == Option::Some(b.bids@.last().0),
        b.asks@.len() > 0 ==> b.best_ask == Option::Some(b.asks@[0].0),
        b.bids@.len() == 0 ==> b.best_bid is None,
        b.asks@.len() == 0 ==> b.best_ask is None,
{
    assert forall|i: int|
        0 <= i < b.bids@.len() implies (#[trigger] b.bids@[i]).0@ <= b.bids@.last().0@ by {
        if i < b.bids@.len() - 1 {
            assert(b.bids@[i].0@ < b.bids@[b.bids@.len() - 1].0@);
        }
    }
}

/// A zero-quantity delta removes its price from the side exactly when
/// the price was present, is a no-op otherwise, and emits a cancel event
/// exactly when a removal occurred.
pub proof fn lemma_zero_qty_delta(b: Seq<(Dec, Dec)>, d: (Dec, Dec))
    requires
        side_wf(b),
        pair_valid(d),
        d.1@ == 0,
    ensures
        deltas_fold(b, seq![d]) == seq_remove(b, d.0@),
        bid_delta_events(b, seq![d]) == (if side_has(b, d.0@) {
            seq![FlowEvent::BidCancel]
        } else {
            Seq::<FlowEvent>::empty()
        }),
        !side_has(b, d.0@) ==> deltas_fold(b, seq![d]) == b,
        side_has(b, d.0@) ==> {
            let r = deltas_fold(b, seq![d]);
            &&& r.len() == b.len() - 1
            &&& !side_has(r, d.0@)
            &&& forall|k: int| k != d.0@ ==> (side_has(r, k) <==> side_has(b, k))
            &&& forall|k: int|
                k != d.0@ && side_has(b, k) ==> #[trigger] side_qty(r, k) == side_qty(b, k)
        },
{
    let ds = seq![d];
    assert(ds.drop_last() =~= Seq::<(Dec, Dec)>::empty());
    assert(deltas_fold(b, ds.drop_last()) == b);
    assert(bid_delta_events(b, ds.drop_last()) == Seq::<FlowEvent>::empty());
    if side_has(b, d.0@) {
        assert(Seq::<FlowEvent>::empty().push(FlowEvent::BidCancel) =~= seq![
            FlowEvent::BidCancel,
        ]);
    }
    lemma_remove_semantics(b, d.0@);
}

/// The price level cached as best, with its quantity: the highest bid,
/// the lowest ask.
pub open spec fn spec_best_of(s: Seq<(Dec, Dec)>, high_end: bool) -> Option<(Dec, Dec)> {
    if s.len() == 0 {
        None
    } else if high_end {
        Some(s.last())
    } else {
        Some(s[0])
    }
}

/// An immutable record of every scalar feature of the book plus the top
/// levels and the flow tracker's reading.
#[derive(Clone, Debug)]
pub struct OrderBookSnapshot {
    pub best_bid: Option<(Dec, Dec)>,
    pub best_ask: Option<(Dec, Dec)>,
    pub mid_price: Option<Dec>,
    pub spread: Option<Dec>,
    pub imbalance: Option<Dec>,
    pub top_bids: Vec<(Dec, Dec)>,
    pub top_asks: Vec<(Dec, Dec)>,
    pub pwi_1: Option<Dec>,
    pub pwi_5: Option<Dec>,
    pub pwi_25: Option<Dec>,
    pub pwi_50: Option<Dec>,
    pub bid_slope: Option<Dec>,
    pub ask_slope: Option<Dec>,
    pub volume_imbalance_top5: Option<Dec>,
    pub bid_depth_ratio: Option<Dec>,
    pub ask_depth_ratio: Option<Dec>,
    pub bid_volume_001: Option<Dec>,
    pub ask_volume_001: Option<Dec>,
    pub bid_avg_distance: Option<Dec>,
    pub ask_avg_distance: Option<Dec>,
    pub order_flow_imbalance: Option<Dec>,
    pub order_flow_pressure: Dec,
}

/// The order book: sorted sides, cached best prices, and the flow
/// tracker fed by delta traffic.
pub struct OrderBook {
    pub bids: BookSide,
    pub asks: BookSide,
    pub best_bid: Option<Dec>,
    pub best_ask: Option<Dec>,
    pub flow_tracker: RollingFlowTracker,
}

impl OrderBook {
    /// The book's structural invariant: both sides sorted, positive and
    /// in range, both caches equal to the extremal keys of their side,
    /// and a well-formed tracker.
    pub open spec fn wf(&self) -> bool {
        &&& side_wf(self.bids@)
        &&& side_wf(self.asks@)
        &&& self.bids@.len() <= LEN_LIMIT
        &&& self.asks@.len() <= LEN_LIMIT
        &&& self.best_bid == (if self.bids@.len() == 0 {
            Option::<Dec>::None
        } else {
            Option::Some(self.bids@.last().0)
        })
        &&& self.best_ask == (if self.asks@.len() == 0 {
            Option::<Dec>::None
        } else {
            Option::Some(self.asks@[0].0)
        })
        &&& self.flow_tracker.wf()
    }

    /// An empty book with a fresh ten-second flow tracker.
    pub fn new() -> (r: OrderBook)
        ensures
            r.wf(),
            r.bids@ == Seq::<(Dec, Dec)>::empty(),
            r.asks@ == Seq::<(Dec, Dec)>::empty(),
            r.flow_tracker.events@ == Seq::<(u64, FlowEvent)>::empty(),
            r.flow_tracker.window_ms == 10_000,
    {
        OrderBook {
            bids: BookSide::new(),
            asks: BookSide::new(),
            best_bid: None,
            best_ask: None,
            flow_tracker: RollingFlowTracker::new(10),
        }
    }

    /// Recompute the cached best prices from the sides.
    fn update_best_bid_ask(&mut self)
        requires
            side_wf(old(self).bids@),
            side_wf(old(self).asks@),
        ensures
            final(self).bids == old(self).bids,
            final(self).asks == old(self).asks,
            final(self).flow_tracker == old(self).flow_tracker,
            final(self).best_bid == (if old(self).bids@.len() == 0 {
                Option::<Dec>::None
            } else {
                Option::Some(old(self).bids@.last().0)
            }),
            final(self).best_ask == (if old(self).asks@.len() == 0 {
                Option::<Dec>::None
            } else {
                Option::Some(old(self).asks@[0].0)
            }),
    {
        self.best_bid = match self.bids.last() {
            Some(l) => Some(l.0),
            None => None,
        };
        self.best_ask = match self.asks.first() {
            Some(l) => Some(l.0),
            None => None,
        };
    }

    /// Replace both sides wholesale from snapshot pairs and recompute
    /// the cached bests. The tracker is untouched.
    pub fn apply_snapshot(&mut self, bids: Vec<(Dec, Dec)>, asks: Vec<(Dec, Dec)>)
        requires
            old(self).wf(),
            bids@.len() <= LEN_LIMIT,
            asks@.len() <= LEN_LIMIT,
        ensures
            final(self).wf(),
            final(self).bids@ == side_from_pairs(bids@),
            final(self).asks@ == side_from_pairs(asks@),
            final(self).flow_tracker == old(self).flow_tracker,
    {
        self.bids.clear();
        self.asks.clear();
        let limit = Dec::from_units(VAL_LIMIT_UNITS);
        let zero = Dec::zero();

        let n = bids.len();
        let mut i: usize = 0;
        while i < n
            invariant
                n == bids@.len() <= LEN_LIMIT,
                0 <= i <= n,
                side_wf(self.bids@),
                self.bids@ == side_from_pairs(bids@.take(i as int)),
                self.bids@.len() <= i,
                self.asks@ == Seq::<(Dec, Dec)>::empty(),
                self.flow_tracker == old(self).flow_tracker,
                old(self).flow_tracker.wf(),
                limit@ == VAL_LIMIT_UNITS as int,
                zero@ == 0,
            decreases n - i,
        {
            let (price, quantity) = bids[i];
            proof {
                assert(bids@.take(i as int + 1).drop_last() =~= bids@.take(i as int));
                assert(bids@.take(i as int + 1).last() == bids@[i as int]);
            }
            if !price.lt(zero) && !quantity.lt(zero) && price.le(limit) && quantity.le(limit)
                && !quantity.is_zero() {
                self.bids.set(price, quantity);
            }
            i += 1;
        }
        proof {
            assert(bids@.take(n as int) =~= bids@);
        }

        let m = asks.len();
        let mut j: usize = 0;
        while j < m
            invariant
                m == asks@.len() <= LEN_LIMIT,
                0 <= j <= m,
                side_wf(self.asks@),
                self.asks@ == side_from_pairs(asks@.take(j as int)),
                self.asks@.len() <= j,
                self.bids@ == side_from_pairs(bids@),
                side_wf(self.bids@),
                self.bids@.len() <= LEN_LIMIT,
                self.flow_tracker == old(self).flow_tracker,
                old(self).flow_tracker.wf(),
                limit@ == VAL_LIMIT_UNITS as int,
                zero@ == 0,
            decreases m - j,
        {
            let (price, quantity) = asks[j];
            proof {
                assert(asks@.take(j as int + 1).drop_last() =~= asks@.take(j as int));
                assert(asks@.take(j as int + 1).last() == asks@[j as int]);
            }
            if !price.lt(zero) && !quantity.lt(zero) && price.le(limit) && quantity.le(limit)
                && !quantity.is_zero() {
                self.asks.set(price, quantity);
            }
            j += 1;
        }
        proof {
            assert(asks@.take(m as int) =~= asks@);
        }
        self.update_best_bid_ask();
    }

    /// The best (highest-priced) bid level.
    pub fn best_bid(&self) -> (r: Option<(Dec, Dec)>)
        requires
            self.wf(),
        ensures
            r == spec_best_of(self.bids@, true),
    {
        self.bids.last()
    }

    /// The best (lowest-priced) ask level.
    pub fn best_ask(&self) -> (r: Option<(Dec, Dec)>)
        requires
            self.wf(),
        ensures
            r == spec_best_of(self.asks@, false),
    {
        self.asks.first()
    }

    /// Midpoint of the best bid and ask prices, absent unless both
    /// exist.
    pub fn mid_price(&self) -> (r: Option<Dec>)
        requires
            self.wf(),
        ensures
            crate::dec::opt_units(r) == spec_mid_price(self.bids@, self.asks@),
    {
        match (self.best_bid, self.best_ask) {
            (Some(bid), Some(ask)) => Some(bid.plus(ask).divide(Dec::from_int(2))),
            _ => None,
        }
    }

    /// Best ask price minus best bid price, absent unless both exist.
    pub fn spread(&self) -> (r: Option<Dec>)
        requires
            self.wf(),
        ensures
            crate::dec::opt_units(r) == spec_spread(self.bids@, self.asks@),
    {
        match (self.best_bid, self.best_ask) {
            (Some(bid), Some(ask)) => Some(ask.minus(bid)),
            _ => None,
        }
    }

    /// Best-bid quantity over the sum of best-bid and best-ask
    /// quantities.
    pub fn order_book_imbalance(&self) -> (r: Option<Dec>)
        requires
            self.wf(),
        ensures
            crate::dec::opt_units(r) == spec_book_imbalance(self.bids@, self.asks@),
    {
        let bid = match self.best_bid {
            Some(p) => p,
            None => {
                return None;
            },
        };
        let ask = match self.best_ask {
            Some(p) => p,
            None => {
                return None;
            },
        };
        let bid_qty = match self.bids.get_qty(bid) {
            Some(q) => q,
            None => {
                return None;
            },
        };
        let ask_qty = match self.asks.get_qty(ask) {
            Some(q) => q,
            None => {
                return None;
            },
        };
        proof {
            assert(side_has(self.bids@, self.bids@.last().0@));
            assert(side_has(self.asks@, self.asks@[0].0@));
            lemma_side_qty_at(self.bids@, self.bids@.len() - 1);
            lemma_side_qty_at(self.asks@, 0);
        }
        let total = bid_qty.plus(ask_qty);
        if total.is_zero() {
            return None;
        }
        Some(bid_qty.divide(total))
    }

    /// Quantity resting at `price` on the chosen side, zero when the
    /// level is absent.
    pub fn volume_at_price(&self, price: Dec, is_bid: bool) -> (r: Dec)
        requires
            self.wf(),
        ensures
            is_bid ==> r@ == side_qty(self.bids@, price@),
            !is_bid ==> r@ == side_qty(self.asks@, price@),
    {
        let got = if is_bid {
            self.bids.get_qty(price)
        } else {
            self.asks.get_qty(price)
        };
        match got {
            Some(q) => q,
            None => Dec::zero(),
        }
    }
}

/// The side a flag selects: bids on true, asks on false.
pub open spec fn side_of(b: &OrderBook, is_bid: bool) -> Seq<(Dec, Dec)> {
    if is_bid {
        b.bids@
    } else {
        b.asks@
    }
}

/// The events a delta sequence emits against the selected side.
pub open spec fn side_delta_events(
    s: Seq<(Dec, Dec)>,
    ds: Seq<(Dec, Dec)>,
    is_bid: bool,
) -> Seq<FlowEvent> {
    if is_bid {
        bid_delta_events(s, ds)
    } else {
        ask_delta_events(s, ds)
    }
}

/// How a tracker queue looks after a batch of events observed at `now`
/// was recorded: untouched when the batch is empty, else pruned at `now`
/// with the stamped batch appended.
pub open spec fn tracker_after_events(
    t0: Seq<(u64, FlowEvent)>,
    post: Seq<(u64, FlowEvent)>,
    window_ms: u64,
    evs: Seq<FlowEvent>,
    now: u64,
) -> bool {
    post == if evs.len() == 0 {
        t0
    } else {
        pruned(t0, now as int - window_ms as int) + stamped(evs, now)
    }
}

/// A queue whose front is already inside the window is unchanged by
/// pruning.
proof fn lemma_pruned_fix(s: Seq<(u64, FlowEvent)>, cutoff: int)
    requires
        s.len() == 0 || s[0].0 as int >= cutoff,
    ensures
        pruned(s, cutoff) == s,
{
}

impl OrderBook {
    /// Apply one side's deltas in order, feeding the flow tracker: an
    /// order event for each level set, a cancel event for each removal
    /// of a present level, every event stamped `now`.
    fn apply_side_deltas(&mut self, ds: &Vec<(Dec, Dec)>, now: u64, is_bid: bool)
        requires
            side_wf(side_of(old(self), is_bid)),
            side_of(old(self), is_bid).len() + ds@.len() <= LEN_LIMIT,
            old(self).flow_tracker.wf(),
            old(self).flow_tracker.events@.len() + ds@.len() <= LEN_LIMIT,
            forall|i: int|
                0 <= i < old(self).flow_tracker.events@.len() ==> #[trigger] old(
                    self,
                ).flow_tracker.events@[i].0 <= now,
        ensures
            side_of(final(self), is_bid) == deltas_fold(side_of(old(self), is_bid), ds@),
            side_wf(side_of(final(self), is_bid)),
            side_of(final(self), is_bid).len() <= side_of(old(self), is_bid).len() + ds@.len(),
            is_bid ==> final(self).asks == old(self).asks,
            !is_bid ==> final(self).bids == old(self).bids,
            final(self).best_bid == old(self).best_bid,
            final(self).best_ask == old(self).best_ask,
            final(self).flow_tracker.wf(),
            final(self).flow_tracker.window_ms == old(self).flow_tracker.window_ms,
            final(self).flow_tracker.cancel_penalty == old(self).flow_tracker.cancel_penalty,
            final(self).flow_tracker.min_pressure == old(self).flow_tracker.min_pressure,
            final(self).flow_tracker.events@.len() <= old(self).flow_tracker.events@.len()
                + ds@.len(),
            forall|i: int|
                0 <= i < final(self).flow_tracker.events@.len()
                    ==> #[trigger] final(self).flow_tracker.events@[i].0 <= now,
            tracker_after_events(
                old(self).flow_tracker.events@,
                final(self).flow_tracker.events@,
                old(self).flow_tracker.window_ms,
                side_delta_events(side_of(old(self), is_bid), ds@, is_bid),
                now,
            ),
    {
        let ghost s0 = side_of(old(self), is_bid);
        let ghost t0 = old(self).flow_tracker.events@;
        let ghost win = old(self).flow_tracker.window_ms;
        let ghost cutoff = now as int - win as int;
        let limit = Dec::from_units(VAL_LIMIT_UNITS);
        let zero = Dec::zero();
        let n = ds.len();
        let mut i: usize = 0;
        while i < n
            invariant
                n == ds@.len(),
                0 <= i <= n,
                s0 == side_of(old(self), is_bid),
                t0 == old(self).flow_tracker.events@,
                win == old(self).flow_tracker.window_ms,
                cutoff == now as int - win as int,
                side_wf(s0),
                s0.len() + n <= LEN_LIMIT,
                t0.len() + n <= LEN_LIMIT,
                forall|k: int| 0 <= k < t0.len() ==> #[trigger] t0[k].0 <= now,
                side_of(self, is_bid) == deltas_fold(s0, ds@.take(i as int)),
                side_wf(side_of(self, is_bid)),
                side_of(self, is_bid).len() <= s0.len() + i,
                is_bid ==> self.asks == old(self).asks,
                !is_bid ==> self.bids == old(self).bids,
                self.best_bid == old(self).best_bid,
                self.best_ask == old(self).best_ask,
                self.flow_tracker.wf(),
                self.flow_tracker.window_ms == win,
                self.flow_tracker.cancel_penalty == old(self).flow_tracker.cancel_penalty,
                self.flow_tracker.min_pressure == old(self).flow_tracker.min_pressure,
                self.flow_tracker.events@.len() <= t0.len() + side_delta_events(
                    s0,
                    ds@.take(i as int),
                    is_bid,
                ).len(),
                side_delta_events(s0, ds@.take(i as int), is_bid).len() <= i,
                forall|k: int|
                    0 <= k < self.flow_tracker.events@.len()
                        ==> #[trigger] self.flow_tracker.events@[k].0 <= now,
                tracker_after_events(
                    t0,
                    self.flow_tracker.events@,
                    win,
                    side_delta_events(s0, ds@.take(i as int), is_bid),
                    now,
                ),
                limit@ == VAL_LIMIT_UNITS as int,
                zero@ == 0,
            decreases n - i,
        {
            let (price, quantity) = ds[i];
            let ghost side_pre = side_of(self, is_bid);
            let ghost evs_pre = side_delta_events(s0, ds@.take(i as int), is_bid);
            proof {
                assert(ds@.take(i as int + 1).drop_last() =~= ds@.take(i as int));
                assert(ds@.take(i as int + 1).last() == ds@[i as int]);
            }
            let valid = !price.lt(zero) && !quantity.lt(zero) && price.le(limit) && quantity.le(
                limit,
            );
            if valid {
                if quantity.is_zero() {
                    let present = if is_bid {
                        self.bids.has_price(price)
                    } else {
                        self.asks.has_price(price)
                    };
                    if present {
                        let ev = if is_bid {
                            FlowEvent::BidCancel
                        } else {
                            FlowEvent::AskCancel
                        };
                        proof {
                            self.lemma_emit_step(t0, evs_pre, win, now, cutoff);
                        }
                        self.flow_tracker.add_event_at(now, ev);
                        proof {
                            assert(stamped(evs_pre.push(ev), now) =~= stamped(evs_pre, now).push(
                                (now, ev),
                            ));
                            if evs_pre.len() == 0 {
                                assert(stamped(evs_pre, now) =~= Seq::<(u64, FlowEvent)>::empty());
                                assert(pruned(t0, cutoff) + stamped(evs_pre, now) =~= pruned(
                                    t0,
                                    cutoff,
                                ));
                            }
                            assert(self.flow_tracker.events@ =~= pruned(t0, cutoff) + stamped(
                                evs_pre.push(ev),
                                now,
                            ));
                            lemma_pruned_times(t0, cutoff, now);
                            lemma_pruned_front(t0, cutoff);
                        }
                    }
                    if is_bid {
                        self.bids.remove_price(price);
                    } else {
                        self.asks.remove_price(price);
                    }
                } else {
                    let ev = if is_bid {
                        FlowEvent::BidOrder(quantity)
                    } else {
                        FlowEvent::AskOrder(quantity)
                    };
                    proof {
                        self.lemma_emit_step(t0, evs_pre, win, now, cutoff);
                    }
                    self.flow_tracker.add_event_at(now, ev);
                    proof {
                        assert(stamped(evs_pre.push(ev), now) =~= stamped(evs_pre, now).push(
                            (now, ev),
                        ));
                        if evs_pre.len() == 0 {
                            assert(stamped(evs_pre, now) =~= Seq::<(u64, FlowEvent)>::empty());
                            assert(pruned(t0, cutoff) + stamped(evs_pre, now) =~= pruned(
                                t0,
                                cutoff,
                            ));
                        }
                        assert(self.flow_tracker.events@ =~= pruned(t0, cutoff) + stamped(
                            evs_pre.push(ev),
                            now,
                        ));
                        lemma_pruned_times(t0, cutoff, now);
                        lemma_pruned_front(t0, cutoff);
                    }
                    if is_bid {
                        self.bids.set(price, quantity);
                    } else {
                        self.asks.set(price, quantity);
                    }
                }
            }
            i += 1;
        }
        proof {
            assert(ds@.take(n as int) =~= ds@);
        }
    }

    /// Before an event is recorded, the tracker queue equals its own
    /// pruning, so the recording appends exactly one stamped event.
    proof fn lemma_emit_step(
        &self,
        t0: Seq<(u64, FlowEvent)>,
        evs_pre: Seq<FlowEvent>,
        win: u64,
        now: u64,
        cutoff: int,
    )
        requires
            cutoff == now as int - win as int,
            win >= 1,
            tracker_after_events(t0, self.flow_tracker.events@, win, evs_pre, now),
        ensures
            evs_pre.len() > 0 ==> pruned(self.flow_tracker.events@, cutoff)
                == self.flow_tracker.events@,
    {
        if evs_pre.len() > 0 {
            let cur = self.flow_tracker.events@;
            lemma_pruned_front(t0, cutoff);
            if pruned(t0, cutoff).len() > 0 {
                assert(cur[0] == pruned(t0, cutoff)[0]);
            } else {
                assert(cur[0] == stamped(evs_pre, now)[0]);
                assert(cur[0].0 == now);
            }
            lemma_pruned_fix(cur, cutoff);
        }
    }

    /// Apply incremental deltas to both sides, in order, as seen at
    /// `now`: a zero quantity removes the level (emitting a cancel event
    /// only when it was present), a positive quantity sets it (emitting
    /// an order event); pairs out of range are rejected silently. The
    /// cached bests are recomputed once at the end.
    pub fn apply_deltas_at(&mut self, bids: Vec<(Dec, Dec)>, asks: Vec<(Dec, Dec)>, now: u64)
        requires
            old(self).wf(),
            old(self).bids@.len() + bids@.len() <= LEN_LIMIT,
            old(self).asks@.len() + asks@.len() <= LEN_LIMIT,
            old(self).flow_tracker.events@.len() + bids@.len() + asks@.len() <= LEN_LIMIT,
            forall|i: int|
                0 <= i < old(self).flow_tracker.events@.len() ==> #[trigger] old(
                    self,
                ).flow_tracker.events@[i].0 <= now,
        ensures
            final(self).wf(),
            final(self).bids@ == deltas_fold(old(self).bids@, bids@),
            final(self).asks@ == deltas_fold(old(self).asks@, asks@),
            final(self).flow_tracker.window_ms == old(self).flow_tracker.window_ms,
            final(self).flow_tracker.cancel_penalty == old(self).flow_tracker.cancel_penalty,
            final(self).flow_tracker.min_pressure == old(self).flow_tracker.min_pressure,
            tracker_after_events(
                old(self).flow_tracker.events@,
                final(self).flow_tracker.events@,
                old(self).flow_tracker.window_ms,
                bid_delta_events(old(self).bids@, bids@) + ask_delta_events(
                    old(self).asks@,
                    asks@,
                ),
                now,
            ),
    {
        let ghost t0 = self.flow_tracker.events@;
        let ghost win = self.flow_tracker.window_ms;
        let ghost cutoff = now as int - win as int;
        let ghost b0 = self.bids@;
        let ghost a0 = self.asks@;
        let ghost eb = bid_delta_events(b0, bids@);

        self.apply_side_deltas(&bids, now, true);
        let ghost t1 = self.flow_tracker.events@;
        self.apply_side_deltas(&asks, now, false);
        proof {
            let ea = ask_delta_events(a0, asks@);
            if ea.len() == 0 {
                assert(eb + ea =~= eb);
                if eb.len() == 0 {
                } else {
                    assert(self.flow_tracker.events@ =~= pruned(t0, cutoff) + stamped(
                        eb + ea,
                        now,
                    ));
                }
            } else {
                if eb.len() == 0 {
                    assert(eb + ea =~= ea);
                } else {
                    // the middle state is already pruned, so the second
                    // pruning vanishes
                    assert(t1 == pruned(t0, cutoff) + stamped(eb, now));
                    lemma_pruned_front(t0, cutoff);
                    if pruned(t0, cutoff).len() > 0 {
                        assert(t1[0] == pruned(t0, cutoff)[0]);
                    } else {
                        assert(t1[0] == stamped(eb, now)[0]);
                        assert(t1[0].0 == now);
                    }
                    lemma_pruned_fix(t1, cutoff);
                    assert(self.flow_tracker.events@ =~= pruned(t0, cutoff) + stamped(
                        eb + ea,
                        now,
                    ));
                }
            }
        }
        self.update_best_bid_ask();
    }

    /// Apply incremental deltas stamped with the wall clock, clamped so
    /// that event timestamps never move backwards.
    pub fn apply_deltas(&mut self, bids: Vec<(Dec, Dec)>, asks: Vec<(Dec, Dec)>)
        requires
            old(self).wf(),
            old(self).bids@.len() + bids@.len() <= LEN_LIMIT,
            old(self).asks@.len() + asks@.len() <= LEN_LIMIT,
            old(self).flow_tracker.events@.len() + bids@.len() + asks@.len() <= LEN_LIMIT,
        ensures
            final(self).wf(),
            final(self).bids@ == deltas_fold(old(self).bids@, bids@),
            final(self).asks@ == deltas_fold(old(self).asks@, asks@),
            final(self).flow_tracker.window_ms == old(self).flow_tracker.window_ms,
            final(self).flow_tracker.cancel_penalty == old(self).flow_tracker.cancel_penalty,
            final(self).flow_tracker.min_pressure == old(self).flow_tracker.min_pressure,
            exists|now: u64| #[trigger] tracker_after_events(
                old(self).flow_tracker.events@,
                final(self).flow_tracker.events@,
                old(self).flow_tracker.window_ms,
                bid_delta_events(old(self).bids@, bids@) + ask_delta_events(
                    old(self).asks@,
                    asks@,
                ),
                now,
            ),
    {
        let t = crate::clock::now_millis();
        let last = self.flow_tracker.last_time();
        let now = if t < last {
            last
        } else {
            t
        };
        proof {
            assert forall|i: int|
                0 <= i < self.flow_tracker.events@.len()
                    implies #[trigger] self.flow_tracker.events@[i].0 <= now by {
                if i < self.flow_tracker.events@.len() - 1 {
                    assert(self.flow_tracker.events@[i].0 <= self.flow_tracker.events@[
                        self.flow_tracker.events@.len() - 1].0);
                }
            }
        }
        let ghost t0 = self.flow_tracker.events@;
        let ghost b0 = self.bids@;
        let ghost a0 = self.asks@;
        self.apply_deltas_at(bids, asks, now);
        proof {
            assert(tracker_after_events(
                t0,
                self.flow_tracker.events@,
                self.flow_tracker.window_ms,
                bid_delta_events(b0, bids@) + ask_delta_events(a0, asks@),
                now,
            ));
        }
    }
}

/// Midpoint of the best bid and ask prices.
pub open spec fn spec_mid_price(bids: Seq<(Dec, Dec)>, asks: Seq<(Dec, Dec)>) -> Option<int> {
    if bids.len() > 0 && asks.len() > 0 {
        Some(dec_div(bids.last().0@ + asks[0].0@, 2 * SCALE_UNITS as int))
    } else {
        None
    }
}

/// Best ask price minus best bid price.
pub open spec fn spec_spread(bids: Seq<(Dec, Dec)>, asks: Seq<(Dec, Dec)>) -> Option<int> {
    if bids.len() > 0 && asks.len() > 0 {
        Some(asks[0].0@ - bids.last().0@)
    } else {
        None
    }
}

/// Best-bid quantity over total best-level quantity.
pub open spec fn spec_book_imbalance(bids: Seq<(Dec, Dec)>, asks: Seq<(Dec, Dec)>) -> Option<
    int,
> {
    if bids.len() > 0 && asks.len() > 0 {
        let bq = bids.last().1@;
        let aq = asks[0].1@;
        if bq + aq == 0 {
            None
        } else {
            Some(dec_div(bq, bq + aq))
        }
    } else {
        None
    }
}

/// The first `n` levels in ascending order (the asks' best-first order).
pub open spec fn take_n(s: Seq<(Dec, Dec)>, n: int) -> Seq<(Dec, Dec)> {
    if s.len() <= n {
        s
    } else {
        s.take(n)
    }
}

/// The first `n` levels in descending order (the bids' best-first
/// order).
pub open spec fn rev_take(s: Seq<(Dec, Dec)>, n: int) -> Seq<(Dec, Dec)> {
    Seq::new(
        if s.len() <= n {
            s.len()
        } else {
            n as nat
        },
        |i: int| s[s.len() - 1 - i],
    )
}

/// The top `n` levels in iteration order: from the high end for bids,
/// from the low end for asks.
pub open spec fn top_seq(s: Seq<(Dec, Dec)>, n: int, from_back: bool) -> Seq<(Dec, Dec)> {
    if from_back {
        rev_take(s, n)
    } else {
        take_n(s, n)
    }
}

/// Sum of quantities.
pub open spec fn sum_qty(s: Seq<(Dec, Dec)>) -> int
    decreases s.len(),
{
    if s.len() == 0 {
        0
    } else {
        sum_qty(s.drop_last()) + s.last().1@
    }
}

/// Sum of price-times-quantity terms.
pub open spec fn sum_pxq(s: Seq<(Dec, Dec)>) -> int
    decreases s.len(),
{
    if s.len() == 0 {
        0
    } else {
        sum_pxq(s.drop_last()) + dec_mul(s.last().0@, s.last().1@)
    }
}

/// Sum of quantities over the levels whose price passes the bound:
/// at least `bound` when `ge`, at most `bound` otherwise.
pub open spec fn sum_qty_filter(s: Seq<(Dec, Dec)>, bound: int, ge: bool) -> int
    decreases s.len(),
{
    if s.len() == 0 {
        0
    } else {
        sum_qty_filter(s.drop_last(), bound, ge) + if (ge && s.last().0@ >= bound) || (!ge
            && s.last().0@ <= bound) {
            s.last().1@
        } else {
            0
        }
    }
}

/// Sum of price-times-quantity terms over the levels whose price passes
/// the bound.
pub open spec fn sum_pxq_filter(s: Seq<(Dec, Dec)>, bound: int, ge: bool) -> int
    decreases s.len(),
{
    if s.len() == 0 {
        0
    } else {
        sum_pxq_filter(s.drop_last(), bound, ge) + if (ge && s.last().0@ >= bound) || (!ge
            && s.last().0@ <= bound) {
            dec_mul(s.last().0@, s.last().1@)
        } else {
            0
        }
    }
}

/// Sum of signed distances of prices from `m`: `price - m` when `above`,
/// `m - price` otherwise.
pub open spec fn sum_gap(s: Seq<(Dec, Dec)>, m: int, above: bool) -> int
    decreases s.len(),
{
    if s.len() == 0 {
        0
    } else {
        sum_gap(s.drop_last(), m, above) + if above {
            s.last().0@ - m
        } else {
            m - s.last().0@
        }
    }
}

/// Sum of quantity-weighted distances of prices from the anchor.
pub open spec fn sum_wgap(s: Seq<(Dec, Dec)>, anchor: int, above: bool) -> int
    decreases s.len(),
{
    if s.len() == 0 {
        0
    } else {
        sum_wgap(s.drop_last(), anchor, above) + dec_mul(
            if above {
                s.last().0@ - anchor
            } else {
                anchor - s.last().0@
            },
            s.last().1@,
        )
    }
}

/// Cumulative quantity walking bids best-inward (from the high end)
/// while the price stays at least `p`.
pub open spec fn cum_ge(s: Seq<(Dec, Dec)>, p: int) -> int
    decreases s.len(),
{
    if s.len() > 0 && s.last().0@ >= p {
        s.last().1@ + cum_ge(s.drop_last(), p)
    } else {
        0
    }
}

/// Cumulative quantity walking asks best-inward (from the low end)
/// while the price stays at most `p`.
pub open spec fn cum_le(s: Seq<(Dec, Dec)>, p: int) -> int
    decreases s.len(),
{
    if s.len() > 0 && s[0].0@ <= p {
        s[0].1@ + cum_le(s.skip(1), p)
    } else {
        0
    }
}

/// Price-weighted imbalance within a percent band around the mid price.
pub open spec fn spec_pwi(bids: Seq<(Dec, Dec)>, asks: Seq<(Dec, Dec)>, pct: int) -> Option<
    int,
> {
    match spec_mid_price(bids, asks) {
        None => None,
        Some(mid) => {
            let range = dec_div(dec_mul(mid, pct), 100 * SCALE_UNITS as int);
            let bw = sum_pxq_filter(bids, mid - range, true);
            let aw = sum_pxq_filter(asks, mid + range, false);
            if bw + aw > 0 {
                Some(dec_div(bw, bw + aw))
            } else {
                None
            }
        },
    }
}

/// Weighted average distance of the top levels from the side's own best
/// price; zero when the top levels carry no quantity.
pub open spec fn spec_side_slope(s: Seq<(Dec, Dec)>, levels: int, from_back: bool) -> int {
    let ts = top_seq(s, levels, from_back);
    let best = if from_back {
        s.last().0@
    } else {
        s[0].0@
    };
    let num = sum_wgap(ts, best, !from_back);
    let den = sum_qty(ts);
    if den > 0 {
        dec_div(num, den)
    } else {
        0
    }
}

/// Bid and ask slopes over the top `levels`, absent unless both bests
/// exist.
pub open spec fn spec_slope(bids: Seq<(Dec, Dec)>, asks: Seq<(Dec, Dec)>, levels: int) -> Option<
    (int, int),
> {
    if bids.len() > 0 && asks.len() > 0 {
        Some((spec_side_slope(bids, levels, true), spec_side_slope(asks, levels, false)))
    } else {
        None
    }
}

/// Top-five bid quantity over total top-five quantity.
pub open spec fn spec_volume_imbalance(bids: Seq<(Dec, Dec)>, asks: Seq<(Dec, Dec)>) -> Option<
    int,
> {
    let bq = sum_qty(rev_take(bids, 5));
    let aq = sum_qty(take_n(asks, 5));
    if bq + aq > 0 {
        Some(dec_div(bq, bq + aq))
    } else {
        None
    }
}

/// Per-side ratio of top-three to top-ten quantity, zero on an empty
/// denominator.
pub open spec fn spec_depth_ratio(bids: Seq<(Dec, Dec)>, asks: Seq<(Dec, Dec)>) -> (int, int) {
    let b3 = sum_qty(rev_take(bids, 3));
    let b10 = sum_qty(rev_take(bids, 10));
    let a3 = sum_qty(take_n(asks, 3));
    let a10 = sum_qty(take_n(asks, 10));
    (
        if b10 > 0 {
            dec_div(b3, b10)
        } else {
            0
        },
        if a10 > 0 {
            dec_div(a3, a10)
        } else {
            0
        },
    )
}

/// Per-side resting quantity within a percent band around the mid
/// price, absent unless both bests exist.
pub open spec fn spec_vol_range(bids: Seq<(Dec, Dec)>, asks: Seq<(Dec, Dec)>, pct: int) -> Option<
    (int, int),
> {
    match spec_mid_price(bids, asks) {
        None => None,
        Some(mid) => {
            let range = dec_div(dec_mul(mid, pct), 100 * SCALE_UNITS as int);
            Some(
                (sum_qty_filter(bids, mid - range, true), sum_qty_filter(asks, mid + range, false)),
            )
        },
    }
}

/// Mean signed distance of the top `levels` prices from the mid price,
/// per side, averaged over `levels` even when a side is shallower.
pub open spec fn spec_avg_dist(bids: Seq<(Dec, Dec)>, asks: Seq<(Dec, Dec)>, levels: int) -> Option<
    (int, int),
> {
    match spec_mid_price(bids, asks) {
        None => None,
        Some(mid) => Some(
            (
                dec_div(sum_gap(rev_take(bids, levels), mid, false), levels * SCALE_UNITS as int),
                dec_div(sum_gap(take_n(asks, levels), mid, true), levels * SCALE_UNITS as int),
            ),
        ),
    }
}

/// Sum the quantities of the top `k` levels of a side.
fn sum_top_qty(side: &BookSide, k: usize, from_back: bool) -> (r: Dec)
    requires
        side_wf(side@),
        side@.len() <= LEN_LIMIT,
    ensures
        r@ == sum_qty(top_seq(side@, k as int, from_back)),
        0 <= r@ <= (LEN_LIMIT as int) * (VAL_LIMIT_UNITS as int),
{
    let len = side.len();
    let m = if len < k {
        len
    } else {
        k
    };
    let ghost ts = top_seq(side@, k as int, from_back);
    let mut acc = Dec::zero();
    let mut i: usize = 0;
    while i < m
        invariant
            side_wf(side@),
            len == side@.len() <= LEN_LIMIT,
            m == if len < k {
                len as int
            } else {
                k as int
            },
            ts == top_seq(side@, k as int, from_back),
            ts.len() == m,
            0 <= i <= m,
            acc@ == sum_qty(ts.take(i as int)),
            0 <= acc@ <= (i as int) * (VAL_LIMIT_UNITS as int),
        decreases m - i,
    {
        let idx = if from_back {
            len - 1 - i
        } else {
            i
        };
        let level = side.level_at(idx);
        proof {
            assert(ts[i as int] == level);
            assert(ts.take(i as int + 1).drop_last() =~= ts.take(i as int));
            assert(ts.take(i as int + 1).last() == ts[i as int]);
        }
        acc = acc.plus(level.1);
        i += 1;
    }
    proof {
        assert(ts.take(m as int) =~= ts);
        assert((m as int) * (VAL_LIMIT_UNITS as int) <= (LEN_LIMIT as int) * (
        VAL_LIMIT_UNITS as int)) by (nonlinear_arith)
            requires
                0 <= m <= LEN_LIMIT,
        ;
    }
    acc
}

/// Sum quantity-weighted and plain quantities over the top `k` levels,
/// measuring each price's distance from `anchor`.
#[verifier::rlimit(30)]
fn sum_top_wgap(side: &BookSide, k: usize, from_back: bool, anchor: Dec, above: bool) -> (r: (
    Dec,
    Dec,
))
    requires
        side_wf(side@),
        side@.len() <= LEN_LIMIT,
        0 <= anchor@ <= VAL_LIMIT_UNITS as int,
    ensures
        r.0@ == sum_wgap(top_seq(side@, k as int, from_back), anchor@, above),
        r.1@ == sum_qty(top_seq(side@, k as int, from_back)),
        -(LEN_LIMIT as int) * (crate::dec::PQ_LIMIT_UNITS as int) <= r.0@ <= (LEN_LIMIT as int) * (
        crate::dec::PQ_LIMIT_UNITS as int),
        0 <= r.1@ <= (LEN_LIMIT as int) * (VAL_LIMIT_UNITS as int),
{
    let len = side.len();
    let m = if len < k {
        len
    } else {
        k
    };
    let ghost ts = top_seq(side@, k as int, from_back);
    let mut num = Dec::zero();
    let mut den = Dec::zero();
    let mut i: usize = 0;
    while i < m
        invariant
            side_wf(side@),
            len == side@.len() <= LEN_LIMIT,
            m == if len < k {
                len as int
            } else {
                k as int
            },
            0 <= anchor@ <= VAL_LIMIT_UNITS as int,
            ts == top_seq(side@, k as int, from_back),
            ts.len() == m,
            0 <= i <= m,
            num@ == sum_wgap(ts.take(i as int), anchor@, above),
            den@ == sum_qty(ts.take(i as int)),
            -(i as int) * (crate::dec::PQ_LIMIT_UNITS as int) <= num@ <= (i as int) * (
            crate::dec::PQ_LIMIT_UNITS as int),
            0 <= den@ <= (i as int) * (VAL_LIMIT_UNITS as int),
        decreases m - i,
    {
        let idx = if from_back {
            len - 1 - i
        } else {
            i
        };
        let level = side.level_at(idx);
        let dir = if above {
            level.0.minus(anchor)
        } else {
            anchor.minus(level.0)
        };
        proof {
            assert(ts[i as int] == level);
            assert(ts.take(i as int + 1).drop_last() =~= ts.take(i as int));
            assert(ts.take(i as int + 1).last() == ts[i as int]);
            crate::dec::lemma_dec_mul_abs_bounds(
                dir@,
                level.1@,
                VAL_LIMIT_UNITS as int,
                VAL_LIMIT_UNITS as int,
            );
        }
        num = num.plus(dir.times(level.1));
        den = den.plus(level.1);
        i += 1;
    }
    proof {
        assert(ts.take(m as int) =~= ts);
        assert((m as int) * (crate::dec::PQ_LIMIT_UNITS as int) <= (LEN_LIMIT as int) * (
        crate::dec::PQ_LIMIT_UNITS as int)) by (nonlinear_arith)
            requires
                0 <= m <= LEN_LIMIT,
        ;
        assert((m as int) * (VAL_LIMIT_UNITS as int) <= (LEN_LIMIT as int) * (
        VAL_LIMIT_UNITS as int)) by (nonlinear_arith)
            requires
                0 <= m <= LEN_LIMIT,
        ;
    }
    (num, den)
}

/// Sum the signed distances of the top `k` prices from `m`.
fn sum_top_gap(side: &BookSide, k: usize, from_back: bool, mid: Dec, above: bool) -> (r: Dec)
    requires
        side_wf(side@),
        side@.len() <= LEN_LIMIT,
        0 <= mid@ <= VAL_LIMIT_UNITS as int,
    ensures
        r@ == sum_gap(top_seq(side@, k as int, from_back), mid@, above),
        -(LEN_LIMIT as int) * (VAL_LIMIT_UNITS as int) <= r@ <= (LEN_LIMIT as int) * (
        VAL_LIMIT_UNITS as int),
{
    let len = side.len();
    let m = if len < k {
        len
    } else {
        k
    };
    let ghost ts = top_seq(side@, k as int, from_back);
    let mut acc = Dec::zero();
    let mut i: usize = 0;
    while i < m
        invariant
            side_wf(side@),
            len == side@.len() <= LEN_LIMIT,
            m == if len < k {
                len as int
            } else {
                k as int
            },
            0 <= mid@ <= VAL_LIMIT_UNITS as int,
            ts == top_seq(side@, k as int, from_back),
            ts.len() == m,
            0 <= i <= m,
            acc@ == sum_gap(ts.take(i as int), mid@, above),
            -(i as int) * (VAL_LIMIT_UNITS as int) <= acc@ <= (i as int) * (
            VAL_LIMIT_UNITS as int),
        decreases m - i,
    {
        let idx = if from_back {
            len - 1 - i
        } else {
            i
        };
        let level = side.level_at(idx);
        let dir = if above {
            level.0.minus(mid)
        } else {
            mid.minus(level.0)
        };
        proof {
            assert(ts[i as int] == level);
            assert(ts.take(i as int + 1).drop_last() =~= ts.take(i as int));
            assert(ts.take(i as int + 1).last() == ts[i as int]);
        }
        acc = acc.plus(dir);
        i += 1;
    }
    proof {
        assert(ts.take(m as int) =~= ts);
        assert((m as int) * (VAL_LIMIT_UNITS as int) <= (LEN_LIMIT as int) * (
        VAL_LIMIT_UNITS as int)) by (nonlinear_arith)
            requires
                0 <= m <= LEN_LIMIT,
        ;
    }
    acc
}

/// Sum quantities and price-times-quantity terms over the levels whose
/// price passes the bound.
fn sum_filtered(side: &BookSide, bound: Dec, ge: bool) -> (r: (Dec, Dec))
    requires
        side_wf(side@),
        side@.len() <= LEN_LIMIT,
    ensures
        r.0@ == sum_qty_filter(side@, bound@, ge),
        r.1@ == sum_pxq_filter(side@, bound@, ge),
        0 <= r.0@ <= (LEN_LIMIT as int) * (VAL_LIMIT_UNITS as int),
        0 <= r.1@ <= (LEN_LIMIT as int) * (crate::dec::PQ_LIMIT_UNITS as int),
{
    let len = side.len();
    let ghost s = side@;
    let mut qsum = Dec::zero();
    let mut wsum = Dec::zero();
    let mut i: usize = 0;
    while i < len
        invariant
            side_wf(s),
            s == side@,
            len == s.len() <= LEN_LIMIT,
            0 <= i <= len,
            qsum@ == sum_qty_filter(s.take(i as int), bound@, ge),
            wsum@ == sum_pxq_filter(s.take(i as int), bound@, ge),
            0 <= qsum@ <= (i as int) * (VAL_LIMIT_UNITS as int),
            0 <= wsum@ <= (i as int) * (crate::dec::PQ_LIMIT_UNITS as int),
        decreases len - i,
    {
        let level = side.level_at(i);
        proof {
            assert(s.take(i as int + 1).drop_last() =~= s.take(i as int));
            assert(s.take(i as int + 1).last() == s[i as int]);
        }
        let hit = if ge {
            !level.0.lt(bound)
        } else {
            level.0.le(bound)
        };
        if hit {
            proof {
                crate::dec::lemma_dec_mul_val_bounds(level.0@, level.1@);
            }
            qsum = qsum.plus(level.1);
            wsum = wsum.plus(level.0.times(level.1));
        }
        i += 1;
    }
    proof {
        assert(s.take(len as int) =~= s);
        assert((len as int) * (VAL_LIMIT_UNITS as int) <= (LEN_LIMIT as int) * (
        VAL_LIMIT_UNITS as int)) by (nonlinear_arith)
            requires
                0 <= len <= LEN_LIMIT,
        ;
        assert((len as int) * (crate::dec::PQ_LIMIT_UNITS as int) <= (LEN_LIMIT as int) * (
        crate::dec::PQ_LIMIT_UNITS as int)) by (nonlinear_arith)
            requires
                0 <= len <= LEN_LIMIT,
        ;
    }
    (qsum, wsum)
}

impl OrderBook {
    /// The top `n` bids, best (highest price) first.
    pub fn top_bids(&self, n: usize) -> (r: Vec<(Dec, Dec)>)
        ensures
            r@ == rev_take(self.bids@, n as int),
    {
        let len = self.bids.len();
        let m = if len < n {
            len
        } else {
            n
        };
        let mut out: Vec<(Dec, Dec)> = Vec::new();
        let mut i: usize = 0;
        while i < m
            invariant
                len == self.bids@.len(),
                m == if len < n {
                    len as int
                } else {
                    n as int
                },
                0 <= i <= m,
                out@.len() == i,
                forall|j: int| 0 <= j < i ==> #[trigger] out@[j] == self.bids@[len - 1 - j],
            decreases m - i,
        {
            out.push(self.bids.level_at(len - 1 - i));
            i += 1;
        }
        proof {
            assert(out@ =~= rev_take(self.bids@, n as int));
        }
        out
    }

    /// The top `n` asks, best (lowest price) first.
    pub fn top_asks(&self, n: usize) -> (r: Vec<(Dec, Dec)>)
        ensures
            r@ == take_n(self.asks@, n as int),
    {
        let len = self.asks.len();
        let m = if len < n {
            len
        } else {
            n
        };
        let mut out: Vec<(Dec, Dec)> = Vec::new();
        let mut i: usize = 0;
        while i < m
            invariant
                len == self.asks@.len(),
                m == if len < n {
                    len as int
                } else {
                    n as int
                },
                0 <= i <= m,
                out@.len() == i,
                forall|j: int| 0 <= j < i ==> #[trigger] out@[j] == self.asks@[j],
            decreases m - i,
        {
            out.push(self.asks.level_at(i));
            i += 1;
        }
        proof {
            assert(out@ =~= take_n(self.asks@, n as int));
        }
        out
    }

    /// Cumulative quantity from the best level inward while the price
    /// stays at least `price` (bids) or at most `price` (asks).
    pub fn cumulative_volume_up_to(&self, price: Dec, is_bid: bool) -> (r: Dec)
        requires
            self.wf(),
        ensures
            is_bid ==> r@ == cum_ge(self.bids@, price@),
            !is_bid ==> r@ == cum_le(self.asks@, price@),
    {
        if is_bid {
            let ghost s = self.bids@;
            let len = self.bids.len();
            let mut acc = Dec::zero();
            proof {
                assert(s.take(len as int) =~= s);
            }
            let mut i: usize = len;
            while i > 0 && !self.bids.level_at(i - 1).0.lt(price)
                invariant
                    self.wf(),
                    s == self.bids@,
                    len == s.len(),
                    0 <= i <= len,
                    cum_ge(s, price@) == acc@ + cum_ge(s.take(i as int), price@),
                    0 <= acc@ <= (len - i) * (VAL_LIMIT_UNITS as int),
                decreases i,
            {
                let level = self.bids.level_at(i - 1);
                proof {
                    assert(s.take(i as int).last() == s[i as int - 1]);
                    assert(s.take(i as int).drop_last() =~= s.take(i as int - 1));
                }
                acc = acc.plus(level.1);
                i -= 1;
            }
            proof {
                if i > 0 {
                    assert(s.take(i as int).last() == s[i as int - 1]);
                }
                assert(cum_ge(s.take(i as int), price@) == 0);
            }
            acc
        } else {
            let ghost s = self.asks@;
            let len = self.asks.len();
            let mut acc = Dec::zero();
            proof {
                assert(s.skip(0) =~= s);
            }
            let mut i: usize = 0;
            while i < len && self.asks.level_at(i).0.le(price)
                invariant
                    self.wf(),
                    s == self.asks@,
                    len == s.len(),
                    0 <= i <= len,
                    cum_le(s, price@) == acc@ + cum_le(s.skip(i as int), price@),
                    0 <= acc@ <= (i as int) * (VAL_LIMIT_UNITS as int),
                decreases len - i,
            {
                let level = self.asks.level_at(i);
                proof {
                    assert(s.skip(i as int)[0] == s[i as int]);
                    assert(s.skip(i as int).skip(1) =~= s.skip(i as int + 1));
                }
                acc = acc.plus(level.1);
                i += 1;
            }
            proof {
                if i < len {
                    assert(s.skip(i as int)[0] == s[i as int]);
                } else {
                    assert(s.skip(i as int).len() == 0);
                }
                assert(cum_le(s.skip(i as int), price@) == 0);
            }
            acc
        }
    }

    /// The mid price and the band edges for a percent band, when both
    /// bests exist.
    fn band_edges(&self, percent: Dec) -> (r: Option<(Dec, Dec, Dec)>)
        requires
            self.wf(),
            0 <= percent@ <= VAL_LIMIT_UNITS as int,
        ensures
            r.is_some() == (self.bids@.len() > 0 && self.asks@.len() > 0),
            r.is_some() ==> {
                let mid = spec_mid_price(self.bids@, self.asks@)->Some_0;
                let range = dec_div(dec_mul(mid, percent@), 100 * SCALE_UNITS as int);
                &&& r->Some_0.0@ == mid
                &&& r->Some_0.1@ == mid - range
                &&& r->Some_0.2@ == mid + range
                &&& 0 <= mid <= VAL_LIMIT_UNITS as int
            },
    {
        let (bid, ask) = match (self.best_bid, self.best_ask) {
            (Some(b), Some(a)) => (b, a),
            _ => {
                return None;
            },
        };
        proof {
            assert(self.bids@.last() == self.bids@[self.bids@.len() - 1]);
            crate::dec::lemma_dec_div_bounds(
                bid@ + ask@,
                2 * SCALE_UNITS as int,
                2 * VAL_LIMIT_UNITS as int,
                2 * SCALE_UNITS as int,
            );
        }
        let mid = bid.plus(ask).divide(Dec::from_int(2));
        proof {
            crate::dec::lemma_dec_mul_bounds(
                mid@,
                percent@,
                VAL_LIMIT_UNITS as int,
                VAL_LIMIT_UNITS as int,
            );
            crate::dec::lemma_dec_div_bounds(
                dec_mul(mid@, percent@),
                100 * SCALE_UNITS as int,
                crate::dec::PQ_LIMIT_UNITS as int,
                100 * SCALE_UNITS as int,
            );
        }
        let range = mid.times(percent).divide(Dec::from_int(100));
        Some((mid, mid.minus(range), mid.plus(range)))
    }

    /// Price-weighted imbalance within a percent band around the mid
    /// price: bid-side weighted notional over total weighted notional.
    pub fn price_weighted_imbalance_percent(&self, percent: Dec) -> (r: Option<Dec>)
        requires
            self.wf(),
            0 <= percent@ <= VAL_LIMIT_UNITS as int,
        ensures
            crate::dec::opt_units(r) == spec_pwi(self.bids@, self.asks@, percent@),
    {
        let (_, lower, upper) = match self.band_edges(percent) {
            Some(t) => t,
            None => {
                return None;
            },
        };
        let (_, bw) = sum_filtered(&self.bids, lower, true);
        let (_, aw) = sum_filtered(&self.asks, upper, false);
        let total = bw.plus(aw);
        if Dec::zero().lt(total) {
            Some(bw.divide(total))
        } else {
            None
        }
    }

    /// Per-side weighted average price distance from the best level over
    /// the top `levels`; a side with no quantity there has slope zero.
    pub fn slope(&self, levels: usize) -> (r: Option<(Dec, Dec)>)
        requires
            self.wf(),
        ensures
            r.is_some() == spec_slope(self.bids@, self.asks@, levels as int).is_some(),
            r.is_some() ==> {
                let s = spec_slope(self.bids@, self.asks@, levels as int)->Some_0;
                r->Some_0.0@ == s.0 && r->Some_0.1@ == s.1
            },
    {
        let (bid, ask) = match (self.best_bid, self.best_ask) {
            (Some(b), Some(a)) => (b, a),
            _ => {
                return None;
            },
        };
        proof {
            assert(self.bids@.last() == self.bids@[self.bids@.len() - 1]);
        }
        let (bnum, bden) = sum_top_wgap(&self.bids, levels, true, bid, false);
        let bid_slope = if Dec::zero().lt(bden) {
            bnum.divide(bden)
        } else {
            Dec::zero()
        };
        let (anum, aden) = sum_top_wgap(&self.asks, levels, false, ask, true);
        let ask_slope = if Dec::zero().lt(aden) {
            anum.divide(aden)
        } else {
            Dec::zero()
        };
        Some((bid_slope, ask_slope))
    }

    /// Top-five bid quantity over total top-five quantity.
    pub fn volume_imbalance(&self) -> (r: Option<Dec>)
        requires
            self.wf(),
        ensures
            crate::dec::opt_units(r) == spec_volume_imbalance(self.bids@, self.asks@),
    {
        let bq = sum_top_qty(&self.bids, 5, true);
        let aq = sum_top_qty(&self.asks, 5, false);
        let total = bq.plus(aq);
        if Dec::zero().lt(total) {
            Some(bq.divide(total))
        } else {
            None
        }
    }

    /// Per-side ratio of top-three to top-ten resting quantity.
    pub fn depth_ratio(&self) -> (r: Option<(Dec, Dec)>)
        requires
            self.wf(),
        ensures
            r.is_some(),
            r->Some_0.0@ == spec_depth_ratio(self.bids@, self.asks@).0,
            r->Some_0.1@ == spec_depth_ratio(self.bids@, self.asks@).1,
    {
        let b3 = sum_top_qty(&self.bids, 3, true);
        let b10 = sum_top_qty(&self.bids, 10, true);
        let a3 = sum_top_qty(&self.asks, 3, false);
        let a10 = sum_top_qty(&self.asks, 10, false);
        let bid_ratio = if Dec::zero().lt(b10) {
            b3.divide(b10)
        } else {
            Dec::zero()
        };
        let ask_ratio = if Dec::zero().lt(a10) {
            a3.divide(a10)
        } else {
            Dec::zero()
        };
        Some((bid_ratio, ask_ratio))
    }

    /// Per-side resting quantity within a percent band around the mid
    /// price.
    pub fn volume_within_percent_range(&self, percent: Dec) -> (r: Option<(Dec, Dec)>)
        requires
            self.wf(),
            0 <= percent@ <= VAL_LIMIT_UNITS as int,
        ensures
            r.is_some() == spec_vol_range(self.bids@, self.asks@, percent@).is_some(),
            r.is_some() ==> {
                let t = spec_vol_range(self.bids@, self.asks@, percent@)->Some_0;
                r->Some_0.0@ == t.0 && r->Some_0.1@ == t.1
            },
    {
        let (_, lower, upper) = match self.band_edges(percent) {
            Some(t) => t,
            None => {
                return None;
            },
        };
        let (bv, _) = sum_filtered(&self.bids, lower, true);
        let (av, _) = sum_filtered(&self.asks, upper, false);
        Some((bv, av))
    }

    /// Mean signed distance of the top `levels` prices from the mid
    /// price, per side; the mean is over `levels` even when a side is
    /// shallower.
    pub fn avg_price_distance(&self, levels: usize) -> (r: Option<(Dec, Dec)>)
        requires
            self.wf(),
            1 <= levels <= LEN_LIMIT,
        ensures
            r.is_some() == spec_avg_dist(self.bids@, self.asks@, levels as int).is_some(),
            r.is_some() ==> {
                let t = spec_avg_dist(self.bids@, self.asks@, levels as int)->Some_0;
                r->Some_0.0@ == t.0 && r->Some_0.1@ == t.1
            },
    {
        let (mid, _, _) = match self.band_edges(Dec::zero()) {
            Some(t) => t,
            None => {
                return None;
            },
        };
        let bd = sum_top_gap(&self.bids, levels, true, mid, false);
        let ad = sum_top_gap(&self.asks, levels, false, mid, true);
        let div = Dec::from_int(levels as i64);
        Some((bd.divide(div), ad.divide(div)))
    }

    /// A consistent projection of every book feature plus the flow
    /// tracker's reading, as seen at `now`.
    pub fn get_snapshot_at(&self, now: u64) -> (r: OrderBookSnapshot)
        requires
            self.wf(),
        ensures
            r.best_bid == spec_best_of(self.bids@, true),
            r.best_ask == spec_best_of(self.asks@, false),
            crate::dec::opt_units(r.mid_price) == spec_mid_price(self.bids@, self.asks@),
            crate::dec::opt_units(r.spread) == spec_spread(self.bids@, self.asks@),
            crate::dec::opt_units(r.imbalance) == spec_book_imbalance(self.bids@, self.asks@),
            r.top_bids@ == rev_take(self.bids@, 5),
            r.top_asks@ == take_n(self.asks@, 5),
            crate::dec::opt_units(r.pwi_1) == spec_pwi(
                self.bids@,
                self.asks@,
                1 * SCALE_UNITS as int,
            ),
            crate::dec::opt_units(r.pwi_5) == spec_pwi(
                self.bids@,
                self.asks@,
                5 * SCALE_UNITS as int,
            ),
            crate::dec::opt_units(r.pwi_25) == spec_pwi(
                self.bids@,
                self.asks@,
                25 * SCALE_UNITS as int,
            ),
            crate::dec::opt_units(r.pwi_50) == spec_pwi(
                self.bids@,
                self.asks@,
                50 * SCALE_UNITS as int,
            ),
            crate::dec::opt_units(r.bid_slope) == (match spec_slope(self.bids@, self.asks@, 5) {
                Option::None => Option::<int>::None,
                Option::Some(t) => Option::Some(t.0),
            }),
            crate::dec::opt_units(r.ask_slope) == (match spec_slope(self.bids@, self.asks@, 5) {
                Option::None => Option::<int>::None,
                Option::Some(t) => Option::Some(t.1),
            }),
            crate::dec::opt_units(r.volume_imbalance_top5) == spec_volume_imbalance(
                self.bids@,
                self.asks@,
            ),
            crate::dec::opt_units(r.bid_depth_ratio) == Option::Some(
                spec_depth_ratio(self.bids@, self.asks@).0,
            ),
            crate::dec::opt_units(r.ask_depth_ratio) == Option::Some(
                spec_depth_ratio(self.bids@, self.asks@).1,
            ),
            crate::dec::opt_units(r.bid_volume_001) == (match spec_vol_range(
                self.bids@,
                self.asks@,
                10_000_000,
            ) {
                Option::None => Option::<int>::None,
                Option::Some(t) => Option::Some(t.0),
            }),
            crate::dec::opt_units(r.ask_volume_001) == (match spec_vol_range(
                self.bids@,
                self.asks@,
                10_000_000,
            ) {
                Option::None => Option::<int>::None,
                Option::Some(t) => Option::Some(t.1),
            }),
            crate::dec::opt_units(r.bid_avg_distance) == (match spec_avg_dist(
                self.bids@,
                self.asks@,
                5,
            ) {
                Option::None => Option::<int>::None,
                Option::Some(t) => Option::Some(t.0),
            }),
            crate::dec::opt_units(r.ask_avg_distance) == (match spec_avg_dist(
                self.bids@,
                self.asks@,
                5,
            ) {
                Option::None => Option::<int>::None,
                Option::Some(t) => Option::Some(t.1),
            }),
            crate::flow::imbalance_reading(
                self.flow_tracker.events@,
                self.flow_tracker.window_ms,
                self.flow_tracker.cancel_penalty@,
                self.flow_tracker.min_pressure@,
                (r.order_flow_imbalance, r.order_flow_pressure),
                now,
            ),
    {
        let (flow_imbalance, flow_pressure) = self.flow_tracker.imbalance_at(now);
        let slope5 = self.slope(5);
        let depth = self.depth_ratio();
        let vol001 = self.volume_within_percent_range(Dec::from_units(10_000_000));
        let dist5 = self.avg_price_distance(5);
        OrderBookSnapshot {
            best_bid: self.best_bid(),
            best_ask: self.best_ask(),
            mid_price: self.mid_price(),
            spread: self.spread(),
            imbalance: self.order_book_imbalance(),
            top_bids: self.top_bids(5),
            top_asks: self.top_asks(5),
            pwi_1: self.price_weighted_imbalance_percent(Dec::from_int(1)),
            pwi_5: self.price_weighted_imbalance_percent(Dec::from_int(5)),
            pwi_25: self.price_weighted_imbalance_percent(Dec::from_int(25)),
            pwi_50: self.price_weighted_imbalance_percent(Dec::from_int(50)),
            bid_slope: match slope5 {
                Some(t) => Some(t.0),
                None => None,
            },
            ask_slope: match slope5 {
                Some(t) => Some(t.1),
                None => None,
            },
            volume_imbalance_top5: self.volume_imbalance(),
            bid_depth_ratio: match depth {
                Some(t) => Some(t.0),
                None => None,
            },
            ask_depth_ratio: match depth {
                Some(t) => Some(t.1),
                None => None,
            },
            bid_volume_001: match vol001 {
                Some(t) => Some(t.0),
                None => None,
            },
            ask_volume_001: match vol001 {
                Some(t) => Some(t.1),
                None => None,
            },
            bid_avg_distance: match dist5 {
                Some(t) => Some(t.0),
                None => None,
            },
            ask_avg_distance: match dist5 {
                Some(t) => Some(t.1),
                None => None,
            },
            order_flow_imbalance: flow_imbalance,
            order_flow_pressure: flow_pressure,
        }
    }

    /// A consistent projection of every book feature, with the flow
    /// reading taken on the wall clock.
    pub fn get_snapshot(&self) -> (r: OrderBookSnapshot)
        requires
            self.wf(),
        ensures
            r.best_bid == spec_best_of(self.bids@, true),
            r.best_ask == spec_best_of(self.asks@, false),
            crate::dec::opt_units(r.mid_price) == spec_mid_price(self.bids@, self.asks@),
            crate::dec::opt_units(r.spread) == spec_spread(self.bids@, self.asks@),
            crate::dec::opt_units(r.imbalance) == spec_book_imbalance(self.bids@, self.asks@),
            r.top_bids@ == rev_take(self.bids@, 5),
            r.top_asks@ == take_n(self.asks@, 5),
            crate::dec::opt_units(r.pwi_1) == spec_pwi(
                self.bids@,
                self.asks@,
                1 * SCALE_UNITS as int,
            ),
            crate::dec::opt_units(r.pwi_5) == spec_pwi(
                self.bids@,
                self.asks@,
                5 * SCALE_UNITS as int,
            ),
            crate::dec::opt_units(r.pwi_25) == spec_pwi(
                self.bids@,
                self.asks@,
                25 * SCALE_UNITS as int,
            ),
            crate::dec::opt_units(r.pwi_50) == spec_pwi(
                self.bids@,
                self.asks@,
                50 * SCALE_UNITS as int,
            ),
            crate::dec::opt_units(r.bid_slope) == (match spec_slope(self.bids@, self.asks@, 5) {
                Option::None => Option::<int>::None,
                Option::Some(t) => Option::Some(t.0),
            }),
            crate::dec::opt_units(r.ask_slope) == (match spec_slope(self.bids@, self.asks@, 5) {
                Option::None => Option::<int>::None,
                Option::Some(t) => Option::Some(t.1),
            }),
            crate::dec::opt_units(r.volume_imbalance_top5) == spec_volume_imbalance(
                self.bids@,
                self.asks@,
            ),
            crate::dec::opt_units(r.bid_depth_ratio) == Option::Some(
                spec_depth_ratio(self.bids@, self.asks@).0,
            ),
            crate::dec::opt_units(r.ask_depth_ratio) == Option::Some(
                spec_depth_ratio(self.bids@, self.asks@).1,
            ),
            crate::dec::opt_units(r.bid_volume_001) == (match spec_vol_range(
                self.bids@,
                self.asks@,
                10_000_000,
            ) {
                Option::None => Option::<int>::None,
                Option::Some(t) => Option::Some(t.0),
            }),
            crate::dec::opt_units(r.ask_volume_001) == (match spec_vol_range(
                self.bids@,
                self.asks@,
                10_000_000,
            ) {
                Option::None => Option::<int>::None,
                Option::Some(t) => Option::Some(t.1),
            }),
            crate::dec::opt_units(r.bid_avg_distance) == (match spec_avg_dist(
                self.bids@,
                self.asks@,
                5,
            ) {
                Option::None => Option::<int>::None,
                Option::Some(t) => Option::Some(t.0),
            }),
            crate::dec::opt_units(r.ask_avg_distance) == (match spec_avg_dist(
                self.bids@,
                self.asks@,
                5,
            ) {
                Option::None => Option::<int>::None,
                Option::Some(t) => Option::Some(t.1),
            }),
            exists|now: u64| #[trigger] crate::flow::imbalance_reading(
                self.flow_tracker.events@,
                self.flow_tracker.window_ms,
                self.flow_tracker.cancel_penalty@,
                self.flow_tracker.min_pressure@,
                (r.order_flow_imbalance, r.order_flow_pressure),
                now,
            ),
    {
        let now = crate::clock::now_millis();
        let r = self.get_snapshot_at(now);
        proof {
            assert(crate::flow::imbalance_reading(
                self.flow_tracker.events@,
                self.flow_tracker.window_ms,
                self.flow_tracker.cancel_penalty@,
                self.flow_tracker.min_pressure@,
                (r.order_flow_imbalance, r.order_flow_pressure),
                now,
            ));
        }
        r
    }
}

} // verus!
