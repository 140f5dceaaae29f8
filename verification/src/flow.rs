//! Rolling order-flow tracker.
//!
//! A time-ordered queue of add/cancel events. Each event's contribution to
//! the pressure score decays linearly with age over a fixed window; cancels
//! subtract a fixed penalty instead of a quantity. The imbalance is the
//! normalised difference of bid and ask pressure, reported only when the
//! total pressure reaches a threshold.

use std::collections::VecDeque;
use vstd::prelude::*;

use crate::dec::{
    dec_div, dec_mul, Dec, LEN_LIMIT, SCALE_UNITS, VAL_LIMIT_UNITS,
};

verus! {

/// Longest admissible window, in milliseconds.
pub const WINDOW_MS_LIMIT: u64 = 1_000_000_000_000;

/// Largest admissible window, in seconds.
pub const WINDOW_SECS_LIMIT: u64 = 1_000_000_000;

/// An order-flow event: a resting order placed on a side (with its
/// quantity) or a cancellation on a side.
#[derive(Clone, Copy, PartialEq, Eq, Structural, Debug)]
pub enum FlowEvent {
    BidOrder(Dec),
    AskOrder(Dec),
    BidCancel,
    AskCancel,
}

/// Order quantities carried by an event are nonnegative and in range.
pub open spec fn flow_event_valid(e: FlowEvent) -> bool {
    match e {
        FlowEvent::BidOrder(q) => 0 <= q@ <= VAL_LIMIT_UNITS as int,
        FlowEvent::AskOrder(q) => 0 <= q@ <= VAL_LIMIT_UNITS as int,
        FlowEvent::BidCancel => true,
        FlowEvent::AskCancel => true,
    }
}

/// Timestamps never decrease along the queue and every event is valid.
pub open spec fn events_wf(s: Seq<(u64, FlowEvent)>) -> bool {
    &&& forall|i: int, j: int| 0 <= i < j < s.len() ==> s[i].0 <= s[j].0
    &&& forall|i: int| 0 <= i < s.len() ==> flow_event_valid(#[trigger] s[i].1)
}

/// The age weight of an event observed at `t` from `now`, in units:
/// one at age zero, decaying linearly to zero at age `window` and beyond.
pub open spec fn weight_units(t: int, now: int, window: int) -> int {
    let age = now - t;
    if age >= window {
        0
    } else if age <= 0 {
        SCALE_UNITS as int
    } else {
        (SCALE_UNITS as int * (window - age)) / window
    }
}

/// What one event adds to the bid pressure: its weighted quantity for a
/// bid order, minus the weighted cancel penalty for a bid cancel.
pub open spec fn event_bid_term(e: FlowEvent, w: int, penalty: int) -> int {
    match e {
        FlowEvent::BidOrder(q) => dec_mul(q@, w),
        FlowEvent::BidCancel => -dec_mul(penalty, w),
        _ => 0,
    }
}

/// What one event adds to the ask pressure.
pub open spec fn event_ask_term(e: FlowEvent, w: int, penalty: int) -> int {
    match e {
        FlowEvent::AskOrder(q) => dec_mul(q@, w),
        FlowEvent::AskCancel => -dec_mul(penalty, w),
        _ => 0,
    }
}

/// Total bid pressure of the queue as seen at `now`.
pub open spec fn bid_pressure(
    s: Seq<(u64, FlowEvent)>,
    now: int,
    window: int,
    penalty: int,
) -> int
    decreases s.len(),
{
    if s.len() == 0 {
        0
    } else {
        bid_pressure(s.drop_last(), now, window, penalty) + event_bid_term(
            s.last().1,
            weight_units(s.last().0 as int, now, window),
            penalty,
        )
    }
}

/// Total ask pressure of the queue as seen at `now`.
pub open spec fn ask_pressure(
    s: Seq<(u64, FlowEvent)>,
    now: int,
    window: int,
    penalty: int,
) -> int
    decreases s.len(),
{
    if s.len() == 0 {
        0
    } else {
        ask_pressure(s.drop_last(), now, window, penalty) + event_ask_term(
            s.last().1,
            weight_units(s.last().0 as int, now, window),
            penalty,
        )
    }
}

/// The queue with every event older than the cutoff dropped from the
/// front.
pub open spec fn pruned(s: Seq<(u64, FlowEvent)>, cutoff: int) -> Seq<(u64, FlowEvent)>
    decreases s.len(),
{
    if s.len() > 0 && (s[0].0 as int) < cutoff {
        pruned(s.skip(1), cutoff)
    } else {
        s
    }
}

/// Sortedness, validity and a common upper time bound survive dropping
/// the front event.
proof fn lemma_events_wf_skip(s: Seq<(u64, FlowEvent)>, bound: u64)
    requires
        events_wf(s),
        forall|i: int| 0 <= i < s.len() ==> #[trigger] s[i].0 <= bound,
        s.len() > 0,
    ensures
        events_wf(s.skip(1)),
        forall|i: int| 0 <= i < s.skip(1).len() ==> #[trigger] s.skip(1)[i].0 <= bound,
{
    assert(forall|i: int| 0 <= i < s.skip(1).len() ==> #[trigger] s.skip(1)[i] == s[i + 1]);
}

/// What `add_event` guarantees for the instant `now` at which the event
/// was recorded: every resident event was at least as old, and the new
/// queue is the old one pruned at `now` with the stamped event appended.
pub open spec fn add_event_post(
    pre: Seq<(u64, FlowEvent)>,
    post: Seq<(u64, FlowEvent)>,
    window_ms: u64,
    event: FlowEvent,
    now: u64,
) -> bool {
    &&& forall|i: int| 0 <= i < pre.len() ==> #[trigger] pre[i].0 <= now
    &&& post == pruned(pre, now as int - window_ms as int).push((now, event))
}

/// What an `(imbalance, pressure)` reading means when taken at `now`:
/// the pressure is the summed decayed pressure of both sides, and the
/// imbalance is present exactly when the pressure reaches the threshold.
pub open spec fn imbalance_reading(
    events: Seq<(u64, FlowEvent)>,
    window_ms: u64,
    penalty: int,
    min_pressure: int,
    r: (Option<Dec>, Dec),
    now: u64,
) -> bool {
    let bp = bid_pressure(events, now as int, window_ms as int, penalty);
    let ap = ask_pressure(events, now as int, window_ms as int, penalty);
    &&& r.1@ == bp + ap
    &&& (r.0.is_some() <==> r.1@ >= min_pressure)
    &&& (r.0.is_some() ==> r.0->Some_0@ == dec_div(bp - ap, r.1@))
}

/// Linear decay of one event's pressure contribution: an event at or
/// beyond the window contributes nothing; one of age zero contributes
/// its full quantity; one of age half the (even) window contributes half
/// its quantity to within one unit.
pub proof fn lemma_flow_event_decay(q: int, t: int, now: int, window: int)
    requires
        0 <= q,
        1 <= window,
        t <= now,
    ensures
        now - t >= window ==> dec_mul(q, weight_units(t, now, window)) == 0,
        t == now ==> dec_mul(q, weight_units(t, now, window)) == q,
        (window % 2 == 0 && now - t == window / 2) ==> q - 1 <= 2 * dec_mul(
            q,
            weight_units(t, now, window),
        ) <= q,
{
    let s = SCALE_UNITS as int;
    let age = now - t;
    if age >= window {
        assert(dec_mul(q, 0) == 0) by {
            vstd::arithmetic::mul::lemma_mul_by_zero_is_zero(q);
            vstd::arithmetic::div_mod::lemma_div_basics(s);
        }
    }
    if t == now {
        assert(dec_mul(q, s) == q) by {
            vstd::arithmetic::mul::lemma_mul_is_commutative(q, s);
            vstd::arithmetic::div_mod::lemma_div_multiples_vanish(q, s);
        }
    }
    if window % 2 == 0 && age == window / 2 && age > 0 {
        let k = window / 2;
        assert(window == 2 * k) by {
            vstd::arithmetic::div_mod::lemma_fundamental_div_mod(window, 2);
        }
        assert(weight_units(t, now, window) == s / 2) by {
            vstd::arithmetic::div_mod::lemma_div_multiples_vanish_quotient(k, s, 2);
            assert(s * (window - age) == k * s) by {
                vstd::arithmetic::mul::lemma_mul_is_commutative(s, k);
            }
            assert(k * 2 == 2 * k) by {
                vstd::arithmetic::mul::lemma_mul_is_commutative(k, 2);
            }
        }
        assert(dec_mul(q, s / 2) == q / 2) by {
            vstd::arithmetic::mul::lemma_mul_nonnegative(q, s / 2);
            vstd::arithmetic::div_mod::lemma_div_multiples_vanish_quotient(s / 2, q, 2);
            assert(q * (s / 2) == (s / 2) * q) by {
                vstd::arithmetic::mul::lemma_mul_is_commutative(q, s / 2);
            }
            assert((s / 2) * 2 == s) by {
                vstd::arithmetic::mul::lemma_mul_is_commutative(s / 2, 2);
            }
        }
        assert(q - 1 <= 2 * (q / 2) <= q) by {
            vstd::arithmetic::div_mod::lemma_fundamental_div_mod(q, 2);
        }
    }
}

/// Rolling record of recent order-flow events with its decay window and
/// scoring parameters.
pub struct RollingFlowTracker {
    pub events: VecDeque<(u64, FlowEvent)>,
    pub window_ms: u64,
    pub cancel_penalty: Dec,
    pub min_pressure: Dec,
}

impl RollingFlowTracker {
    /// The tracker's structural invariant.
    pub open spec fn wf(&self) -> bool {
        &&& events_wf(self.events@)
        &&& self.events@.len() <= LEN_LIMIT as int
        &&& 1 <= self.window_ms <= WINDOW_MS_LIMIT
        &&& 0 <= self.cancel_penalty@ <= VAL_LIMIT_UNITS as int
        &&& 0 < self.min_pressure@ <= VAL_LIMIT_UNITS as int
    }

    /// An empty tracker over a window of `window_secs` seconds, with the
    /// default cancel penalty 0.35 and pressure threshold 2.5.
    pub fn new(window_secs: u64) -> (r: RollingFlowTracker)
        requires
            1 <= window_secs <= WINDOW_SECS_LIMIT,
        ensures
            r.wf(),
            r.events@ == Seq::<(u64, FlowEvent)>::empty(),
            r.window_ms == window_secs * 1000,
            r.cancel_penalty@ == 350_000_000int,
            r.min_pressure@ == 2_500_000_000int,
    {
        RollingFlowTracker {
            events: VecDeque::with_capacity(2000),
            window_ms: window_secs * 1000,
            cancel_penalty: Dec::from_units(350_000_000),
            min_pressure: Dec::from_units(2_500_000_000),
        }
    }

    /// Timestamp of the newest resident event, zero when there is none.
    pub fn last_time(&self) -> (r: u64)
        ensures
            self.events@.len() == 0 ==> r == 0,
            self.events@.len() > 0 ==> r == self.events@.last().0,
    {
        let n = self.events.len();
        if n == 0 {
            0
        } else {
            self.events[n - 1].0
        }
    }

    /// Number of resident events.
    pub fn events_len(&self) -> (r: usize)
        ensures
            r == self.events@.len(),
    {
        self.events.len()
    }

    /// Record an event observed at `now`, after evicting every event
    /// older than the window.
    pub fn add_event_at(&mut self, now: u64, event: FlowEvent)
        requires
            old(self).wf(),
            flow_event_valid(event),
            old(self).events@.len() < LEN_LIMIT,
            forall|i: int| 0 <= i < old(self).events@.len() ==> #[trigger] old(
                self,
            ).events@[i].0 <= now,
        ensures
            final(self).wf(),
            final(self).events@ == pruned(
                old(self).events@,
                now as int - old(self).window_ms as int,
            ).push((now, event)),
            final(self).window_ms == old(self).window_ms,
            final(self).cancel_penalty == old(self).cancel_penalty,
            final(self).min_pressure == old(self).min_pressure,
    {
        let ghost orig = self.events@;
        let ghost cutoff = now as int - self.window_ms as int;
        let cutoff_i: i128 = now as i128 - self.window_ms as i128;
        while self.events.len() > 0 && (self.events[0].0 as i128) < cutoff_i
            invariant
                events_wf(self.events@),
                forall|i: int| 0 <= i < self.events@.len() ==> #[trigger] self.events@[i].0
                    <= now,
                self.events@.len() <= old(self).events@.len(),
                pruned(orig, cutoff) == pruned(self.events@, cutoff),
                cutoff == now as int - old(self).window_ms as int,
                cutoff_i as int == cutoff,
                self.window_ms == old(self).window_ms,
                self.cancel_penalty == old(self).cancel_penalty,
                self.min_pressure == old(self).min_pressure,
                orig == old(self).events@,
            decreases self.events@.len(),
        {
            proof {
                lemma_events_wf_skip(self.events@, now);
                assert(pruned(self.events@, cutoff) == pruned(self.events@.skip(1), cutoff));
            }
            let ghost before = self.events@;
            self.events.pop_front();
            proof {
                assert(self.events@ =~= before.skip(1));
            }
        }
        proof {
            assert(pruned(self.events@, cutoff) == self.events@);
        }
        self.events.push_back((now, event));
        proof {
            assert(events_wf(self.events@));
        }
    }

    /// Record an event stamped with the wall clock, clamped so that
    /// timestamps never move backwards.
    pub fn add_event(&mut self, event: FlowEvent)
        requires
            old(self).wf(),
            flow_event_valid(event),
            old(self).events@.len() < LEN_LIMIT,
        ensures
            final(self).wf(),
            final(self).window_ms == old(self).window_ms,
            final(self).cancel_penalty == old(self).cancel_penalty,
            final(self).min_pressure == old(self).min_pressure,
            exists|now: u64| #[trigger] add_event_post(
                old(self).events@,
                final(self).events@,
                old(self).window_ms,
                event,
                now,
            ),
    {
        let t = crate::clock::now_millis();
        let last = self.last_time();
        let now = if t < last {
            last
        } else {
            t
        };
        proof {
            assert forall|i: int| 0 <= i < self.events@.len() implies #[trigger] self.events@[
                i].0 <= now by {
                if i < self.events@.len() - 1 {
                    assert(self.events@[i].0 <= self.events@[self.events@.len() - 1].0);
                }
            }
        }
        let ghost pre = self.events@;
        self.add_event_at(now, event);
        proof {
            assert(add_event_post(pre, self.events@, self.window_ms, event, now));
        }
    }

    /// The `(imbalance, pressure)` pair as seen on the wall clock.
    pub fn imbalance(&self) -> (r: (Option<Dec>, Dec))
        requires
            self.wf(),
        ensures
            exists|now: u64| #[trigger] imbalance_reading(
                self.events@,
                self.window_ms,
                self.cancel_penalty@,
                self.min_pressure@,
                r,
                now,
            ),
    {
        let now = crate::clock::now_millis();
        let r = self.imbalance_at(now);
        proof {
            assert(imbalance_reading(
                self.events@,
                self.window_ms,
                self.cancel_penalty@,
                self.min_pressure@,
                r,
                now,
            ));
        }
        r
    }

    /// The `(imbalance, pressure)` pair as seen at `now`.
    ///
    /// The pressure is the sum of bid and ask pressure; the imbalance,
    /// reported only when the pressure reaches the threshold (boundary
    /// inclusive), is their difference divided by their sum.
    pub fn imbalance_at(&self, now: u64) -> (r: (Option<Dec>, Dec))
        requires
            self.wf(),
        ensures
            r.1@ == bid_pressure(
                self.events@,
                now as int,
                self.window_ms as int,
                self.cancel_penalty@,
            ) + ask_pressure(
                self.events@,
                now as int,
                self.window_ms as int,
                self.cancel_penalty@,
            ),
            r.0.is_some() <==> r.1@ >= self.min_pressure@,
            r.0.is_some() ==> r.0->Some_0@ == dec_div(
                bid_pressure(
                    self.events@,
                    now as int,
                    self.window_ms as int,
                    self.cancel_penalty@,
                ) - ask_pressure(
                    self.events@,
                    now as int,
                    self.window_ms as int,
                    self.cancel_penalty@,
                ),
                r.1@,
            ),
    {
        let ghost nowi = now as int;
        let ghost win = self.window_ms as int;
        let ghost pen = self.cancel_penalty@;
        let n = self.events.len();
        let mut bp = Dec::zero();
        let mut ap = Dec::zero();
        let mut i: usize = 0;
        while i < n
            invariant
                self.wf(),
                n == self.events@.len(),
                0 <= i <= n,
                nowi == now as int,
                win == self.window_ms as int,
                pen == self.cancel_penalty@,
                bp@ == bid_pressure(self.events@.take(i as int), nowi, win, pen),
                ap@ == ask_pressure(self.events@.take(i as int), nowi, win, pen),
                -(i as int) * (VAL_LIMIT_UNITS as int) <= bp@ <= (i as int) * (
                VAL_LIMIT_UNITS as int),
                -(i as int) * (VAL_LIMIT_UNITS as int) <= ap@ <= (i as int) * (
                VAL_LIMIT_UNITS as int),
            decreases n - i,
        {
            let (t, event) = self.events[i];
            let age: i128 = now as i128 - t as i128;
            let w_units: i128 = if age >= self.window_ms as i128 {
                0
            } else if age <= 0 {
                SCALE_UNITS
            } else {
                (SCALE_UNITS * (self.window_ms as i128 - age)) / self.window_ms as i128
            };
            proof {
                assert(w_units as int == weight_units(t as int, nowi, win)) by {
                    if 0 < age && age < win {
                        vstd::arithmetic::div_mod::lemma_div_pos_is_pos(
                            SCALE_UNITS as int * (win - age as int),
                            win,
                        );
                        vstd::arithmetic::mul::lemma_mul_upper_bound(
                            SCALE_UNITS as int,
                            SCALE_UNITS as int,
                            win - age as int,
                            win,
                        );
                    }
                }
                assert(0 <= w_units <= SCALE_UNITS) by {
                    if 0 < age && age < win {
                        vstd::arithmetic::div_mod::lemma_div_pos_is_pos(
                            SCALE_UNITS as int * (win - age as int),
                            win,
                        );
                        vstd::arithmetic::mul::lemma_mul_inequality(
                            win - age as int,
                            win,
                            SCALE_UNITS as int,
                        );
                        vstd::arithmetic::mul::lemma_mul_is_commutative(
                            SCALE_UNITS as int,
                            win - age as int,
                        );
                        vstd::arithmetic::mul::lemma_mul_is_commutative(SCALE_UNITS as int, win);
                        vstd::arithmetic::div_mod::lemma_div_is_ordered(
                            SCALE_UNITS as int * (win - age as int),
                            SCALE_UNITS as int * win,
                            win,
                        );
                        vstd::arithmetic::div_mod::lemma_div_multiples_vanish(
                            SCALE_UNITS as int,
                            win,
                        );
                        vstd::arithmetic::mul::lemma_mul_is_commutative(win, SCALE_UNITS as int);
                    }
                }
            }
            let w = Dec::from_units(w_units);
            let ghost prefix = self.events@.take(i as int);
            let ghost prefix1 = self.events@.take(i as int + 1);
            proof {
                assert(prefix1.drop_last() =~= prefix);
                assert(prefix1.last() == self.events@[i as int]);
            }
            match event {
                FlowEvent::BidOrder(q) => {
                    proof {
                        crate::dec::lemma_dec_mul_weight_bound(q@, w@, VAL_LIMIT_UNITS as int);
                    }
                    bp = bp.plus(q.times(w));
                },
                FlowEvent::AskOrder(q) => {
                    proof {
                        crate::dec::lemma_dec_mul_weight_bound(q@, w@, VAL_LIMIT_UNITS as int);
                    }
                    ap = ap.plus(q.times(w));
                },
                FlowEvent::BidCancel => {
                    proof {
                        crate::dec::lemma_dec_mul_weight_bound(pen, w@, VAL_LIMIT_UNITS as int);
                    }
                    bp = bp.minus(self.cancel_penalty.times(w));
                },
                FlowEvent::AskCancel => {
                    proof {
                        crate::dec::lemma_dec_mul_weight_bound(pen, w@, VAL_LIMIT_UNITS as int);
                    }
                    ap = ap.minus(self.cancel_penalty.times(w));
                },
            }
            i += 1;
        }
        proof {
            assert(self.events@.take(n as int) =~= self.events@);
        }
        let total = bp.plus(ap);
        if self.min_pressure.le(total) {
            let imb = bp.minus(ap).divide(total);
            (Some(imb), total)
        } else {
            (None, total)
        }
    }
}

} // verus!
