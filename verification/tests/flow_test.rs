use lob_analytics::dec::Dec;
use lob_analytics::flow::{FlowEvent, RollingFlowTracker};

fn d(n: i64) -> Dec {
    Dec::from_int(n)
}

fn du(units: i128) -> Dec {
    Dec::from_units(units)
}

#[test]
fn test_pressure_and_imbalance_fresh_events() {
    // BidOrder(3.0), BidCancel, AskOrder(1.0), all at the same instant;
    // window 10 s, cancel penalty 0.35, threshold 2.5
    let mut t = RollingFlowTracker::new(10);
    t.add_event_at(5000, FlowEvent::BidOrder(d(3)));
    t.add_event_at(5000, FlowEvent::BidCancel);
    t.add_event_at(5000, FlowEvent::AskOrder(d(1)));
    let (imb, pressure) = t.imbalance_at(5000);
    // pressure = 3.0 - 0.35 + 1.0 = 3.65
    assert_eq!(pressure, du(3_650_000_000));
    // imbalance = (2.65 - 1.0) / 3.65
    assert_eq!(imb, Some(du(452_054_794)));
}

#[test]
fn test_event_beyond_window_contributes_zero() {
    let mut t = RollingFlowTracker::new(10);
    t.add_event_at(0, FlowEvent::BidOrder(d(4)));
    // 20 s later the event is older than the window
    let (imb, pressure) = t.imbalance_at(20_000);
    assert_eq!(pressure, d(0));
    assert_eq!(imb, None);
}

#[test]
fn test_event_half_window_half_weight() {
    let mut t = RollingFlowTracker::new(10);
    t.add_event_at(0, FlowEvent::BidOrder(d(4)));
    let (imb, pressure) = t.imbalance_at(5_000);
    // weight 0.5: pressure 2.0, below the 2.5 threshold
    assert_eq!(pressure, d(2));
    assert_eq!(imb, None);
}

#[test]
fn test_event_age_zero_full_weight() {
    let mut t = RollingFlowTracker::new(10);
    t.add_event_at(7000, FlowEvent::AskOrder(d(3)));
    let (imb, pressure) = t.imbalance_at(7000);
    assert_eq!(pressure, d(3));
    // (0 - 3) / 3 = -1
    assert_eq!(imb, Some(d(-1)));
}

#[test]
fn test_threshold_boundary_inclusive() {
    let mut t = RollingFlowTracker::new(10);
    t.add_event_at(0, FlowEvent::BidOrder(du(2_500_000_000)));
    let (imb, pressure) = t.imbalance_at(0);
    // exactly at the threshold the imbalance is present
    assert_eq!(pressure, du(2_500_000_000));
    assert_eq!(imb, Some(d(1)));

    let mut t2 = RollingFlowTracker::new(10);
    t2.add_event_at(0, FlowEvent::BidOrder(du(2_499_999_999)));
    let (imb2, _) = t2.imbalance_at(0);
    assert_eq!(imb2, None);
}

#[test]
fn test_old_events_pruned_on_add() {
    let mut t = RollingFlowTracker::new(10);
    t.add_event_at(0, FlowEvent::BidOrder(d(1)));
    t.add_event_at(5_000, FlowEvent::BidOrder(d(1)));
    // 20 s: both earlier events are older than the window and leave
    t.add_event_at(20_000, FlowEvent::AskOrder(d(1)));
    assert_eq!(t.events.len(), 1);
    assert_eq!(t.events[0], (20_000, FlowEvent::AskOrder(d(1))));
}

#[test]
fn test_tracker_defaults() {
    let t = RollingFlowTracker::new(10);
    assert_eq!(t.window_ms, 10_000);
    assert_eq!(t.cancel_penalty, du(350_000_000));
    assert_eq!(t.min_pressure, du(2_500_000_000));
    assert_eq!(t.events_len(), 0);
    assert_eq!(t.last_time(), 0);
}
