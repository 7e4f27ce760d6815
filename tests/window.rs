use httpbis::window::InWindow;
use httpbis::window::WindowError;
use httpbis::window::WindowOp;
use httpbis::window::WindowTracker;
use httpbis::window::DEFAULT_INITIAL_WINDOW_SIZE;
use httpbis::window::MAX_WINDOW_SIZE;

#[test]
fn commit_within_credit() {
    let mut w = WindowTracker::new(100);
    assert!(w.commit(60));
    assert_eq!(40, w.available());
    assert_eq!(60, w.in_flight);
    assert_eq!(-20, w.sendable());
}

#[test]
fn commit_beyond_credit_changes_nothing() {
    let mut w = WindowTracker::new(100);
    assert!(!w.commit(101));
    assert_eq!(WindowTracker::new(100), w);
    assert!(w.commit(50));
    assert!(!w.commit(1));
    assert_eq!(50, w.available());
}

#[test]
fn settle_releases_in_flight() {
    let mut w = WindowTracker::new(100);
    assert!(w.commit(30));
    w.settle(10);
    assert_eq!(20, w.in_flight);
    w.settle(50);
    assert_eq!(0, w.in_flight);
    assert_eq!(70, w.sendable());
}

#[test]
fn grant_up_to_maximum() {
    let mut w = WindowTracker::new(DEFAULT_INITIAL_WINDOW_SIZE);
    assert_eq!(Ok(()), w.grant(MAX_WINDOW_SIZE - 65535));
    assert_eq!(MAX_WINDOW_SIZE, w.available());
    assert_eq!(Err(WindowError::FlowControlOverflow), w.grant(1));
    assert_eq!(MAX_WINDOW_SIZE, w.available());
}

#[test]
fn negative_grant_from_settings() {
    let mut w = WindowTracker::new(10);
    assert_eq!(Ok(()), w.grant(-30));
    assert_eq!(-20, w.available());
    assert!(!w.commit(1));
    assert_eq!(Err(WindowError::FlowControlOverflow), w.grant(-MAX_WINDOW_SIZE));
}

#[test]
fn reset_in_flight_clears_deficit() {
    let mut w = WindowTracker::new(100);
    assert!(w.commit(40));
    assert!(w.commit(20));
    assert_eq!(-20, w.sendable());
    w.reset_in_flight();
    assert_eq!(0, w.in_flight);
    assert_eq!(40, w.available());
    assert_eq!(40, w.sendable());
}

#[test]
fn available_stays_non_negative_over_operations() {
    let mut w = WindowTracker::new(1000);
    let mut seed: u32 = 7;
    for _ in 0..500 {
        seed = seed.wrapping_mul(1103515245).wrapping_add(12345);
        let op = match seed % 4 {
            0 => WindowOp::Grant(((seed >> 8) % 300) as i64),
            1 => WindowOp::Commit((seed >> 8) % 400),
            2 => WindowOp::Settle((seed >> 8) % 400),
            _ => WindowOp::ResetInFlight,
        };
        w.apply_op(op);
        assert!(w.available() >= 0);
        assert!(w.in_flight >= 0);
    }
}

#[test]
fn inbound_small_deliveries_are_coalesced() {
    let mut w = InWindow::new(100);
    assert!(w.consume_inbound(30));
    assert_eq!(70, w.available);
    assert_eq!(Ok(None), w.replenish_inbound(10, 25));
    assert_eq!(10, w.unacked);
    assert_eq!(Ok(Some(30)), w.replenish_inbound(20, 25));
    assert_eq!(100, w.available);
    assert_eq!(0, w.unacked);
}

#[test]
fn inbound_over_credit_is_refused() {
    let mut w = InWindow::new(10);
    assert!(!w.consume_inbound(11));
    assert_eq!(10, w.available);
}

#[test]
fn inbound_replenish_past_maximum_fails() {
    let mut w = InWindow::new(2147483647);
    assert_eq!(Err(WindowError::FlowControlOverflow), w.replenish_inbound(1, 0));
    assert_eq!(0, w.unacked);
}
