use h2::error::{ConnectionError, Reason};
use h2::proto::{FlowControl, MAX_WINDOW_SIZE};

fn window(size: i32) -> FlowControl {
    let mut flow = FlowControl::new();
    flow.inc_window(size).unwrap();
    flow
}

#[test]
fn new_window_is_empty() {
    let flow = FlowControl::new();
    assert_eq!(flow.window_size(), 0);
    assert_eq!(flow.available(), 0);
    assert!(!flow.has_unavailable());
}

#[test]
fn inc_window_raises_the_window_only() {
    let mut flow = FlowControl::new();
    assert_eq!(flow.inc_window(65535), Ok(()));
    assert_eq!(flow.window_size(), 65535);
    assert_eq!(flow.available(), 0);
    assert!(flow.has_unavailable());
}

#[test]
fn inc_window_at_max_fails() {
    let mut flow = window(MAX_WINDOW_SIZE);
    assert_eq!(
        flow.inc_window(1),
        Err(ConnectionError::Proto(Reason::FlowControlError))
    );
    assert_eq!(flow.window_size(), MAX_WINDOW_SIZE);
}

#[test]
fn inc_window_up_to_max_succeeds() {
    let mut flow = window(MAX_WINDOW_SIZE - 10);
    assert_eq!(flow.inc_window(10), Ok(()));
    assert_eq!(flow.window_size(), MAX_WINDOW_SIZE);
    assert_eq!(
        flow.inc_window(MAX_WINDOW_SIZE),
        Err(ConnectionError::Proto(Reason::FlowControlError))
    );
}

#[test]
fn inc_window_by_zero_at_max_changes_nothing() {
    let mut flow = window(MAX_WINDOW_SIZE);
    assert_eq!(flow.inc_window(0), Ok(()));
    assert_eq!(flow.window_size(), MAX_WINDOW_SIZE);
}

#[test]
fn dec_window_can_go_negative() {
    let mut flow = window(100);
    flow.dec_window(250);
    assert_eq!(flow.window_size(), -150);
    assert_eq!(flow.available(), 0);
    assert!(!flow.has_unavailable());
}

#[test]
fn dec_window_withdraws_what_no_longer_fits() {
    let mut flow = window(65535);
    flow.assign_capacity(40000);
    flow.dec_window(64535);
    assert_eq!(flow.window_size(), 1000);
    assert_eq!(flow.available(), 1000);
}

#[test]
fn dec_window_keeps_what_still_fits() {
    let mut flow = window(1000);
    flow.assign_capacity(100);
    flow.dec_window(500);
    assert_eq!(flow.window_size(), 500);
    assert_eq!(flow.available(), 100);
}

#[test]
fn assign_and_claim_capacity() {
    let mut flow = window(100);
    flow.assign_capacity(60);
    assert_eq!(flow.available(), 60);
    assert!(flow.has_unavailable());
    flow.assign_capacity(40);
    assert_eq!(flow.available(), 100);
    assert!(!flow.has_unavailable());
    flow.claim_capacity(30);
    assert_eq!(flow.available(), 70);
    assert_eq!(flow.window_size(), 100);
}

#[test]
fn send_data_leaves_window_and_grant() {
    let mut flow = window(100);
    flow.assign_capacity(50);
    flow.send_data(20);
    assert_eq!(flow.window_size(), 80);
    assert_eq!(flow.available(), 30);
}

#[test]
fn send_nothing_on_a_negative_window() {
    let mut flow = window(10);
    flow.dec_window(20);
    flow.send_data(0);
    assert_eq!(flow.window_size(), -10);
    assert_eq!(flow.available(), 0);
}

#[test]
fn available_stays_within_the_window() {
    let mut flow = window(500);
    flow.assign_capacity(500);
    flow.send_data(200);
    flow.dec_window(250);
    assert!(flow.available() <= flow.window_size().max(0));
    assert_eq!(flow.window_size(), 50);
    assert_eq!(flow.available(), 50);
}

#[test]
fn window_updates_in_any_order() {
    let deltas = [5, 70, 0, 1000, 33];
    let orders: [[usize; 5]; 4] = [
        [0, 1, 2, 3, 4],
        [4, 3, 2, 1, 0],
        [2, 0, 4, 1, 3],
        [3, 4, 0, 2, 1],
    ];
    for order in orders.iter() {
        let mut flow = window(100);
        for i in order.iter() {
            assert_eq!(flow.inc_window(deltas[*i]), Ok(()));
        }
        assert_eq!(flow.window_size(), 1208);
    }
}

#[test]
fn window_updates_up_to_the_limit_in_any_order() {
    let deltas = [MAX_WINDOW_SIZE - 100, 60, 40];
    let orders: [[usize; 3]; 3] = [[0, 1, 2], [2, 1, 0], [1, 0, 2]];
    for order in orders.iter() {
        let mut flow = FlowControl::new();
        for i in order.iter() {
            assert_eq!(flow.inc_window(deltas[*i]), Ok(()));
        }
        assert_eq!(flow.window_size(), MAX_WINDOW_SIZE);
    }
}
