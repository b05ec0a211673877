//! Shared storage and receive windows.

use amqp_engine::errors::ReceiverTransferError;
use amqp_engine::receive_budget::ReceiveBudget;
use amqp_engine::receive_window::ReceiveWindow;

#[test]
fn partials_share_capacity_fail_before_growth_and_release_on_abort_or_drop() {
    let mut budget = ReceiveBudget::new(10);
    let mut a = budget.reserve(6).unwrap();
    let b = budget.reserve(4).unwrap();
    assert!(a.resize(&mut budget, 7).is_err());
    assert_eq!(budget.retained_bytes(), 10);
    b.release(&mut budget);
    a.resize(&mut budget, 10).unwrap();
    assert_eq!(budget.retained_bytes(), 10);
    a.resize(&mut budget, 3).unwrap();
    assert_eq!(budget.retained_bytes(), 3);
    assert!(budget.reserve(usize::MAX).is_err());
    assert_eq!(budget.retained_bytes(), 3);
    a.release(&mut budget);
    assert_eq!(budget.retained_bytes(), 0);
}

#[test]
fn interleaved_receivers_cannot_over_reserve_or_leak_capacity() {
    let mut budget = ReceiveBudget::new(1024);
    for _ in 0..1000 {
        let mut leases = Vec::new();
        for _ in 0..8 {
            if let Ok(mut lease) = budget.reserve(128) {
                let _ = lease.resize(&mut budget, 512);
                assert!(budget.retained_bytes() <= 1024);
                leases.push(lease);
            }
        }
        let held: usize = leases.iter().map(|lease| lease.size()).sum();
        assert_eq!(budget.retained_bytes(), held);
        for lease in leases {
            lease.release(&mut budget);
        }
    }
    assert_eq!(budget.retained_bytes(), 0);
}

#[test]
fn a_refused_growth_names_the_size() {
    let mut budget = ReceiveBudget::new(1);
    assert!(matches!(
        budget.reserve(2),
        Err(ReceiverTransferError::MessageSizeExceeded)
    ));
}

#[test]
fn slots_are_taken_released_and_reported_once() {
    let mut window = ReceiveWindow::new(2);
    assert_eq!(window.maximum(), 2);
    let first = window.reserve().unwrap();
    let second = window.reserve().unwrap();
    assert!(window.reserve().is_none());
    assert_eq!(window.available(), 0);
    window.release(first);
    assert_eq!(window.available(), 1);
    window.release(second);
    assert_eq!(window.take_released(), 2);
    assert_eq!(window.take_released(), 0);
    assert_eq!(window.available(), 2);
    assert!(ReceiveWindow::new(0).reserve().is_none());
}
