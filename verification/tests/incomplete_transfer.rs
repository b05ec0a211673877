//! Deliveries that come in piece by piece, and the storage that they take.

use amqp_engine::definitions::{Binary, DeliveryState, Handle, Received};
use amqp_engine::errors::{ReceiverTransferError, RecvError};
use amqp_engine::incoming_recovery::{IncomingRecovery, Kind};
use amqp_engine::incomplete_transfer::{retain_unsettled, IncompleteTransfer};
use amqp_engine::performatives::Transfer;
use amqp_engine::receive_budget::ReceiveBudget;
use amqp_engine::receiver_delivery::ReceiverDelivery;
use amqp_engine::unsettled_store::{Store, UnsettledMap};

fn transfer() -> Transfer {
    Transfer::new(Handle(0), 0, Binary::new(vec![0x55]), 0)
}

#[test]
fn every_fragment_boundary_and_explicit_recovery_preserve_exact_encoded_sections() {
    let message = [
        0, 0x53, 0x75, 0xa0, 6, 0, 0x53, 0x75, 0, 255, 7, 0, 0x53, 0x75, 0xa0, 1, 9,
    ];
    for split in 0..=message.len() {
        let mut budget = ReceiveBudget::new(1024);
        let mut part =
            IncompleteTransfer::new(transfer(), message[..split].to_vec(), &mut budget).unwrap();
        part.append(message[split..].to_vec(), &mut budget).unwrap();
        assert_eq!(part.buffer, message);
        assert_eq!((part.section_number, part.section_offset), (Some(2), 0));
        assert!(part
            .keep_buffer_till_section_number_and_offset(0, 12, &mut budget)
            .is_err());
        assert_eq!(part.buffer, message);
        part.keep_buffer_till_section_number_and_offset(1, 3, &mut budget)
            .unwrap();
        assert_eq!(part.buffer, &message[..14]);
        assert_eq!(budget.retained_bytes(), 14);
        part.append(message[14..].to_vec(), &mut budget).unwrap();
        assert_eq!(part.buffer, message);
        assert_eq!(budget.retained_bytes(), message.len());
        let _ = part.into_parts(&mut budget);
        assert_eq!(budget.retained_bytes(), 0);
    }
}

#[test]
fn continuation_identity_changes_fail_and_empty_fragments_do_not_grow_storage() {
    let mut budget = ReceiveBudget::new(1024);
    let mut part = IncompleteTransfer::new(transfer(), Vec::new(), &mut budget).unwrap();
    for _ in 0..10000 {
        part.append(Vec::new(), &mut budget).unwrap();
    }
    assert_eq!(part.buffer.capacity(), 0);
    let mut changed = transfer();
    changed.delivery_tag = Some(Binary::new(vec![1]));
    assert!(part.or_assign(changed).is_err());
}

#[test]
fn later_transfers_fill_in_settle_and_do_not_alter_an_outcome() {
    let mut budget = ReceiveBudget::new(1024);
    let mut first = transfer();
    first.message_format = None;
    let mut part = IncompleteTransfer::new(first, Vec::new(), &mut budget).unwrap();
    let mut next = transfer();
    next.settled = Some(true);
    next.state = Some(DeliveryState::Accepted);
    part.or_assign(next).unwrap();
    assert_eq!(part.performative.message_format, Some(0));
    assert_eq!(part.performative.settled, Some(true));
    let mut last = transfer();
    last.settled = Some(false);
    last.state = Some(DeliveryState::Received(Received {
        section_number: 0,
        section_offset: 0,
    }));
    part.or_assign(last).unwrap();
    assert_eq!(part.performative.settled, Some(true));
    assert!(matches!(
        part.performative.state,
        Some(DeliveryState::Accepted)
    ));
    let mut other = transfer();
    other.delivery_id = Some(9);
    assert!(matches!(
        part.or_assign(other),
        Err(ReceiverTransferError::InconsistentFieldInMultiFrameDelivery)
    ));
}

#[test]
fn storage_that_does_not_fit_or_does_not_parse_is_refused() {
    let mut budget = ReceiveBudget::new(4);
    assert!(matches!(
        IncompleteTransfer::new(transfer(), vec![0; 5], &mut budget),
        Err(ReceiverTransferError::MessageSizeExceeded)
    ));
    assert_eq!(budget.retained_bytes(), 0);
    assert!(matches!(
        IncompleteTransfer::new(transfer(), vec![0x41], &mut budget),
        Err(ReceiverTransferError::InvalidMessageEncoding(_))
    ));
    assert_eq!(budget.retained_bytes(), 0);
    let mut part = IncompleteTransfer::new(transfer(), vec![0, 0x53], &mut budget).unwrap();
    assert!(matches!(
        part.append(vec![0x75, 0xa0, 1], &mut budget),
        Err(ReceiverTransferError::MessageSizeExceeded)
    ));
    assert_eq!(part.buffer, [0, 0x53]);
    assert_eq!(budget.retained_bytes(), 2);
    // What is no message is retained until the delivery is given up.
    assert!(matches!(
        part.append(vec![0x75, 0x01], &mut budget),
        Err(ReceiverTransferError::InvalidMessageEncoding(_))
    ));
    assert_eq!((part.section_number, part.section_offset), (Some(0), 2));
    assert_eq!(budget.retained_bytes(), 4);
    let _ = part.into_parts(&mut budget);
    assert_eq!(budget.retained_bytes(), 0);
}

#[test]
fn attach_reconciliation_drops_only_settled_prefixes() {
    for unsettled in [false, true] {
        let mut budget = ReceiveBudget::new(64);
        let part = IncompleteTransfer::new(transfer(), vec![0, 0x53], &mut budget).unwrap();
        let mut map = UnsettledMap::new();
        if unsettled {
            map.insert(Binary::new(vec![0x55]), ReceiverDelivery::new(None));
        }
        let store = Store::new(Some(map));
        let kept = retain_unsettled(Some(part), &store, &mut budget);
        assert_eq!(kept.is_some(), unsettled);
        assert_eq!(budget.retained_bytes(), if unsettled { 2 } else { 0 });
    }
    let mut budget = ReceiveBudget::new(64);
    let store = Store::new(None);
    assert!(retain_unsettled(None, &store, &mut budget).is_none());
}

#[test]
fn ignored_resume_covers_omitted_and_repeated_resume_flags_until_final_frame() {
    for kind in [Kind::Ignore, Kind::StateOnly, Kind::Payload] {
        let mut state = IncomingRecovery::default();
        let mut first = transfer();
        first.resume = true;
        first.more = true;
        state.start(&first, kind);
        for resume in [false, true, false] {
            let mut next = first.clone();
            next.resume = resume;
            next.delivery_id = None;
            next.delivery_tag = None;
            next.message_format = None;
            assert_eq!(state.continuation(&mut next).unwrap(), Some(kind));
            assert_eq!(next.delivery_tag, first.delivery_tag);
        }
        let mut invalid = first.clone();
        invalid.delivery_id = Some(7);
        assert!(state.continuation(&mut invalid).is_err());
        first.more = false;
        assert_eq!(state.continuation(&mut first).unwrap(), Some(kind));
        assert_eq!(state.continuation(&mut first).unwrap(), None);
    }
}

#[test]
fn abort_and_explicit_new_attach_clear_only_current_resume_identity() {
    let mut state = IncomingRecovery::default();
    let mut transfer = transfer();
    transfer.more = true;
    transfer.resume = true;
    state.start(&transfer, Kind::Ignore);
    transfer.aborted = true;
    assert_eq!(
        state.continuation(&mut transfer).unwrap(),
        Some(Kind::Ignore)
    );
    assert_eq!(state.continuation(&mut transfer).unwrap(), None);
    transfer.aborted = false;
    state.start(&transfer, Kind::Payload);
    state.reset();
    assert_eq!(state.continuation(&mut transfer).unwrap(), None);
}

#[test]
fn a_contradiction_is_an_error_and_the_recovery_goes_on() {
    let mut state = IncomingRecovery::default();
    let mut first = transfer();
    first.more = true;
    state.start(&first, Kind::Payload);
    let mut next = first.clone();
    next.delivery_id = None;
    next.delivery_tag = Some(Binary::new(vec![9]));
    assert_eq!(
        state.continuation(&mut next),
        Err(RecvError::InconsistentFieldInMultiFrameDelivery)
    );
    // What stands before the contradiction is filled in.
    assert_eq!(next.delivery_id, Some(0));
    assert_eq!(
        state.continuation(&mut first.clone()).unwrap(),
        Some(Kind::Payload)
    );
}
