//! The bounded queue between links and their session.

use std::sync::Arc;

use amqp_engine::definitions::{Binary, Handle, InputHandle, OutgoingChannel};
use amqp_engine::frame::LinkFrame;
use amqp_engine::performatives::{Detach, Transfer};
use amqp_engine::session::{Session, SessionState};
use amqp_engine::transfer_queue::{
    channel, plan, prepare, QueuePlan, QueueSlot, Sender, TrySendError, RETAINED_BYTES,
};
use tokio::sync::{mpsc, Semaphore};

fn transfer(id: u32) -> LinkFrame {
    let performative = Transfer::new(Handle(0), id, Binary::new(vec![id as u8]), 0);
    LinkFrame::Transfer {
        input_handle: InputHandle(0),
        performative,
        payload: b"data".to_vec(),
        window_slot: None,
        queue_slot: None,
    }
}

fn sized(payload: usize) -> LinkFrame {
    LinkFrame::Transfer {
        input_handle: InputHandle(0),
        performative: Transfer::new(Handle(0), 0, Binary::new(vec![0]), 0),
        payload: vec![0; payload],
        window_slot: None,
        queue_slot: None,
    }
}

fn holds_slot(frame: &LinkFrame) -> bool {
    matches!(
        frame,
        LinkFrame::Transfer {
            queue_slot: Some(_),
            ..
        }
    )
}

#[test]
fn zero_peer_window_keeps_a_bounded_backlog_without_blocking_controls() {
    let (tx, mut rx) = mpsc::channel(2);
    let bytes = Arc::new(Semaphore::new(2 * 1028));
    let writer = Sender {
        tx,
        bytes: bytes.clone(),
    };
    let mut session = Session::builder().into_session(OutgoingChannel(0), SessionState::Mapped);
    for id in 0..2 {
        writer.try_send(transfer(id)).unwrap();
        let LinkFrame::Transfer {
            input_handle,
            performative,
            payload,
            queue_slot,
            ..
        } = rx.try_recv().unwrap()
        else {
            panic!()
        };
        assert_eq!(queue_slot.as_ref().map(|slot| slot.permits), Some(1028));
        assert!(session
            .on_outgoing_transfer(input_handle, performative, payload, queue_slot)
            .unwrap()
            .is_none());
    }
    assert_eq!(bytes.available_permits(), 0);
    assert_eq!(session.remote_incoming_window_exhausted_buffer.len(), 2);
    assert!(matches!(
        writer.try_send(transfer(2)),
        Err(TrySendError::Full(frame)) if !holds_slot(&frame)
    ));
    // Controls never compete for the payload budget and the session driver
    // can consume them while waiting for an explicit peer window update.
    writer
        .try_send(LinkFrame::Detach(Detach {
            handle: Handle(1),
            closed: true,
            error: None,
        }))
        .unwrap();
    assert!(matches!(rx.try_recv().unwrap(), LinkFrame::Detach(_)));
    session.remote_incoming_window = 2;
    let frames = session.prepare_session_frames_from_buffered_transfers(Vec::new());
    assert_eq!(frames.len(), 2);
    assert_eq!(
        bytes.available_permits(),
        0,
        "forwarding to the connection retains the reservation"
    );
    assert!(matches!(
        writer.try_send(transfer(2)),
        Err(TrySendError::Full(_))
    ));
    drop(frames);
    writer.try_send(transfer(2)).unwrap();
    drop(rx.try_recv().unwrap());
    assert_eq!(bytes.available_permits(), 2 * 1028);
}

#[test]
fn session_stop_returns_the_frame_and_its_reservation() {
    let (tx, rx) = mpsc::channel(1);
    let bytes = Arc::new(Semaphore::new(1028));
    let writer = Sender {
        tx,
        bytes: bytes.clone(),
    };
    drop(rx);
    match writer.try_send(transfer(0)) {
        Err(TrySendError::Closed(frame)) => {
            assert!(holds_slot(&frame));
            assert_eq!(bytes.available_permits(), 0);
            // It needs no second reservation.
            assert_eq!(plan(&frame), QueuePlan::Forward);
            drop(frame);
        }
        _ => panic!("nobody receives"),
    }
    assert_eq!(bytes.available_permits(), 1028);
}

#[test]
fn a_full_queue_hands_the_slotted_frame_back() {
    let (writer, mut rx) = channel(1);
    assert_eq!(writer.bytes.available_permits(), RETAINED_BYTES);
    assert_eq!(writer.tx.max_capacity(), 1);
    writer.try_send(transfer(0)).unwrap();
    match writer.try_send(transfer(1)) {
        Err(TrySendError::Full(frame)) => {
            assert!(holds_slot(&frame));
            rx.try_recv().unwrap();
            // With its reservation it is forwarded as it is.
            writer.try_send(frame).unwrap();
        }
        _ => panic!("the queue is full"),
    }
    match rx.try_recv().unwrap() {
        LinkFrame::Transfer { performative, .. } => assert_eq!(performative.delivery_id, Some(1)),
        _ => panic!("a transfer is queued"),
    }
}

#[test]
fn publishers_on_one_queue_share_its_bound() {
    let (first, mut rx) = channel(2);
    let second = first.clone();
    first.try_send(transfer(0)).unwrap();
    second.try_send(transfer(1)).unwrap();
    assert_eq!(first.bytes.available_permits(), RETAINED_BYTES - 2 * 1028);
    assert_eq!(second.bytes.available_permits(), RETAINED_BYTES - 2 * 1028);
    assert!(first.tx.same_channel(&second.tx));
    assert!(matches!(second.try_send(transfer(2)), Err(TrySendError::Full(_))));
    // What either put in comes out at the one receiving half, in order.
    for id in 0..2 {
        match rx.try_recv().unwrap() {
            LinkFrame::Transfer { performative, .. } => {
                assert_eq!(performative.delivery_id, Some(id));
            }
            _ => panic!("a transfer is queued"),
        }
    }
    assert_eq!(first.bytes.available_permits(), RETAINED_BYTES);
}

#[test]
fn only_transfers_are_counted_and_only_up_to_the_bound() {
    assert_eq!(RETAINED_BYTES, 32 * 1024 * 1024);
    assert_eq!(plan(&transfer(0)), QueuePlan::Reserve(1028));
    assert_eq!(
        plan(&sized(RETAINED_BYTES - 1024)),
        QueuePlan::Reserve(RETAINED_BYTES as u32)
    );
    assert_eq!(plan(&sized(RETAINED_BYTES - 1023)), QueuePlan::TooLarge);
    assert_eq!(
        plan(&LinkFrame::Acquisition(Binary::new(vec![1]))),
        QueuePlan::Forward
    );
    let (writer, _rx) = channel(1);
    assert!(matches!(
        writer.try_send(sized(RETAINED_BYTES - 1023)),
        Err(TrySendError::Full(frame)) if !holds_slot(&frame)
    ));
    assert_eq!(writer.bytes.available_permits(), RETAINED_BYTES);
    let permit = writer.bytes.clone().try_acquire_many_owned(1028).unwrap();
    let slot = QueueSlot {
        permit,
        permits: 1028,
    };
    let slotted = prepare(transfer(0), Some(slot)).unwrap();
    assert!(holds_slot(&slotted));
    assert!(matches!(prepare(slotted, None), Ok(frame) if holds_slot(&frame)));
    assert!(matches!(prepare(transfer(0), None), Err(frame) if !holds_slot(&frame)));
    assert!(prepare(sized(RETAINED_BYTES), None).is_err());
    assert!(prepare(LinkFrame::Acquisition(Binary::new(vec![1])), None).is_ok());
}
