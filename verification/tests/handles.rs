//! Session handles, owned transactions and observed frames.

use std::sync::Arc;

use amqp_engine::definitions::{Binary, Declared, Handle, OutputHandle};
use amqp_engine::errors::{ControllerSendError, SessionStateError, SessionStopReason, TryEndError};
use amqp_engine::observation::{Close, Frame, FrameBody, IncomingFrame, Performative};
use amqp_engine::performatives::Transfer;
use amqp_engine::session_handle::{EndOutcome, Joined, SessionHandle};
use amqp_engine::transaction::{ControlLink, DeclaringLink, OwnedTransaction};

#[test]
fn stop_joins_once_and_ends_nothing_on_drop() {
    let mut owner = SessionHandle::new(65532, ());
    assert!(owner.ends_on_drop());
    assert!(owner.stop());
    assert_eq!(owner.stop_and_join(Joined::<()>::Cancelled), Ok(()));
    assert!(!owner.stop());
    assert_eq!(owner.stop_and_join(Joined::<()>::Finished), Ok(()));
    assert_eq!(owner.session_stop_reason, Some(SessionStopReason::Stopped));
    assert!(!owner.ends_on_drop());
    assert_eq!(owner.max_frame_size, 65532);
    let mut failing = SessionHandle::new(512, ());
    assert!(failing.stop());
    assert_eq!(failing.stop_and_join(Joined::Failed("panicked")), Err("panicked"));
    assert!(!failing.stop());
}

#[test]
fn a_session_ends_once() {
    let mut handle = SessionHandle::new(512, ());
    assert!(!handle.is_ended(false));
    assert!(handle.is_ended(true));
    assert!(matches!(
        handle.try_end(EndOutcome::Empty),
        Err(TryEndError::RemoteEndNotReceived)
    ));
    assert!(!handle.is_ended(false));
    assert!(matches!(
        handle.try_end(EndOutcome::Ready(Ok(()))),
        Ok(Ok(()))
    ));
    assert!(handle.is_ended(false));
    assert!(matches!(
        handle.try_end(EndOutcome::Empty),
        Err(TryEndError::AlreadyEnded)
    ));
    assert!(matches!(
        handle.on_end(Some(Ok(()))),
        Err(SessionStateError::IllegalState)
    ));
    let mut handle = SessionHandle::new(512, ());
    assert!(matches!(
        handle.try_end(EndOutcome::Closed),
        Ok(Err(SessionStateError::IllegalState))
    ));
    assert!(handle.is_ended(false));
    let mut handle = SessionHandle::new(512, ());
    assert!(matches!(
        handle.on_end(Some(Err(SessionStateError::RemoteEnded))),
        Err(SessionStateError::RemoteEnded)
    ));
    assert!(!handle.ends_on_drop());
    let mut handle = SessionHandle::new(512, ());
    assert!(matches!(
        handle.on_end(None),
        Err(SessionStateError::IllegalState)
    ));
    assert!(handle.is_ended(false));
}

fn control_link() -> ControlLink {
    ControlLink {
        output_handle: Some(OutputHandle(3)),
    }
}

fn declared() -> OwnedTransaction {
    let declared: Result<Declared, ()> = Ok(Declared {
        txn_id: Binary::new(vec![9]),
    });
    match OwnedTransaction::declare_with_controller(control_link(), declared) {
        Ok(transaction) => transaction,
        Err(_) => panic!("it was declared"),
    }
}

#[test]
fn an_interrupted_discharge_is_never_repeated() {
    let mut transaction = declared();
    assert_eq!(transaction.txn_id(), &Binary::new(vec![9]));
    assert!(!transaction.is_discharged());
    assert!(!transaction.discharge_outcome_unknown());
    let discharge = transaction.discharge(true).unwrap().unwrap();
    assert_eq!(discharge.txn_id, Binary::new(vec![9]));
    assert!(discharge.fail);
    assert!(transaction.discharge_outcome_unknown());
    assert!(matches!(
        transaction.discharge(false),
        Err(ControllerSendError::DischargeOutcomeUnknown)
    ));
    assert_eq!(transaction.discharged(Err("refused")), Err("refused"));
    assert!(transaction.discharge_outcome_unknown());
    assert!(matches!(
        transaction.commit(),
        Err(ControllerSendError::DischargeOutcomeUnknown)
    ));
}

#[test]
fn a_confirmed_discharge_is_done() {
    let mut transaction = declared();
    let commit = transaction.commit().unwrap().unwrap();
    assert!(!commit.fail);
    assert_eq!(transaction.discharged(Ok::<(), ()>(())), Ok(()));
    assert!(transaction.is_discharged());
    assert!(!transaction.discharge_outcome_unknown());
    assert!(transaction.rollback().unwrap().is_none());
    let mut transaction = declared();
    assert!(transaction.rollback().unwrap().unwrap().fail);
}

#[test]
fn dropped_control_links_send_no_detach() {
    let mut transaction = declared();
    assert!(transaction.inner.detaches_on_drop());
    transaction.abandon();
    assert!(!transaction.inner.detaches_on_drop());
    let refused: Result<Declared, &str> = Err("refused");
    match OwnedTransaction::declare_with_controller(control_link(), refused) {
        Err((error, mut pending)) => {
            assert_eq!(error, "refused");
            pending.abandon();
            assert_eq!(pending.inner.map(|link| link.detaches_on_drop()), Some(false));
        }
        Ok(_) => panic!("it was refused"),
    }
    let mut gone = DeclaringLink { inner: None };
    gone.abandon();
    assert!(gone.inner.is_none());
}

#[test]
fn hook_preserves_extended_header_original_constructors_channel_and_binary_payload() {
    let raw = [
        0, 0, 0, 25, 3, 0, 0, 9, 1, 2, 3, 4, 0, 0x53, 0x14, 0xc0, 7, 4, 0x43, 0x43, 0xa0, 1, 0x55,
        0x43, 0x42,
    ];
    let frame = Frame {
        channel: 9,
        body: FrameBody::Transfer {
            performative: Arc::new(Transfer::new(Handle(0), 0, Binary::new(vec![0x55]), 0)),
            payload: vec![0x42],
        },
    };
    let observed = IncomingFrame::from_decoded(&raw[4..], &frame);
    assert_eq!(observed.channel(), 9);
    assert_eq!(observed.bytes(), raw);
    assert_eq!(observed.payload(), [0x42]);
    assert!(matches!(
        observed.performative(),
        Some(Performative::Transfer(_))
    ));
    let decoded = IncomingFrame::decode(raw.to_vec(), |body| {
        assert_eq!(body, &raw[4..]);
        Some(frame)
    })
    .unwrap();
    assert_eq!(decoded.bytes(), raw);
    assert_eq!(decoded.payload(), [0x42]);
}

#[test]
fn only_exact_frames_are_decoded() {
    let empty = |_: &[u8]| {
        Some(Frame {
            channel: 1,
            body: FrameBody::Empty,
        })
    };
    let heartbeat = vec![0, 0, 0, 8, 2, 0, 0, 1];
    let observed = IncomingFrame::decode(heartbeat.clone(), empty).unwrap();
    assert!(observed.performative().is_none());
    assert!(observed.payload().is_empty());
    assert_eq!(observed.bytes(), heartbeat);
    assert!(IncomingFrame::decode(heartbeat.clone(), |_| None).is_err());
    for wrong in [
        vec![],
        vec![0, 0, 0, 7, 2, 0, 0],
        vec![0, 0, 0, 9, 2, 0, 0, 1],
        vec![1, 0, 0, 8, 2, 0, 0, 1],
    ] {
        assert!(IncomingFrame::decode(wrong, |_| panic!("not framed")).is_err());
    }
    let close = IncomingFrame::decode(heartbeat, |_| {
        Some(Frame {
            channel: 1,
            body: FrameBody::Close(Arc::new(Close { error: None })),
        })
    })
    .unwrap();
    assert!(matches!(close.performative(), Some(Performative::Close(_))));
    assert!(close.payload().is_empty());
}
