//! The session: windows, links, deliveries and its states.

use amqp_engine::definitions::{
    Binary, DeliveryState, Error, Handle, IncomingChannel, InputHandle, OutgoingChannel,
    OutputHandle, ReceiverSettleMode, Role, SenderSettleMode,
};
use amqp_engine::errors::{
    connection_stop_reason_or_closed, AllocLinkError, AllocTxnIdError, ConnectionStopReason,
    LinkRelayError, SessionInnerError, SessionStateError, SessionStopReason, TransactionError,
};
use amqp_engine::frame::{LinkFrame, SessionFrame, SessionFrameBody, SessionOutgoingItem};
use amqp_engine::performatives::{
    Attach, Begin, Detach, Disposition, End, Flow, LinkFlow, Transfer,
};
use amqp_engine::receiver_delivery::ReceiverDelivery;
use amqp_engine::relay::{LinkRelay, UnsettledMessage};
use amqp_engine::session::{
    consecutive_chunk_indices, num_messages_settled_by_disposition, Builder, Session, SessionState,
    DEFAULT_WINDOW,
};
use amqp_engine::session_state::{link_incoming_capacity, session_stopped};
use amqp_engine::unsettled_store::{Store, UnsettledMap};

fn mapped_session() -> Session {
    Builder::new()
        .incoming_window(DEFAULT_WINDOW)
        .outgoing_window(DEFAULT_WINDOW)
        .into_session(OutgoingChannel(0), SessionState::Mapped)
}

fn transfer() -> Transfer {
    Transfer::new(Handle(0), 0, Binary::new(vec![0x55]), 0)
}

fn receiver_relay(mode: ReceiverSettleMode) -> LinkRelay<OutputHandle> {
    LinkRelay::new_receiver(Store::new(None), mode).with_output_handle(OutputHandle(0))
}

/// A sender that waits for the outcome of deliveries with these tags.
fn sender_relay(mode: ReceiverSettleMode, tags: &[u8]) -> LinkRelay<OutputHandle> {
    let mut messages = UnsettledMap::new();
    for tag in tags {
        messages.insert(
            Binary::new(vec![*tag]),
            UnsettledMessage::new(Vec::new(), None, 0, *tag as u64),
        );
    }
    let mut relay =
        LinkRelay::new_sender(Store::new(Some(messages))).with_output_handle(OutputHandle(0));
    if let LinkRelay::Sender {
        receiver_settle_mode,
        ..
    } = &mut relay
    {
        *receiver_settle_mode = mode;
    }
    relay
}

fn unsettled_len(session: &Session, handle: u32) -> usize {
    match session.link_by_input_handle.get(&handle) {
        Some(LinkRelay::Receiver { unsettled, .. }) => {
            unsettled.read().as_ref().map_or(0, |map| map.len())
        }
        Some(LinkRelay::Sender { unsettled, .. }) => {
            unsettled.read().as_ref().map_or(0, |map| map.len())
        }
        None => panic!("no link"),
    }
}

fn session_flow(item: Option<SessionOutgoingItem>) -> Option<Flow> {
    match item {
        Some(SessionOutgoingItem::SingleFrame(SessionFrame {
            body: SessionFrameBody::Flow(flow),
            ..
        })) => Some(flow),
        _ => None,
    }
}

fn attach(name: &str, handle: u32) -> Attach {
    Attach {
        name: name.to_string(),
        handle: Handle(handle),
        role: Role::Receiver,
        snd_settle_mode: SenderSettleMode::Mixed,
        rcv_settle_mode: ReceiverSettleMode::Second,
        source: None,
        target: None,
        unsettled: None,
        incomplete_unsettled: false,
        initial_delivery_count: None,
        max_message_size: None,
        offered_capabilities: None,
        desired_capabilities: None,
        properties: None,
    }
}

fn wire_error() -> Error {
    Error {
        condition: Binary::from_text("amqp:internal-error"),
        description: None,
        info: None,
    }
}

fn peer_flow(next_incoming_id: Option<u32>, incoming_window: u32) -> Flow {
    Flow {
        next_incoming_id,
        incoming_window,
        next_outgoing_id: 0,
        outgoing_window: 8,
        handle: None,
        delivery_count: None,
        link_credit: None,
        available: None,
        drain: false,
        echo: false,
        properties: None,
    }
}

#[test]
fn peer_disposition_ranges_visit_only_live_ids_and_cover_serial_wrap() {
    let mut session = mapped_session();
    for id in [0, 1, 4, u32::MAX - 1, u32::MAX] {
        session
            .incoming_deliveries
            .insert(id, (InputHandle(0), Binary::new(vec![1])));
    }
    session
        .outgoing_deliveries
        .insert(0, (InputHandle(0), Binary::new(vec![2])));
    let mut frame = Disposition {
        role: Role::Sender,
        first: u32::MAX - 1,
        last: Some(1),
        settled: true,
        state: None,
        batchable: false,
    };
    session.on_incoming_disposition(frame.clone()).unwrap();
    assert_eq!(
        session.incoming_deliveries.len() + session.outgoing_deliveries.len(),
        2
    );
    assert!(session.incoming_deliveries.contains_key(&4));
    assert!(session.outgoing_deliveries.contains_key(&0));
    // The peer names all of the numbers there are.
    frame.first = 0;
    frame.last = Some(u32::MAX);
    session.on_incoming_disposition(frame).unwrap();
    assert_eq!(
        session.incoming_deliveries.len() + session.outgoing_deliveries.len(),
        1
    );
}

#[test]
fn unread_transfers_hold_session_window_but_do_not_block_settlement() {
    let mut session = Builder::new()
        .incoming_window(4)
        .into_session(OutgoingChannel(0), SessionState::Mapped);
    let mut inbox = Vec::new();
    session
        .link_by_input_handle
        .insert(0, receiver_relay(ReceiverSettleMode::Second));
    for id in 0..4 {
        let mut transfer = transfer();
        transfer.delivery_id = Some(id);
        transfer.delivery_tag = Some(Binary::new(vec![id as u8]));
        let forwarded = session.on_incoming_transfer(transfer, Vec::new()).unwrap();
        inbox.push(forwarded.frame);
        assert!(session
            .transfer_delivered(InputHandle(0), forwarded.identity)
            .unwrap()
            .is_none());
        assert!(session.maybe_outgoing_session_flow().is_none());
    }
    assert_eq!(session.receive_window.available(), 0);
    assert_eq!(session.incoming_deliveries.len(), 4);
    session
        .on_incoming_disposition(Disposition {
            role: Role::Sender,
            first: 0,
            last: Some(3),
            settled: true,
            state: None,
            batchable: false,
        })
        .unwrap();
    assert_eq!(unsettled_len(&session, 0), 0);
    assert_eq!(
        session.receive_window.available(),
        0,
        "settlement is not frame consumption"
    );
    let mut slots = Vec::new();
    for frame in inbox {
        match frame {
            LinkFrame::Transfer { window_slot, .. } => slots.push(window_slot.unwrap()),
            _ => panic!("only transfers were forwarded"),
        }
    }
    assert_eq!(
        session.receive_window.available(),
        0,
        "dequeue alone must retain the slot during processing"
    );
    session.receive_window.release(slots.pop().unwrap());
    assert_eq!(session.receive_window.available(), 1);
    assert!(session.maybe_outgoing_session_flow().is_none());
    session.receive_window.release(slots.pop().unwrap());
    let Some(flow) = session_flow(session.maybe_outgoing_session_flow()) else {
        panic!("consumption must reopen window")
    };
    assert_eq!(flow.incoming_window, 2);
    assert_eq!(flow.next_incoming_id, Some(4));
    for slot in slots {
        session.receive_window.release(slot);
    }
    assert_eq!(
        session.receive_window.available(),
        4,
        "closing a child releases its queued slots"
    );
}

#[test]
fn excess_transfer_is_rejected_without_creating_an_unsettled_identity() {
    let mut session = Builder::new()
        .incoming_window(0)
        .into_session(OutgoingChannel(0), SessionState::Mapped);
    assert!(matches!(
        session.on_incoming_transfer(transfer(), Vec::new()),
        Err(SessionInnerError::WindowViolation)
    ));
    assert!(session.incoming_deliveries.is_empty());
    assert!(session.outgoing_deliveries.is_empty());
    assert_eq!(session.receive_window.available(), 0);
}

#[test]
fn peer_window_accounts_for_in_flight_transfers_across_sequence_wrap() {
    let mut session = mapped_session();
    session.next_outgoing_id = 1;
    session
        .on_incoming_flow_inner(peer_flow(Some(u32::MAX - 1), 8))
        .unwrap();
    assert_eq!(session.remote_incoming_window, 5);
    session
        .on_incoming_flow_inner(peer_flow(Some(u32::MAX - 1), 2))
        .unwrap();
    assert_eq!(session.remote_incoming_window, 0);
    session
        .on_incoming_flow_inner(peer_flow(Some(1), 2))
        .unwrap();
    assert_eq!(session.remote_incoming_window, 2);
    // Where the peer tells nothing, it has seen nothing.
    session.on_incoming_flow_inner(peer_flow(None, 8)).unwrap();
    assert_eq!(session.remote_incoming_window, 7);
}

#[test]
fn number_of_message_settled_by_disposition() {
    let first = 1;
    let last = Some(3);
    let count = num_messages_settled_by_disposition(first, last);
    assert_eq!(count, 3);

    let first = 1;
    let last = None;
    let count = num_messages_settled_by_disposition(first, last);
    assert_eq!(count, 1);

    // This should be impossible as the Link will sort the delivery_ids first
    let first = 3;
    let last = Some(1);
    let count = num_messages_settled_by_disposition(first, last);
    assert_eq!(count, 1);
}

#[test]
fn maybe_outgoing_session_flow_fires_at_half_window() {
    let mut session = mapped_session();

    // Below half of the incoming window: no flow is due.
    session.need_flow_count = DEFAULT_WINDOW / 2 - 1;
    assert!(session.maybe_outgoing_session_flow().is_none());

    // At half of the incoming window: a session-only flow is due and the
    // counter is reset.
    session.need_flow_count = DEFAULT_WINDOW / 2;
    let item = session
        .maybe_outgoing_session_flow()
        .expect("session flow should be due");
    let flow = match item {
        SessionOutgoingItem::SingleFrame(SessionFrame {
            body: SessionFrameBody::Flow(flow),
            ..
        }) => flow,
        _ => panic!("expected a single session flow frame"),
    };

    // Session-only flow: no link handle and no link fields.
    assert!(flow.handle.is_none());
    assert!(flow.delivery_count.is_none());
    assert!(flow.link_credit.is_none());

    // The session window is re-advertised from the current session state.
    assert_eq!(flow.next_incoming_id, Some(session.next_incoming_id));
    assert_eq!(flow.incoming_window, session.incoming_window);
    assert_eq!(flow.next_outgoing_id, session.next_outgoing_id);
    assert_eq!(flow.outgoing_window, session.outgoing_window);

    // The counter must be reset after the flow is emitted, so no flow is
    // due immediately after.
    assert_eq!(session.need_flow_count, 0);
    assert!(session.maybe_outgoing_session_flow().is_none());
}

#[test]
fn maybe_outgoing_session_flow_skips_when_not_mapped() {
    let mut session = mapped_session();
    session.local_state = SessionState::EndSent;
    session.need_flow_count = u32::MAX;

    assert!(session.maybe_outgoing_session_flow().is_none());
}

#[test]
fn a_window_of_one_is_told_at_every_release() {
    let mut session = Builder::new()
        .incoming_window(1)
        .into_session(OutgoingChannel(0), SessionState::Mapped);
    let slot = session.receive_window.reserve().unwrap();
    assert!(session.maybe_outgoing_session_flow().is_none());
    session.receive_window.release(slot);
    assert_eq!(
        session_flow(session.maybe_outgoing_session_flow()).map(|flow| flow.incoming_window),
        Some(1)
    );
}

#[test]
fn transfers_wait_in_order_and_none_overtakes() {
    let mut session = mapped_session();
    session.next_outgoing_id = u32::MAX;
    let send = |session: &mut Session, tag: u8| {
        let mut transfer = transfer();
        transfer.delivery_id = None;
        transfer.delivery_tag = Some(Binary::new(vec![tag]));
        session
            .on_outgoing_transfer(InputHandle(7), transfer, vec![tag], None)
            .unwrap()
    };
    for tag in 0..3 {
        assert!(send(&mut session, tag).is_none());
    }
    session.remote_incoming_window = 2;
    let Some(SessionOutgoingItem::MultipleFrames(frames)) = send(&mut session, 3) else {
        panic!("frames were waiting")
    };
    let sent: Vec<(Option<u32>, Vec<u8>)> = frames
        .into_iter()
        .map(|frame| match frame.body {
            SessionFrameBody::Transfer {
                performative,
                payload,
            } => (performative.delivery_id, payload),
            _ => panic!("only transfers were waiting"),
        })
        .collect();
    assert_eq!(sent, [(Some(u32::MAX), vec![0]), (Some(0), vec![1])]);
    assert_eq!(session.remote_incoming_window, 0);
    assert_eq!(session.remote_incoming_window_exhausted_buffer.len(), 2);
    assert_eq!(
        session.outgoing_deliveries.get(&u32::MAX),
        Some(&(InputHandle(7), Binary::new(vec![0])))
    );
    // A flow of the peer lets the rest out behind the answer of the link.
    session
        .on_incoming_flow_inner(peer_flow(Some(1), 5))
        .unwrap();
    let reply = LinkFlow {
        handle: Handle(7),
        delivery_count: Some(4),
        link_credit: Some(1),
        available: None,
        drain: false,
        echo: false,
        properties: None,
    };
    let Some(SessionOutgoingItem::MultipleFrames(frames)) = session.on_incoming_flow(Some(reply))
    else {
        panic!("the link answers and transfers follow")
    };
    assert_eq!(frames.len(), 3);
    assert!(matches!(frames[0].body, SessionFrameBody::Flow(_)));
    assert_eq!(session.remote_incoming_window, 3);
    assert!(session.on_incoming_flow(None).is_none());
    // Now a transfer goes out by itself. A settled one is not tracked.
    let mut settled = transfer();
    settled.settled = Some(true);
    assert!(matches!(
        session
            .on_outgoing_transfer(InputHandle(7), settled, Vec::new(), None)
            .unwrap(),
        Some(SessionOutgoingItem::SingleFrame(_))
    ));
    assert_eq!(session.outgoing_deliveries.len(), 4);
}

#[test]
fn flows_are_routed_to_attached_links_only() {
    let mut session = mapped_session();
    session
        .link_by_input_handle
        .insert(3, sender_relay(ReceiverSettleMode::First, &[]));
    let mut flow = peer_flow(Some(0), 8);
    flow.handle = Some(Handle(3));
    flow.link_credit = Some(5);
    let routed = session.on_incoming_flow_inner(flow).unwrap().unwrap();
    assert_eq!(routed.input_handle, InputHandle(3));
    assert_eq!(routed.flow.link_credit, Some(5));
    assert!(routed.acquisition.is_none());
    let mut stray = peer_flow(Some(0), 9);
    stray.handle = Some(Handle(4));
    assert!(matches!(
        session.on_incoming_flow_inner(stray),
        Err(SessionInnerError::UnattachedHandle)
    ));
    assert_eq!(session.remote_incoming_window, 9);
}

#[test]
fn runs_of_outcomes_are_answered_in_numeric_order() {
    let mut session = mapped_session();
    session.link_by_input_handle.insert(
        0,
        sender_relay(ReceiverSettleMode::Second, &[0, 1, 2, 3, 4, 5]),
    );
    for (id, tag) in [(0, 0), (1, 1), (2, 2), (5, 3), (6, 4), (u32::MAX, 5)] {
        session
            .outgoing_deliveries
            .insert(id, (InputHandle(0), Binary::new(vec![tag])));
    }
    let reply = session
        .on_incoming_disposition(Disposition {
            role: Role::Receiver,
            first: u32::MAX,
            last: Some(6),
            settled: false,
            state: Some(DeliveryState::Accepted),
            batchable: false,
        })
        .unwrap();
    // The outcomes are reported in serial order, the answers given in numeric order.
    let replies: Vec<u64> = reply.settled.iter().map(|settled| settled.reply).collect();
    assert_eq!(replies, [5, 0, 1, 2, 3, 4]);
    let answers: Vec<(u32, Option<u32>, bool)> = reply
        .dispositions
        .unwrap()
        .iter()
        .map(|answer| (answer.first, answer.last, answer.settled))
        .collect();
    assert_eq!(
        answers,
        [
            (0, Some(2), true),
            (5, Some(6), true),
            (u32::MAX, Some(u32::MAX), true)
        ]
    );
    assert_eq!(unsettled_len(&session, 0), 0);
    assert_eq!(session.outgoing_deliveries.len(), 6);
}

#[test]
fn one_outcome_alone_is_answered() {
    let mut session = mapped_session();
    session
        .link_by_input_handle
        .insert(0, sender_relay(ReceiverSettleMode::Second, &[1]));
    session
        .link_by_input_handle
        .insert(1, sender_relay(ReceiverSettleMode::First, &[2]));
    session
        .outgoing_deliveries
        .insert(5, (InputHandle(0), Binary::new(vec![1])));
    session
        .outgoing_deliveries
        .insert(6, (InputHandle(1), Binary::new(vec![2])));
    let reply = session
        .on_incoming_disposition(Disposition {
            role: Role::Receiver,
            first: 5,
            last: Some(6),
            settled: false,
            state: Some(DeliveryState::Accepted),
            batchable: false,
        })
        .unwrap();
    assert_eq!(reply.settled.len(), 2);
    let answers = reply.dispositions.unwrap();
    assert_eq!(answers.len(), 1);
    assert_eq!((answers[0].first, answers[0].last), (5, Some(5)));
    assert!(matches!(answers[0].role, Role::Sender));
    assert!(matches!(answers[0].state, Some(DeliveryState::Accepted)));
    assert!(answers[0].settled && !answers[0].batchable);
}

#[test]
fn chunks_start_where_numbers_are_not_consecutive() {
    assert_eq!(consecutive_chunk_indices(&[0, 1, 2, 3, 5, 6, 8, 9, 11]), [4, 6, 8]);
    assert!(consecutive_chunk_indices(&[]).is_empty());
    assert!(consecutive_chunk_indices(&[7]).is_empty());
    assert_eq!(consecutive_chunk_indices(&[4, 4]), [1]);
}

#[test]
fn outgoing_dispositions_reopen_the_window_by_what_they_settle() {
    let mut session = mapped_session();
    let disposition = |state, last| Disposition {
        role: Role::Receiver,
        first: 2,
        last,
        settled: true,
        state,
        batchable: false,
    };
    let frame = session
        .on_outgoing_disposition(disposition(Some(DeliveryState::Accepted), Some(4)))
        .unwrap();
    assert!(matches!(frame.body, SessionFrameBody::Disposition(_)));
    assert_eq!(session.remote_outgoing_window, 3);
    session
        .on_outgoing_disposition(disposition(None, Some(4)))
        .unwrap();
    assert_eq!(session.remote_outgoing_window, 3);
    session.remote_outgoing_window = u32::MAX - 1;
    session
        .on_outgoing_disposition(disposition(Some(DeliveryState::Released), Some(9)))
        .unwrap();
    assert_eq!(session.remote_outgoing_window, u32::MAX);
}

#[test]
fn links_get_the_lowest_free_handle_and_keep_their_name_until_it_is_freed() {
    let mut session = mapped_session();
    let relay = || LinkRelay::new_receiver(Store::new(None), ReceiverSettleMode::First);
    for (at, name) in ["a", "b", "c"].iter().enumerate() {
        assert_eq!(
            session.allocate_link(name.to_string(), Some(relay())),
            Ok(OutputHandle(at as u32))
        );
    }
    assert_eq!(
        session.allocate_link("b".to_string(), None),
        Err(AllocLinkError::DuplicatedLinkName)
    );
    assert!(session.deallocate_link(OutputHandle(1)));
    assert!(!session.deallocate_link(OutputHandle(1)));
    assert!(!session.deallocate_link(OutputHandle(77)));
    assert_eq!(
        session.allocate_incoming_link("b".to_string(), relay(), InputHandle(9)),
        Ok(OutputHandle(1))
    );
    assert_eq!(
        session
            .link_by_input_handle
            .get(&9)
            .map(|relay| relay.output_handle()),
        Some(OutputHandle(1))
    );
    assert_eq!(
        session.allocate_link("d".to_string(), None),
        Ok(OutputHandle(3))
    );
}

#[test]
fn each_allocation_error_has_its_state() {
    for (state, error) in [
        (SessionState::Unmapped, AllocLinkError::SessionNotMapped),
        (SessionState::BeginSent, AllocLinkError::SessionNotMapped),
        (SessionState::BeginReceived, AllocLinkError::SessionNotMapped),
        (
            SessionState::EndSent,
            AllocLinkError::SessionStopped(SessionStopReason::Ended),
        ),
        (
            SessionState::EndReceived,
            AllocLinkError::SessionStopped(SessionStopReason::Ended),
        ),
        (
            SessionState::Discarding,
            AllocLinkError::SessionStopped(SessionStopReason::Ended),
        ),
    ] {
        let mut session = Builder::new().into_session(OutgoingChannel(0), state);
        assert_eq!(session.allocate_link("a".to_string(), None), Err(error));
        session.set_session_stop_reason(SessionStopReason::Stopped);
        session.set_session_stop_reason(SessionStopReason::Ended);
        assert_eq!(
            session.allocate_link("a".to_string(), None),
            Err(AllocLinkError::SessionStopped(SessionStopReason::Stopped))
        );
    }
}

#[test]
fn an_attach_moves_the_link_to_its_input_handle() {
    let mut session = mapped_session();
    session
        .allocate_link(
            "a".to_string(),
            Some(LinkRelay::new_sender(Store::new(None))),
        )
        .unwrap();
    assert!(matches!(
        session.on_incoming_attach(attach("b", 5)),
        Err(SessionInnerError::RemoteAttachingLinkNameNotFound)
    ));
    let pending = session.on_incoming_attach(attach("a", 5)).unwrap();
    assert_eq!(pending.input_handle, InputHandle(5));
    assert!(matches!(pending.frame, LinkFrame::Attach(_)));
    // The sender answers in the mode of its peer.
    assert!(matches!(
        pending.relay,
        LinkRelay::Sender {
            receiver_settle_mode: ReceiverSettleMode::Second,
            ..
        }
    ));
    assert_eq!(
        session.attach_delivered(pending.input_handle, pending.relay, true),
        Ok(())
    );
    assert!(session.link_by_input_handle.contains_key(&5));
    assert!(matches!(
        session.on_incoming_attach(attach("a", 6)),
        Err(SessionInnerError::HandleInUse)
    ));
}

#[test]
fn an_attach_that_nobody_takes_is_unattached() {
    let mut session = mapped_session();
    session
        .allocate_link(
            "a".to_string(),
            Some(LinkRelay::new_sender(Store::new(None))),
        )
        .unwrap();
    let pending = session.on_incoming_attach(attach("a", 5)).unwrap();
    assert_eq!(
        session.attach_delivered(pending.input_handle, pending.relay, false),
        Err(SessionInnerError::UnattachedHandle)
    );
    assert!(session.link_by_input_handle.is_empty());
}

#[test]
fn detaches_are_answered_once_and_release_the_link() {
    let mut session = mapped_session();
    let detach = |handle| Detach {
        handle: Handle(handle),
        closed: true,
        error: None,
    };
    let relay = LinkRelay::new_receiver(Store::new(None), ReceiverSettleMode::First);
    session
        .allocate_incoming_link("a".to_string(), relay, InputHandle(5))
        .unwrap();
    // The link closes itself and awaits the answer.
    assert!(session.on_outgoing_detach(detach(0), true).is_some());
    assert!(session.close_pending.contains(&0));
    let link = session.on_incoming_detach(detach(5)).unwrap();
    assert!(!link.remote_initiated);
    assert!(link.reply(true).is_none());
    assert!(matches!(link.frame, LinkFrame::Detach(_)));
    assert!(session.close_pending.is_empty());
    // What comes later names no link.
    assert!(session.on_incoming_detach(detach(5)).is_none());
    // Both sides close at once: the second detach is suppressed.
    let relay = LinkRelay::new_receiver(Store::new(None), ReceiverSettleMode::First);
    session
        .allocate_incoming_link("a".to_string(), relay, InputHandle(6))
        .unwrap();
    let link = session.on_incoming_detach(detach(6)).unwrap();
    assert!(link.remote_initiated);
    match link.reply(false) {
        Some(reply) => {
            assert_eq!(reply.handle, Handle(0));
            assert!(!reply.closed && reply.error.is_none());
        }
        None => panic!("an answer is due"),
    }
    assert!(session.on_outgoing_detach(detach(0), false).is_some());
    assert!(session.on_outgoing_detach(detach(0), true).is_none());
    assert!(session.close_pending.is_empty());
}

#[test]
fn transfers_to_no_link_or_to_a_sender_are_refused_and_give_their_slot_back() {
    let mut session = Builder::new()
        .incoming_window(2)
        .into_session(OutgoingChannel(0), SessionState::Mapped);
    session.remote_outgoing_window = 1;
    assert!(matches!(
        session.on_incoming_transfer(transfer(), Vec::new()),
        Err(SessionInnerError::UnattachedHandle)
    ));
    assert_eq!(session.next_incoming_id, 1);
    assert_eq!(session.remote_outgoing_window, 0);
    assert_eq!(session.receive_window.available(), 2);
    session
        .link_by_input_handle
        .insert(0, sender_relay(ReceiverSettleMode::First, &[]));
    assert!(matches!(
        session.on_incoming_transfer(transfer(), Vec::new()),
        Err(SessionInnerError::TransferFrameToSender)
    ));
    session
        .link_by_input_handle
        .insert(0, receiver_relay(ReceiverSettleMode::First));
    let mut anonymous = transfer();
    anonymous.delivery_id = None;
    assert!(matches!(
        session.on_incoming_transfer(anonymous, Vec::new()),
        Err(SessionInnerError::InvalidTransfer)
    ));
    assert_eq!(session.receive_window.available(), 2);
    let forwarded = session.on_incoming_transfer(transfer(), Vec::new()).unwrap();
    assert_eq!(session.receive_window.available(), 1);
    assert_eq!(
        session.transfer_undelivered(forwarded.frame),
        SessionInnerError::UnattachedHandle
    );
    assert_eq!(session.receive_window.available(), 2);
    assert_eq!(
        SessionInnerError::from(LinkRelayError::InvalidTransfer),
        SessionInnerError::InvalidTransfer
    );
}

#[test]
fn dispositions_of_peers_change_only_what_they_name() {
    let mut session = mapped_session();
    let mut map = UnsettledMap::new();
    map.insert(Binary::new(vec![1]), ReceiverDelivery::new(None));
    let relay = LinkRelay::new_receiver(Store::new(Some(map)), ReceiverSettleMode::Second)
        .with_output_handle(OutputHandle(0));
    session.link_by_input_handle.insert(0, relay);
    session
        .incoming_deliveries
        .insert(9, (InputHandle(0), Binary::new(vec![1])));
    let reply = session
        .on_incoming_disposition(Disposition {
            role: Role::Sender,
            first: 9,
            last: None,
            settled: false,
            state: Some(DeliveryState::Released),
            batchable: false,
        })
        .unwrap();
    assert_eq!(reply.dispositions.map(|answers| answers.len()), Some(0));
    assert!(reply.settled.is_empty());
    assert!(session.incoming_deliveries.contains_key(&9));
    match session.link_by_input_handle.get(&0) {
        Some(LinkRelay::Receiver { unsettled, .. }) => {
            let map = unsettled.read().as_ref().unwrap();
            let entry = map.get(&Binary::new(vec![1])).unwrap();
            assert!(matches!(entry.remote, Some(DeliveryState::Released)));
            assert!(entry.local.is_none());
        }
        _ => panic!("the link is a receiver"),
    }
}

#[test]
fn the_begin_handshake_maps_the_session_from_either_side() {
    let begin = || Begin {
        remote_channel: None,
        next_outgoing_id: 11,
        incoming_window: 12,
        outgoing_window: 13,
        handle_max: Handle(1),
        offered_capabilities: None,
        desired_capabilities: None,
        properties: None,
    };
    let mut session = Builder::new()
        .incoming_window(6)
        .outgoing_window(7)
        .handle_max(Handle(8))
        .into_session(OutgoingChannel(3), SessionState::Unmapped);
    let frame = session.send_begin().unwrap();
    assert_eq!(frame.channel, OutgoingChannel(3));
    match frame.body {
        SessionFrameBody::Begin(begin) => {
            assert_eq!(begin.remote_channel, None);
            assert_eq!(begin.next_outgoing_id, 0);
            assert_eq!((begin.incoming_window, begin.outgoing_window), (6, 7));
            assert_eq!(begin.handle_max, Handle(8));
        }
        _ => panic!("a begin is due"),
    }
    session.begin_sent(true).unwrap();
    assert_eq!(session.local_state, SessionState::BeginSent);
    assert!(matches!(
        session.send_begin(),
        Err(SessionStateError::IllegalState)
    ));
    session
        .on_incoming_begin(IncomingChannel(4), begin())
        .unwrap();
    assert_eq!(session.local_state, SessionState::Mapped);
    assert_eq!(session.incoming_channel, Some(IncomingChannel(4)));
    assert_eq!(session.next_incoming_id, 11);
    assert_eq!(session.remote_incoming_window, 12);
    assert_eq!(session.remote_outgoing_window, 13);
    assert!(matches!(
        session.on_incoming_begin(IncomingChannel(4), begin()),
        Err(SessionStateError::IllegalState)
    ));

    let mut session = Builder::new().into_session(OutgoingChannel(3), SessionState::Unmapped);
    session
        .on_incoming_begin(IncomingChannel(4), begin())
        .unwrap();
    assert_eq!(session.local_state, SessionState::BeginReceived);
    match session.send_begin().unwrap().body {
        SessionFrameBody::Begin(begin) => assert_eq!(begin.remote_channel, Some(4)),
        _ => panic!("a begin is due"),
    }
    assert!(matches!(
        session.begin_sent(false),
        Err(SessionStateError::ConnectionStopped(
            ConnectionStopReason::Closed
        ))
    ));
    assert_eq!(session.local_state, SessionState::BeginReceived);
    session.begin_sent(true).unwrap();
    assert_eq!(session.local_state, SessionState::Mapped);
}

#[test]
fn the_end_handshake_unmaps_the_session_from_either_side() {
    let mut session = mapped_session();
    assert!(matches!(
        session.on_incoming_end(IncomingChannel(0), End { error: None }),
        Err(SessionStateError::RemoteEnded)
    ));
    assert_eq!(session.local_state, SessionState::EndReceived);
    assert!(matches!(
        session.send_end(None).unwrap().body,
        SessionFrameBody::End(End { error: None })
    ));
    assert_eq!(session.local_state, SessionState::Unmapped);
    session.connection_stop_reason = Some(ConnectionStopReason::TransportFailed);
    assert!(matches!(
        session.end_sent(false),
        Err(SessionStateError::ConnectionStopped(
            ConnectionStopReason::TransportFailed
        ))
    ));
    assert!(matches!(
        session.send_end(None),
        Err(SessionStateError::IllegalState)
    ));

    let mut session = mapped_session();
    session.send_end(None).unwrap();
    session.end_sent(true).unwrap();
    assert_eq!(session.local_state, SessionState::EndSent);
    session
        .on_incoming_end(IncomingChannel(0), End { error: None })
        .unwrap();
    assert_eq!(session.local_state, SessionState::Unmapped);
    assert!(matches!(
        session.on_incoming_end(IncomingChannel(0), End { error: None }),
        Err(SessionStateError::IllegalState)
    ));

    let mut session = mapped_session();
    session.send_end(Some(wire_error())).unwrap();
    assert_eq!(session.local_state, SessionState::Discarding);
    assert!(matches!(
        session.on_incoming_end(
            IncomingChannel(0),
            End {
                error: Some(wire_error())
            }
        ),
        Err(SessionStateError::RemoteEndedWithError(_))
    ));
    assert_eq!(session.local_state, SessionState::Unmapped);
    let mut session = mapped_session();
    assert!(matches!(
        session.on_incoming_end(
            IncomingChannel(0),
            End {
                error: Some(wire_error())
            }
        ),
        Err(SessionStateError::RemoteEndedWithError(_))
    ));
}

#[test]
fn link_inboxes_take_every_promised_transfer_and_two_controls() {
    assert_eq!(link_incoming_capacity(Some(4), 1, None), Ok(6));
    assert_eq!(link_incoming_capacity(Some(4), 64, None), Ok(64));
    assert_eq!(
        link_incoming_capacity(Some(4), tokio::sync::Semaphore::MAX_PERMITS, None),
        Ok(tokio::sync::Semaphore::MAX_PERMITS)
    );
    assert_eq!(
        link_incoming_capacity(Some(4), tokio::sync::Semaphore::MAX_PERMITS + 1, None),
        Err(AllocLinkError::NativeBufferTooLarge)
    );
    assert_eq!(
        link_incoming_capacity(None, 1, None),
        Err(AllocLinkError::SessionStopped(SessionStopReason::Ended))
    );
    assert_eq!(
        link_incoming_capacity(None, 1, Some(SessionStopReason::Stopped)),
        Err(AllocLinkError::SessionStopped(SessionStopReason::Stopped))
    );
    assert_eq!(
        session_stopped(Some(SessionStopReason::ConnectionStopped(
            ConnectionStopReason::Stopped
        ))),
        AllocLinkError::SessionStopped(SessionStopReason::ConnectionStopped(
            ConnectionStopReason::Stopped
        ))
    );
    assert_eq!(
        connection_stop_reason_or_closed(None),
        ConnectionStopReason::Closed
    );
}

#[test]
fn a_plain_session_is_no_transactional_resource() {
    let mut session = mapped_session();
    assert_eq!(
        session.allocate_transaction_id(),
        Err(AllocTxnIdError::NotImplemented)
    );
    assert_eq!(
        session.commit_transaction(Binary::new(vec![1])),
        Ok(Err(TransactionError::UnknownId))
    );
    assert_eq!(
        session.rollback_transaction(Binary::new(vec![1])),
        Ok(Err(TransactionError::UnknownId))
    );
}

#[test]
fn attaches_and_flows_of_links_go_out_on_the_channel_of_the_session() {
    let mut session = Builder::new()
        .incoming_window(6)
        .into_session(OutgoingChannel(5), SessionState::Mapped);
    session.next_incoming_id = 9;
    let frame = session.on_outgoing_attach(attach("a", 1)).unwrap();
    assert_eq!(frame.channel, OutgoingChannel(5));
    assert!(matches!(frame.body, SessionFrameBody::Attach(_)));
    let frame = session
        .on_outgoing_flow(LinkFlow {
            handle: Handle(1),
            delivery_count: Some(2),
            link_credit: Some(3),
            available: Some(4),
            drain: true,
            echo: true,
            properties: None,
        })
        .unwrap();
    match frame.body {
        SessionFrameBody::Flow(flow) => {
            assert_eq!(flow.next_incoming_id, Some(9));
            assert_eq!(flow.incoming_window, 6);
            assert_eq!(flow.handle, Some(Handle(1)));
            assert_eq!(flow.delivery_count, Some(2));
            assert_eq!((flow.link_credit, flow.available), (Some(3), Some(4)));
            assert!(flow.drain && flow.echo);
        }
        _ => panic!("a flow is due"),
    }
}
