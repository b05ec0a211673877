//! The receiving end of a link: attaching, receiving, disposing and detaching.

use std::marker::PhantomData;
use std::sync::Arc;

use amqp_engine::chunks::is_consecutive;
use amqp_engine::codec;
use amqp_engine::definitions::{
    Binary, DeliveryState, Error, Handle, InputHandle, OutputHandle, Received, ReceiverSettleMode,
    Role, SenderSettleMode, Value,
};
use amqp_engine::errors::{
    DetachError, FlowError, ReceiverAttachError, ReceiverTransferError, SendAttachErrorKind,
    SessionStopReason,
};
use amqp_engine::flow_state::LinkFlowState;
use amqp_engine::frame::LinkFrame;
use amqp_engine::link::{
    get_max_message_size, Link, LinkState, ReceiverAttachExchange, SenderAttachExchange,
    DEFAULT_CREDIT,
};
use amqp_engine::ordered_map::OrderedMap;
use amqp_engine::performatives::{
    Attach, Detach, Disposition, LinkFlow, Source, TargetArchetype, Transfer,
};
use amqp_engine::receiver_attach::{
    after_attach_error_sent, expect_attach, handle_attach_error, recv_detach, AttachChecks,
    AttachErrorAction, CloseReply,
};
use amqp_engine::receiver_delivery::{DeliveryInfo, ReceiverDelivery};
use amqp_engine::receiver_link::{
    consecutive_chunk_indices, count_number_of_sections_and_offset, ReceiverLink,
};
use amqp_engine::unsettled_store::{Store, UnsettledMap};

fn transfer() -> Transfer {
    Transfer::new(Handle(0), 0, Binary::new(vec![0x55]), 0)
}

fn source(name: &str) -> Source {
    Source {
        encoded: Binary::from_text(name),
    }
}

fn receiver(name: &str, mode: ReceiverSettleMode, credit: u32) -> ReceiverLink {
    Link {
        role: PhantomData,
        local_state: LinkState::Unattached,
        name: name.to_string(),
        output_handle: Some(OutputHandle(0)),
        input_handle: None,
        snd_settle_mode: SenderSettleMode::Mixed,
        rcv_settle_mode: mode,
        source: Some(source("source")),
        target: Some(TargetArchetype::Target(Binary::from_text("target"))),
        max_message_size: 0,
        offered_capabilities: None,
        desired_capabilities: None,
        flow_state: LinkFlowState {
            initial_delivery_count: 0,
            delivery_count: 0,
            link_credit: credit,
            available: 0,
            drain: false,
            properties: None,
        },
        verify_incoming_source: true,
        verify_incoming_target: true,
    }
}

fn store(tags: &[u8]) -> Store<ReceiverDelivery> {
    let mut map = UnsettledMap::new();
    for tag in tags {
        map.insert(Binary::new(vec![*tag]), ReceiverDelivery::new(None));
    }
    Store::new(Some(map))
}

fn info(id: u32, tag: u8) -> DeliveryInfo {
    DeliveryInfo {
        delivery_id: id,
        delivery_tag: Binary::new(vec![tag]),
        rcv_settle_mode: None,
    }
}

fn wire_error() -> Error {
    Error {
        condition: Binary::from_text("amqp:internal-error"),
        description: None,
        info: None,
    }
}

fn checks() -> AttachChecks {
    AttachChecks {
        source: None,
        target_supported: true,
        target: None,
    }
}

fn peer_attach() -> Attach {
    Attach {
        name: "link".to_string(),
        handle: Handle(4),
        role: Role::Sender,
        snd_settle_mode: SenderSettleMode::Settled,
        rcv_settle_mode: ReceiverSettleMode::First,
        source: Some(source("remote")),
        target: None,
        unsettled: None,
        incomplete_unsettled: false,
        initial_delivery_count: Some(17),
        max_message_size: Some(512),
        offered_capabilities: None,
        desired_capabilities: None,
        properties: None,
    }
}

fn detach(closed: bool, error: Option<Error>) -> Detach {
    Detach {
        handle: Handle(4),
        closed,
        error,
    }
}

fn as_disposition(frame: Option<LinkFrame>) -> Disposition {
    match frame {
        Some(LinkFrame::Disposition(disposition)) => disposition,
        _ => panic!("a disposition is due"),
    }
}

const VALUE: [u8; 4] = [0, 0x53, 0x77, 0x40];

#[test]
fn completed_decode_never_recreates_a_delivery_settled_before_application_read() {
    for settled in [false, true] {
        let mut map = Store::new(None);
        let tag = transfer().delivery_tag.unwrap();
        if !settled {
            map.write()
                .get_or_insert_with(UnsettledMap::new)
                .insert(tag.clone(), ReceiverDelivery::new(None));
        }
        let mut link = receiver("race", ReceiverSettleMode::Second, 4);
        link.local_state = LinkState::Attached;
        let delivery = link
            .on_complete_transfer(&mut map, transfer(), &VALUE, 1, 0, |_| Ok(()))
            .unwrap();
        assert_eq!(&delivery.delivery_tag, &tag);
        assert_eq!(
            map.read().as_ref().is_some_and(|m| m.contains_key(&tag)),
            !settled
        );
    }
}

#[test]
fn recovery_reconciles_only_complete_peer_maps_and_preserves_local_progress() {
    for incomplete in [false, true] {
        let known = Binary::new(vec![1]);
        let absent = Binary::new(vec![2]);
        let unknown = Binary::new(vec![3]);
        let mut local = UnsettledMap::new();
        for tag in [&known, &absent] {
            let mut entry = ReceiverDelivery::new(None);
            entry.received(
                DeliveryState::Received(Received {
                    section_number: 1,
                    section_offset: 0,
                }),
                true,
            );
            local.insert(tag.clone(), entry);
        }
        let mut map = Store::new(Some(local));
        let mut link = receiver("resume", ReceiverSettleMode::First, 1);
        link.local_state = LinkState::Attached;
        let mut peer = OrderedMap::new();
        peer.insert(known.clone(), Some(DeliveryState::Accepted));
        peer.insert(unknown.clone(), None);
        let result = link.handle_unsettled_in_attach(&mut map, Some(peer), incomplete);
        assert_eq!(
            matches!(result, ReceiverAttachExchange::IncompleteUnsettled),
            incomplete
        );
        let local = map.read().as_ref().unwrap();
        assert_eq!(local.contains_key(&absent), incomplete);
        assert!(!local.contains_key(&unknown));
        assert!(local.get(&known).unwrap().received);
        assert!(matches!(
            local.get(&known).unwrap().local,
            Some(DeliveryState::Received(_))
        ));
        assert!(matches!(
            local.get(&known).unwrap().remote,
            Some(DeliveryState::Accepted)
        ));
    }
}

#[test]
fn test_section_numbers() {
    // A durable header, empty delivery annotations, empty message annotations and a true value.
    let buf = [
        0, 0x53, 0x70, 0xc0, 2, 1, 0x41, 0, 0x53, 0x71, 0xc1, 1, 0, 0, 0x53, 0x72, 0xc1, 1, 0, 0,
        0x53, 0x77, 0x41,
    ];
    let (nums, offset) = count_number_of_sections_and_offset(&buf).unwrap();
    assert_eq!((nums, offset), (4, 0));
}

#[test]
fn test_consecutive_chunks() {
    let expected = [vec![0u32, 1, 2, 3], vec![5, 6], vec![8, 9], vec![11]];
    let vals: Vec<u32> = expected.iter().flatten().copied().collect();
    assert_eq!(vals.len() - 1, vals.windows(2).len());

    let inds: Vec<usize> = vals
        .windows(2)
        .enumerate()
        .filter_map(|(i, vals)| {
            if is_consecutive(&vals[0], &vals[1]) {
                None
            } else {
                Some(i + 1)
            }
        })
        .collect();

    let mut prev_ind = 0;
    for i in 0..inds.len() {
        let ind = inds[i];
        let slice = &vals[prev_ind..ind];
        assert_eq!(slice, expected[i]);
        prev_ind = ind;
    }
    let final_slice = &vals[prev_ind..];
    assert_eq!(final_slice, expected.last().unwrap())
}

#[test]
fn runs_of_deliveries_share_their_mode() {
    let mut infos: Vec<DeliveryInfo> = (0..4).map(|id| info(id, id as u8)).collect();
    assert!(consecutive_chunk_indices(&infos).is_empty());
    infos[2].rcv_settle_mode = Some(ReceiverSettleMode::Second);
    assert_eq!(consecutive_chunk_indices(&infos), [2, 3]);
    infos[3].delivery_id = 9;
    infos[3].rcv_settle_mode = Some(ReceiverSettleMode::Second);
    assert_eq!(consecutive_chunk_indices(&infos), [2, 3]);
}

#[test]
fn each_transfer_error_has_an_input() {
    let mut map = store(&[0x55]);
    let mut link = receiver("link", ReceiverSettleMode::First, 9);
    assert!(matches!(
        link.on_complete_transfer(&mut map, transfer(), &VALUE, 1, 0, |_| Ok(())),
        Err(ReceiverTransferError::IllegalState)
    ));
    assert_eq!(link.flow_state.link_credit, 9);
    link.local_state = LinkState::Attached;
    let mut anonymous = transfer();
    anonymous.delivery_id = None;
    assert!(matches!(
        link.on_complete_transfer(&mut map, anonymous, &VALUE, 1, 0, |_| Ok(())),
        Err(ReceiverTransferError::DeliveryIdIsNone)
    ));
    let mut untagged = transfer();
    untagged.delivery_tag = None;
    assert!(matches!(
        link.on_complete_transfer(&mut map, untagged, &VALUE, 1, 0, |_| Ok(())),
        Err(ReceiverTransferError::DeliveryTagIsNone)
    ));
    let mut second = transfer();
    second.rcv_settle_mode = Some(ReceiverSettleMode::Second);
    assert!(matches!(
        link.on_complete_transfer(&mut map, second, &VALUE, 1, 0, |_| Ok(())),
        Err(ReceiverTransferError::IllegalRcvSettleModeInTransfer)
    ));
    // What is no message is never decoded.
    assert!(matches!(
        link.on_complete_transfer::<(), _>(&mut map, transfer(), &[0x41], 1, 0, |_| {
            panic!("not admitted")
        }),
        Err(ReceiverTransferError::MessageDecode(error))
            if error.source == codec::Error::InvalidValue && error.info.delivery_id == 0
    ));
    assert!(matches!(
        link.on_complete_transfer::<(), _>(&mut map, transfer(), &VALUE, 1, 0, |_| {
            Err(codec::Error::Message)
        }),
        Err(ReceiverTransferError::MessageDecode(error)) if error.source == codec::Error::Message
    ));
    // Neither was received completely.
    let entry = map.read().as_ref().unwrap().get(&Binary::new(vec![0x55]));
    assert!(!entry.unwrap().received);
    assert_eq!(link.flow_state.link_credit, 4);
    assert_eq!(link.flow_state.delivery_count, 5);
    link.output_handle = None;
    assert!(matches!(
        link.on_complete_transfer(&mut map, transfer(), &VALUE, 1, 0, |_| Ok(())),
        Err(ReceiverTransferError::IllegalState)
    ));
    link.flow_state.link_credit = 0;
    assert!(matches!(
        link.on_complete_transfer(&mut map, transfer(), &VALUE, 1, 0, |_| Ok(())),
        Err(ReceiverTransferError::TransferLimitExceeded)
    ));
}

#[test]
fn complete_transfers_are_recorded_and_decoded() {
    let mut map = store(&[0x55]);
    let mut link = receiver("link", ReceiverSettleMode::Second, 1);
    link.local_state = LinkState::Attached;
    link.flow_state.delivery_count = u32::MAX;
    let mut incoming = transfer();
    incoming.delivery_id = Some(6);
    incoming.rcv_settle_mode = Some(ReceiverSettleMode::First);
    let delivery = link
        .on_complete_transfer(&mut map, incoming, &VALUE, 1, 0, |bytes| Ok(bytes.to_vec()))
        .unwrap();
    assert_eq!(delivery.message, VALUE);
    assert_eq!(delivery.delivery_id, 6);
    assert_eq!(delivery.message_format, Some(0));
    assert_eq!(delivery.link_output_handle, Handle(0));
    assert_eq!(delivery.rcv_settle_mode, Some(ReceiverSettleMode::First));
    assert_eq!(link.flow_state.delivery_count, 0);
    let entry = map
        .read()
        .as_ref()
        .unwrap()
        .get(&Binary::new(vec![0x55]))
        .unwrap();
    assert!(entry.received);
    assert!(matches!(
        entry.local,
        Some(DeliveryState::Received(Received {
            section_number: 1,
            section_offset: 0
        }))
    ));
    let recorded = entry.info.as_ref().unwrap();
    assert_eq!(recorded.delivery_id, 6);
    assert_eq!(recorded.rcv_settle_mode, Some(ReceiverSettleMode::First));
}

#[test]
fn partial_progress_and_peer_states_are_kept_apart() {
    let mut map = store(&[1]);
    let link = receiver("link", ReceiverSettleMode::First, 0);
    let tag = Binary::new(vec![1]);
    link.on_incomplete_transfer(&mut map, tag.clone(), 2, 3);
    link.on_incomplete_transfer(&mut map, Binary::new(vec![9]), 2, 3);
    link.on_transfer_state(&mut map, &Some(tag.clone()), None, DeliveryState::Accepted)
        .unwrap();
    let entry = map.read().as_ref().unwrap().get(&tag).unwrap();
    assert!(!entry.received);
    assert!(matches!(
        entry.local,
        Some(DeliveryState::Received(Received {
            section_number: 2,
            section_offset: 3
        }))
    ));
    assert!(matches!(entry.remote, Some(DeliveryState::Accepted)));
    assert_eq!(map.read().as_ref().unwrap().len(), 1);
    assert!(matches!(
        link.on_transfer_state(&mut map, &None, None, DeliveryState::Accepted),
        Err(ReceiverTransferError::DeliveryTagIsNone)
    ));
    link.on_transfer_state(&mut map, &Some(tag), Some(true), DeliveryState::Accepted)
        .unwrap();
    assert!(map.read().as_ref().unwrap().is_empty());
    let mut none = Store::new(None);
    link.on_transfer_state(
        &mut none,
        &Some(Binary::new(vec![1])),
        None,
        DeliveryState::Accepted,
    )
    .unwrap();
    assert!(none.read().as_ref().unwrap().is_empty());
}

#[test]
fn disposals_settle_by_mode_and_speak_only_of_live_deliveries() {
    let first = receiver("link", ReceiverSettleMode::First, 0);
    let second = receiver("link", ReceiverSettleMode::Second, 0);
    let mut map = store(&[1, 2]);
    let disposition =
        as_disposition(first.dispose(&mut map, info(7, 1), None, DeliveryState::Accepted, true));
    assert_eq!((disposition.first, disposition.last), (7, None));
    assert!(disposition.settled && disposition.batchable);
    assert!(matches!(disposition.role, Role::Receiver));
    assert!(matches!(disposition.state, Some(DeliveryState::Accepted)));
    assert!(!map.contains(&Binary::new(vec![1])));
    // It is settled now.
    assert!(first
        .dispose(&mut map, info(7, 1), None, DeliveryState::Accepted, true)
        .is_none());
    let disposition =
        as_disposition(second.dispose(&mut map, info(8, 2), None, DeliveryState::Released, false));
    assert!(!disposition.settled);
    let entry = map.read().as_ref().unwrap().get(&Binary::new(vec![2]));
    assert!(matches!(
        entry.unwrap().local,
        Some(DeliveryState::Released)
    ));
    let mut own = info(8, 2);
    own.rcv_settle_mode = Some(ReceiverSettleMode::First);
    assert!(
        as_disposition(second.dispose(&mut map, own, None, DeliveryState::Accepted, false)).settled
    );
    let mut map = store(&[2]);
    assert!(
        as_disposition(second.dispose(
            &mut map,
            info(8, 2),
            Some(true),
            DeliveryState::Accepted,
            false
        ))
        .settled
    );
}

#[test]
fn bulk_disposals_are_sorted_filtered_and_split_into_runs() {
    let link = receiver("link", ReceiverSettleMode::Second, 0);
    let mut map = store(&[1, 2, 3, 5]);
    let infos = vec![info(12, 3), info(10, 1), info(13, 4), info(11, 2), info(20, 5)];
    let runs = link.dispose_all(&map, infos);
    let numbers: Vec<Vec<u32>> = runs
        .iter()
        .map(|run| run.iter().map(|info| info.delivery_id).collect())
        .collect();
    assert_eq!(numbers, [vec![10, 11, 12], vec![20]]);
    let disposition = as_disposition(link.dispose_consecutive(
        &mut map,
        &runs[0],
        None,
        DeliveryState::Accepted,
        true,
    ));
    assert_eq!((disposition.first, disposition.last), (10, Some(12)));
    assert!(!disposition.settled);
    for tag in [1, 2, 3] {
        let entry = map.read().as_ref().unwrap().get(&Binary::new(vec![tag]));
        assert!(matches!(
            entry.unwrap().local,
            Some(DeliveryState::Accepted)
        ));
    }
    let entry = map.read().as_ref().unwrap().get(&Binary::new(vec![5]));
    assert!(entry.unwrap().local.is_none());
    assert!(link
        .dispose_consecutive(&mut map, &[], None, DeliveryState::Accepted, true)
        .is_none());
    let disposition = as_disposition(link.dispose_consecutive(
        &mut map,
        &runs[0],
        Some(true),
        DeliveryState::Accepted,
        true,
    ));
    assert!(disposition.settled);
    assert_eq!(map.read().as_ref().unwrap().len(), 1);
    // Runs of deliveries that are all gone hold nothing.
    assert!(link
        .dispose_all(&map, vec![info(10, 1)])
        .iter()
        .all(|run| run.is_empty()));
}

#[test]
fn flows_update_and_tell_the_credit() {
    let mut link = receiver("link", ReceiverSettleMode::First, 3);
    link.flow_state.delivery_count = 8;
    let mut fields: OrderedMap<Binary, Value> = OrderedMap::new();
    fields.insert(
        Binary::from_text("key"),
        Value::Binary(Binary::new(vec![1])),
    );
    link.flow_state.properties = Some(Arc::new(fields));
    for (credit, drain, told_credit, told_drain) in [
        (None, None, 3, false),
        (Some(5), None, 5, false),
        (None, Some(true), 5, true),
        (Some(6), Some(false), 6, false),
    ] {
        let flow = link.get_link_flow(Handle(2), credit, drain, true, credit.is_some());
        assert_eq!(flow.handle, Handle(2));
        assert_eq!(flow.delivery_count, Some(8));
        assert_eq!(flow.link_credit, Some(told_credit));
        assert_eq!(flow.drain, told_drain);
        assert!(flow.echo && flow.available.is_none());
        assert_eq!(flow.properties.is_some(), credit.is_some());
        assert_eq!(link.flow_state.link_credit, told_credit);
        assert_eq!(link.flow_state.drain, told_drain);
    }
    assert!(matches!(
        link.send_flow(Some(1), None, false, false),
        Ok(LinkFrame::Flow(LinkFlow {
            handle: Handle(0),
            ..
        }))
    ));
    link.output_handle = None;
    assert!(matches!(
        link.send_flow(Some(2), None, false, false),
        Err(FlowError::IllegalState)
    ));
    assert_eq!(link.flow_state.link_credit, 1);
    assert_eq!(
        FlowError::undelivered(Some(SessionStopReason::Stopped)),
        FlowError::SessionStopped(SessionStopReason::Stopped)
    );
    assert_eq!(FlowError::undelivered(None), FlowError::IllegalState);
    assert_eq!(DEFAULT_CREDIT, 200);
}

#[test]
fn attaches_tell_only_as_many_deliveries_as_fit() {
    let map = store(&[1, 2, 3, 4, 5]);
    let link = receiver("link", ReceiverSettleMode::Second, 0);
    let measure = |attach: &Attach| {
        Some(10 * attach.unsettled.as_ref().map_or(0, |map| map.len()))
    };
    let told = |max_frame_size| {
        let attach = link
            .as_maybe_incomplete_attach(&map, max_frame_size, OutputHandle(0), false, measure)
            .unwrap();
        (
            attach.unsettled.map(|map| map.len()),
            attach.incomplete_unsettled,
        )
    };
    assert_eq!(told(50), (Some(5), false));
    assert_eq!(told(49), (Some(2), true));
    assert_eq!(told(19), (Some(1), true));
    assert_eq!(told(9), (Some(0), true));
    assert!(matches!(
        link.as_maybe_incomplete_attach(&map, 1, OutputHandle(0), false, |_| None),
        Err(SendAttachErrorKind::IllegalState)
    ));
    assert!(link.get_unsettled_map(&map, true, 1).is_none());
    assert!(link.get_unsettled_map(&store(&[]), false, 1).is_none());
    assert_eq!(
        link.get_unsettled_map(&map, false, 2).map(|map| map.len()),
        Some(2)
    );
    let attach = link.as_complete_attach(&map, OutputHandle(3), false);
    assert_eq!(attach.handle, Handle(3));
    assert!(matches!(attach.role, Role::Receiver));
    assert_eq!(attach.initial_delivery_count, Some(0));
    assert_eq!(attach.max_message_size, None);
    assert_eq!(attach.unsettled.map(|map| map.len()), Some(5));
    assert!(!attach.incomplete_unsettled);
}

#[test]
fn sending_an_attach_follows_the_state_and_reattaching_forgets() {
    let measure = |_: &Attach| Some(0);
    let mut link = receiver("link", ReceiverSettleMode::Second, 0);
    let mut map = store(&[1]);
    assert!(matches!(
        link.send_attach_inner(&mut map, Ok(512), false, measure),
        Ok(LinkFrame::Attach(_))
    ));
    // The frame size is asked for only where there is something to tell.
    assert!(matches!(
        link.send_attach_inner(
            &mut map,
            Err(SendAttachErrorKind::SessionStopped(SessionStopReason::Ended)),
            false,
            measure
        ),
        Err(SendAttachErrorKind::SessionStopped(SessionStopReason::Ended))
    ));
    assert!(map.contains(&Binary::new(vec![1])));
    assert!(matches!(
        link.send_attach_inner(
            &mut map,
            Err(SendAttachErrorKind::SessionStopped(SessionStopReason::Ended)),
            true,
            measure
        ),
        Ok(LinkFrame::Attach(Attach {
            unsettled: None,
            ..
        }))
    ));
    assert!(map.read().is_none());
    assert_eq!(
        link.attach_sent(false, false, Some(SessionStopReason::Stopped)),
        Err(SendAttachErrorKind::SessionStopped(SessionStopReason::Stopped))
    );
    assert_eq!(link.local_state, LinkState::Unattached);
    link.attach_sent(true, true, None).unwrap();
    assert_eq!(link.local_state, LinkState::IncompleteAttachSent);
    link.local_state = LinkState::AttachReceived;
    link.attach_sent(false, true, None).unwrap();
    assert_eq!(link.local_state, LinkState::Attached);
    assert!(matches!(
        link.send_attach_inner(&mut map, Ok(512), false, measure),
        Err(SendAttachErrorKind::IllegalState)
    ));
    link.output_handle = None;
    link.local_state = LinkState::Unattached;
    assert!(matches!(
        link.send_attach_inner(&mut map, Ok(512), false, measure),
        Err(SendAttachErrorKind::IllegalState)
    ));
}

#[test]
fn an_incoming_attach_completes_the_exchange() {
    for (before, incomplete, after) in [
        (LinkState::AttachSent, false, LinkState::Attached),
        (
            LinkState::IncompleteAttachSent,
            false,
            LinkState::IncompleteAttachExchanged,
        ),
        (
            LinkState::AttachSent,
            true,
            LinkState::IncompleteAttachExchanged,
        ),
        (LinkState::Unattached, false, LinkState::AttachReceived),
        (
            LinkState::Detached,
            true,
            LinkState::IncompleteAttachReceived,
        ),
    ] {
        let mut link = receiver("link", ReceiverSettleMode::Second, 0);
        link.local_state = before;
        link.max_message_size = 1024;
        let mut map = store(&[1]);
        let mut attach = peer_attach();
        attach.incomplete_unsettled = incomplete;
        let mut fields: OrderedMap<Binary, Value> = OrderedMap::new();
        fields.insert(Binary::from_text("k"), Value::Binary(Binary::new(vec![1])));
        attach.properties = Some(Arc::new(fields));
        let exchange = link.on_incoming_attach(&mut map, attach, checks()).unwrap();
        assert_eq!(link.local_state, after);
        assert_eq!(
            matches!(exchange, ReceiverAttachExchange::Complete),
            after == LinkState::Attached || after == LinkState::AttachReceived
        );
        assert_eq!(map.read().as_ref().unwrap().len(), incomplete as usize);
        assert_eq!(link.input_handle, Some(InputHandle(4)));
        assert_eq!(link.source.as_ref().unwrap().encoded, source("remote").encoded);
        assert!(matches!(link.snd_settle_mode, SenderSettleMode::Settled));
        assert!(matches!(link.rcv_settle_mode, ReceiverSettleMode::Second));
        assert_eq!(link.max_message_size(), Some(512));
        assert_eq!(link.flow_state.initial_delivery_count, 17);
        assert_eq!(link.flow_state.delivery_count, 17);
        assert_eq!(
            link.flow_state.properties.as_ref().map(|map| map.len()),
            Some(1)
        );
    }
}

#[test]
fn each_attach_error_has_an_input() {
    let attached = |attach: Attach, checks: AttachChecks| {
        let mut link = receiver("link", ReceiverSettleMode::Second, 0);
        link.local_state = LinkState::AttachSent;
        let mut map = store(&[1]);
        let error = link
            .on_incoming_attach(&mut map, attach, checks)
            .unwrap_err();
        // Nothing is reconciled with a peer that is refused.
        assert_eq!(map.read().as_ref().unwrap().len(), 1);
        error
    };
    let mut no_source = peer_attach();
    no_source.source = None;
    assert!(matches!(
        attached(no_source, checks()),
        ReceiverAttachError::IncomingSourceIsNone
    ));
    let mut wrong_source = checks();
    wrong_source.source = Some(ReceiverAttachError::SourceAddressIsNoneWhenDynamicIsTrue);
    assert!(matches!(
        attached(peer_attach(), wrong_source),
        ReceiverAttachError::SourceAddressIsNoneWhenDynamicIsTrue
    ));
    let mut no_count = peer_attach();
    no_count.initial_delivery_count = None;
    assert!(matches!(
        attached(no_count, checks()),
        ReceiverAttachError::InitialDeliveryCountIsNone
    ));
    let mut coordinator = peer_attach();
    coordinator.target = Some(TargetArchetype::Coordinator(Binary::new(vec![])));
    let mut unsupported = checks();
    unsupported.target_supported = false;
    assert!(matches!(
        attached(coordinator, unsupported),
        ReceiverAttachError::CoordinatorIsNotImplemented
    ));
    let mut target = peer_attach();
    target.target = Some(TargetArchetype::Target(Binary::new(vec![])));
    let mut wrong_target = checks();
    wrong_target.target = Some(ReceiverAttachError::TargetAddressIsSomeWhenDynamicIsTrue);
    assert!(matches!(
        attached(target, wrong_target),
        ReceiverAttachError::TargetAddressIsSomeWhenDynamicIsTrue
    ));
    let mut link = receiver("link", ReceiverSettleMode::Second, 0);
    link.local_state = LinkState::Closed;
    assert!(matches!(
        link.on_incoming_attach(&mut store(&[]), peer_attach(), checks()),
        Err(ReceiverAttachError::IllegalState)
    ));
}

#[test]
fn what_answers_an_attach_is_an_attach() {
    assert!(expect_attach(Some(LinkFrame::Attach(peer_attach())), None).is_ok());
    assert!(matches!(
        expect_attach(Some(LinkFrame::Detach(detach(true, None))), None),
        Err(ReceiverAttachError::NonAttachFrameReceived)
    ));
    assert!(matches!(
        expect_attach(None, Some(SessionStopReason::Ended)),
        Err(ReceiverAttachError::SessionStopped(SessionStopReason::Ended))
    ));
    assert!(matches!(
        expect_attach(None, None),
        Err(ReceiverAttachError::IllegalState)
    ));
}

#[test]
fn attach_errors_are_reported_closed_or_end_the_session() {
    assert!(matches!(
        handle_attach_error(ReceiverAttachError::NonAttachFrameReceived, Some(wire_error())),
        AttachErrorAction::Report(ReceiverAttachError::NonAttachFrameReceived)
    ));
    match handle_attach_error(ReceiverAttachError::DuplicatedLinkName, None) {
        AttachErrorAction::EndSession { error, .. } => {
            assert_eq!(
                error.condition,
                Binary::from_text("amqp:session:handle-in-use")
            );
            assert_eq!(error.description.as_deref(), Some("Link name is in use"));
        }
        _ => panic!("the session is ended"),
    }
    assert!(matches!(
        handle_attach_error(ReceiverAttachError::IncomingSourceIsNone, None),
        AttachErrorAction::CloseAndAwait { .. }
    ));
    assert!(matches!(
        handle_attach_error(
            ReceiverAttachError::InitialDeliveryCountIsNone,
            Some(wire_error())
        ),
        AttachErrorAction::CloseWithError { .. }
    ));
    assert!(matches!(
        handle_attach_error(ReceiverAttachError::InitialDeliveryCountIsNone, None),
        AttachErrorAction::Report(ReceiverAttachError::InitialDeliveryCountIsNone)
    ));
    assert!(matches!(
        after_attach_error_sent(ReceiverAttachError::DuplicatedLinkName, true, None),
        ReceiverAttachError::DuplicatedLinkName
    ));
    assert!(matches!(
        after_attach_error_sent(
            ReceiverAttachError::DuplicatedLinkName,
            false,
            Some(SessionStopReason::Stopped)
        ),
        ReceiverAttachError::SessionStopped(SessionStopReason::Stopped)
    ));
    let error = || ReceiverAttachError::IncomingSourceIsNone;
    assert!(matches!(
        recv_detach(CloseReply::Detached, error()),
        ReceiverAttachError::IncomingSourceIsNone
    ));
    assert!(matches!(
        recv_detach(CloseReply::DetachFailed(None), error()),
        ReceiverAttachError::IncomingSourceIsNone
    ));
    assert!(matches!(
        recv_detach(
            CloseReply::DetachFailed(Some(ReceiverAttachError::IllegalState)),
            error()
        ),
        ReceiverAttachError::IllegalState
    ));
    assert!(matches!(
        recv_detach(CloseReply::OtherFrame, error()),
        ReceiverAttachError::NonAttachFrameReceived
    ));
    assert!(matches!(
        recv_detach(CloseReply::Stopped(None), error()),
        ReceiverAttachError::IllegalState
    ));
}

#[test]
fn links_detach_and_close_from_either_side() {
    let mut link = receiver("link", ReceiverSettleMode::First, 0);
    link.local_state = LinkState::Attached;
    assert!(matches!(
        link.send_detach(false, None),
        Ok(LinkFrame::Detach(Detach { closed: false, .. }))
    ));
    link.detach_sent(true, None).unwrap();
    // The identity is kept while the detach is in flight.
    assert_eq!(link.output_handle, Some(OutputHandle(0)));
    assert_eq!(link.local_state, LinkState::DetachSent);
    link.on_incoming_detach(detach(false, None)).unwrap();
    assert_eq!(link.local_state, LinkState::Detached);
    assert_eq!(link.output_handle, None);

    let mut link = receiver("link", ReceiverSettleMode::First, 0);
    link.local_state = LinkState::Attached;
    link.on_incoming_detach(detach(true, None)).unwrap();
    assert_eq!(link.local_state, LinkState::CloseReceived);
    assert!(matches!(
        link.send_detach(false, None),
        Err(DetachError::ClosedByRemote)
    ));
    link.send_detach(true, Some(wire_error())).unwrap();
    assert!(matches!(
        link.detach_sent(false, Some(SessionStopReason::Ended)),
        Err(DetachError::SessionStopped(SessionStopReason::Ended))
    ));
    assert_eq!(link.local_state, LinkState::Closed);
    assert_eq!(link.output_handle, None);

    for (before, closed, error, expected) in [
        (LinkState::Attached, true, true, "closed with error"),
        (LinkState::DetachSent, true, false, "closed"),
        (LinkState::Attached, false, true, "detached with error"),
        (LinkState::Detached, false, false, "illegal"),
        (LinkState::Closed, true, false, "illegal"),
    ] {
        let mut link = receiver("link", ReceiverSettleMode::First, 0);
        link.local_state = before;
        let error = if error { Some(wire_error()) } else { None };
        let reported = match link.on_incoming_detach(detach(closed, error)).unwrap_err() {
            DetachError::RemoteClosedWithError(_) => "closed with error",
            DetachError::ClosedByRemote => "closed",
            DetachError::RemoteDetachedWithError(_) => "detached with error",
            DetachError::IllegalState => "illegal",
            _ => "other",
        };
        assert_eq!(reported, expected);
    }
    let mut link = receiver("link", ReceiverSettleMode::First, 0);
    link.local_state = LinkState::DetachReceived;
    assert!(matches!(
        link.send_detach(true, None),
        Err(DetachError::DetachedByRemote)
    ));
    link.output_handle = None;
    assert!(matches!(
        link.send_detach(false, None),
        Err(DetachError::IllegalState)
    ));
}

#[test]
fn the_smaller_message_size_counts_and_zero_is_none() {
    assert_eq!(get_max_message_size(0, None), 0);
    assert_eq!(get_max_message_size(0, Some(7)), 7);
    assert_eq!(get_max_message_size(9, None), 9);
    assert_eq!(get_max_message_size(9, Some(0)), 9);
    assert_eq!(get_max_message_size(9, Some(7)), 7);
    assert_eq!(get_max_message_size(5, Some(7)), 5);
    let link = receiver("link", ReceiverSettleMode::First, 0);
    assert_eq!(link.max_message_size(), None);
}

#[test]
fn exchanges_are_complete_or_an_error() {
    assert_eq!(ReceiverAttachExchange::Complete.complete_or(1), Ok(()));
    assert_eq!(ReceiverAttachExchange::Resume.complete_or(1), Err(1));
    assert_eq!(
        ReceiverAttachExchange::IncompleteUnsettled.complete_or(1),
        Err(1)
    );
    assert_eq!(
        SenderAttachExchange::<()>::Complete.complete_or(1),
        Ok(())
    );
    let resume = SenderAttachExchange::Resume(vec![(Binary::new(vec![1]), ())]);
    assert_eq!(resume.describe(), "Resume(_)");
    assert_eq!(resume.complete_or(1), Err(1));
    assert_eq!(SenderAttachExchange::<()>::Complete.describe(), "Complete");
    assert_eq!(
        SenderAttachExchange::<()>::IncompleteUnsettled(Vec::new()).describe(),
        "IncompleteUnsettled(_)"
    );
}
