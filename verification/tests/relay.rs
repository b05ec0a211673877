//! The session's end of a link, and its unsettled deliveries.

use amqp_engine::definitions::{
    Binary, DeliveryState, Fields, Handle, InputHandle, OutputHandle, Received,
    ReceiverSettleMode, Role, Value,
};
use amqp_engine::errors::LinkRelayError;
use amqp_engine::frame::LinkFrame;
use amqp_engine::ordered_map::OrderedMap;
use amqp_engine::performatives::{Detach, LinkFlow, Transfer};
use amqp_engine::receiver_delivery::{AsDeliveryState, ReceiverDelivery};
use amqp_engine::relay::{LinkRelay, UnsettledMessage};
use amqp_engine::unsettled_store::{Store, UnsettledMap};

fn transfer() -> Transfer {
    Transfer::new(Handle(0), 0, Binary::new(vec![0x55]), 0)
}

fn sender(mode: ReceiverSettleMode, tag: &Binary) -> LinkRelay<OutputHandle> {
    let mut messages = UnsettledMap::new();
    messages.insert(
        tag.clone(),
        UnsettledMessage::new(Vec::new(), None, 0, 77),
    );
    let mut relay =
        LinkRelay::new_sender(Store::new(Some(messages))).with_output_handle(OutputHandle(0));
    if let LinkRelay::Sender {
        receiver_settle_mode,
        ..
    } = &mut relay
    {
        *receiver_settle_mode = mode;
    }
    relay
}

fn sender_holds(relay: &LinkRelay<OutputHandle>, tag: &Binary) -> bool {
    match relay {
        LinkRelay::Sender { unsettled, .. } => unsettled.contains(tag),
        LinkRelay::Receiver { .. } => false,
    }
}

fn receiver_holds(relay: &LinkRelay<OutputHandle>, tag: &Binary) -> bool {
    match relay {
        LinkRelay::Receiver { unsettled, .. } => unsettled.contains(tag),
        LinkRelay::Sender { .. } => false,
    }
}

#[test]
fn second_settlement_waits_for_a_terminal_peer_outcome() {
    let tag = Binary::new(vec![1]);
    let mut relay = sender(ReceiverSettleMode::Second, &tag);
    let received = DeliveryState::Received(Received {
        section_number: 1,
        section_offset: 0,
    });
    let early =
        relay.on_incoming_disposition(Role::Receiver, false, Some(received), tag.clone());
    assert!(!early.echo);
    assert!(early.settled.is_none());
    assert!(sender_holds(&relay, &tag));
    let late = relay.on_incoming_disposition(
        Role::Receiver,
        false,
        Some(DeliveryState::Accepted),
        tag.clone(),
    );
    assert!(late.echo);
    let settled = late.settled.unwrap();
    assert_eq!(settled.reply, 77);
    assert!(matches!(settled.state, Some(DeliveryState::Accepted)));
    assert!(!sender_holds(&relay, &tag));
}

#[test]
fn first_settlement_is_not_answered() {
    let tag = Binary::new(vec![1]);
    let mut relay = sender(ReceiverSettleMode::First, &tag);
    let disposed = relay.on_incoming_disposition(
        Role::Receiver,
        false,
        Some(DeliveryState::Accepted),
        tag.clone(),
    );
    assert!(!disposed.echo);
    assert!(disposed.settled.is_some());
    let mut relay = sender(ReceiverSettleMode::Second, &tag);
    let disposed = relay.on_incoming_disposition(Role::Receiver, true, None, tag.clone());
    assert!(!disposed.echo);
    assert!(disposed.settled.unwrap().state.is_none());
    assert!(!sender_holds(&relay, &tag));
}

#[test]
fn settlement_before_application_decode_and_fragment_continuations_use_one_identity() {
    for mode in [ReceiverSettleMode::First, ReceiverSettleMode::Second] {
        let mut relay =
            LinkRelay::new_receiver(Store::new(None), mode).with_output_handle(OutputHandle(0));
        let mut first = transfer();
        first.more = true;
        let tag = first.delivery_tag.clone().unwrap();
        let forwarded = relay
            .on_incoming_transfer(first.clone(), Vec::new(), None)
            .unwrap();
        assert_eq!(forwarded.identity, Some((0, tag.clone())));
        assert!(matches!(forwarded.frame, LinkFrame::Transfer { .. }));
        assert!(receiver_holds(&relay, &tag));
        assert!(
            !relay
                .on_incoming_disposition(Role::Sender, true, None, tag.clone())
                .echo
        );
        assert!(!receiver_holds(&relay, &tag));
        let mut next = first.clone();
        next.delivery_id = None;
        next.delivery_tag = None;
        next.message_format = None;
        assert_eq!(
            relay
                .on_incoming_transfer(next.clone(), Vec::new(), None)
                .unwrap()
                .identity,
            None
        );
        next.more = false;
        assert_eq!(
            relay
                .on_incoming_transfer(next, Vec::new(), None)
                .unwrap()
                .identity,
            None
        );
        assert!(!receiver_holds(&relay, &tag));
        first.delivery_id = Some(1);
        first.delivery_tag = Some(Binary::new(vec![0x56]));
        first.more = false;
        assert_eq!(
            relay
                .on_incoming_transfer(first, Vec::new(), None)
                .unwrap()
                .identity,
            Some((1, Binary::new(vec![0x56])))
        );
    }
}

#[test]
fn transfers_without_identity_with_a_long_tag_or_with_a_tag_in_use_are_refused() {
    let mut relay = LinkRelay::new_receiver(Store::new(None), ReceiverSettleMode::First)
        .with_output_handle(OutputHandle(0));
    let mut anonymous = transfer();
    anonymous.delivery_tag = None;
    assert_eq!(
        relay
            .on_incoming_transfer(anonymous, Vec::new(), None)
            .unwrap_err()
            .error,
        LinkRelayError::InvalidTransfer
    );
    let mut long = transfer();
    long.delivery_tag = Some(Binary::new(vec![0; 33]));
    assert_eq!(
        relay
            .on_incoming_transfer(long, Vec::new(), None)
            .unwrap_err()
            .error,
        LinkRelayError::InvalidTransfer
    );
    let mut longest = transfer();
    longest.delivery_tag = Some(Binary::new(vec![0; 32]));
    assert!(relay
        .on_incoming_transfer(longest, Vec::new(), None)
        .is_ok());
    assert!(relay
        .on_incoming_transfer(transfer(), Vec::new(), None)
        .is_ok());
    assert_eq!(
        relay
            .on_incoming_transfer(transfer(), Vec::new(), None)
            .unwrap_err()
            .error,
        LinkRelayError::InvalidTransfer
    );
    let mut to_sender = sender(ReceiverSettleMode::First, &Binary::new(vec![1]));
    assert_eq!(
        to_sender
            .on_incoming_transfer(transfer(), Vec::new(), None)
            .unwrap_err()
            .error,
        LinkRelayError::TransferFrameToSender
    );
}

#[test]
fn a_continuation_may_not_change_the_tag_and_unknown_resumes_create_nothing() {
    let mut relay = LinkRelay::new_receiver(Store::new(None), ReceiverSettleMode::First)
        .with_output_handle(OutputHandle(0));
    let mut first = transfer();
    first.more = true;
    relay
        .on_incoming_transfer(first.clone(), Vec::new(), None)
        .unwrap();
    let mut changed = first.clone();
    changed.delivery_tag = Some(Binary::new(vec![9]));
    assert_eq!(
        relay
            .on_incoming_transfer(changed, Vec::new(), None)
            .unwrap_err()
            .error,
        LinkRelayError::InvalidTransfer
    );
    let mut relay = LinkRelay::new_receiver(Store::new(None), ReceiverSettleMode::First)
        .with_output_handle(OutputHandle(0));
    let mut resumed = transfer();
    resumed.resume = true;
    let forwarded = relay
        .on_incoming_transfer(resumed, Vec::new(), None)
        .unwrap();
    assert!(forwarded.identity.is_none());
    assert!(!receiver_holds(&relay, &Binary::new(vec![0x55])));
    let mut settled = transfer();
    settled.settled = Some(true);
    let forwarded = relay
        .on_incoming_transfer(settled, Vec::new(), None)
        .unwrap();
    assert!(forwarded.identity.is_none());
    assert!(!receiver_holds(&relay, &Binary::new(vec![0x55])));
}

#[test]
fn a_transactional_flow_is_told_to_the_sender_only() {
    let mut fields: OrderedMap<Binary, Value> = OrderedMap::new();
    fields.insert(
        Binary::from_text("txn-id"),
        Value::Binary(Binary::new(vec![7, 8])),
    );
    let properties: Option<Fields> = Some(std::sync::Arc::new(fields));
    let flow = LinkFlow {
        handle: Handle(0),
        delivery_count: None,
        link_credit: Some(1),
        available: None,
        drain: false,
        echo: false,
        properties,
    };
    let relay = sender(ReceiverSettleMode::First, &Binary::new(vec![1]));
    match relay.on_incoming_flow(&flow) {
        Some(LinkFrame::Acquisition(txn_id)) => assert_eq!(txn_id, Binary::new(vec![7, 8])),
        _ => panic!("an acquisition is due"),
    }
    let receiver = LinkRelay::new_receiver(Store::new(None), ReceiverSettleMode::First)
        .with_output_handle(OutputHandle(0));
    assert!(receiver.on_incoming_flow(&flow).is_none());
    let plain = LinkFlow {
        properties: None,
        ..flow
    };
    assert!(relay.on_incoming_flow(&plain).is_none());
    assert_eq!(relay.output_handle(), OutputHandle(0));
    assert!(matches!(
        relay.on_incoming_detach(Detach {
            handle: Handle(0),
            closed: true,
            error: None
        }),
        LinkFrame::Detach(_)
    ));
}

#[test]
fn changes_coalesce_without_queuing_dispositions_or_losing_latest_state() {
    let mut store = Store::<Option<DeliveryState>>::new(None);
    let mut observer = store.subscribe();
    for n in 0..10000 {
        store
            .write()
            .get_or_insert_with(UnsettledMap::new)
            .insert(Binary::new(vec![(n % 256) as u8]), None);
    }
    assert!(observer.changed(&store));
    assert_eq!(store.read().as_ref().unwrap().len(), 256);
    store.write().as_mut().unwrap().clear();
    assert!(observer.changed(&store));
    assert!(store.read().as_ref().unwrap().is_empty());
    assert!(!observer.has_changed(&store));
}

#[test]
fn peer_state_cannot_masquerade_as_local_receipt_or_overwrite_local_outcome() {
    let mut delivery = ReceiverDelivery::new(Some(DeliveryState::Accepted));
    assert!(delivery.as_delivery_state().is_none());
    assert!(!delivery.received);
    delivery.received(
        DeliveryState::Received(Received {
            section_number: 1,
            section_offset: 16,
        }),
        false,
    );
    assert!(!delivery.received);
    assert!(matches!(delivery.local, Some(DeliveryState::Received(_))));
    assert!(matches!(delivery.remote, Some(DeliveryState::Accepted)));
    delivery.received(
        DeliveryState::Received(Received {
            section_number: 2,
            section_offset: 0,
        }),
        true,
    );
    assert!(delivery.received);
    delivery.local_state(DeliveryState::Released);
    delivery.remote_state(Some(DeliveryState::Received(Received {
        section_number: 0,
        section_offset: 0,
    })));
    assert!(matches!(delivery.local, Some(DeliveryState::Released)));
    assert!(matches!(delivery.remote, Some(DeliveryState::Accepted)));
    delivery.received(
        DeliveryState::Received(Received {
            section_number: 3,
            section_offset: 0,
        }),
        true,
    );
    assert!(matches!(delivery.local, Some(DeliveryState::Released)));
}

#[test]
fn ordered_maps_keep_places_and_swap_the_last_entry_in() {
    let key = |n: u8| Binary::new(vec![n]);
    let mut map: OrderedMap<Binary, u8> = OrderedMap::new();
    for n in 0..4 {
        map.insert(key(n), n);
    }
    map.insert(key(1), 11);
    assert_eq!(map.len(), 4);
    assert_eq!(map.get(&key(1)), Some(&11));
    assert_eq!(map.swap_remove(&key(0)), Some(0));
    assert_eq!(map.swap_remove(&key(0)), None);
    let order: Vec<u8> = (0..map.len()).map(|at| *map.get_index(at).1).collect();
    assert_eq!(order, [3, 11, 2]);
    assert_eq!(InputHandle(3), InputHandle(3));
}
