//! The end of a link that lives in the event loop of its session. It owns the unsettled
//! deliveries of the link and decides what becomes of the frames that come in for it.

use vstd::prelude::*;

use crate::definitions::{
    self, is_settled_outcome, share_binary, share_state, DeliveryNumber, DeliveryState,
    DeliveryTag, InputHandle, OutputHandle, Payload, ReceiverSettleMode, Role, TransactionId,
    Value,
};
use crate::errors::LinkRelayError;
use crate::frame::LinkFrame;
use crate::ordered_map::{self, MapKey};
use crate::performatives::{Detach, LinkFlow, Transfer};
use crate::receive_window::Slot;
use crate::receiver_delivery::{AsDeliveryState, ReceiverDelivery};
use crate::unsettled_store::{self, Store, StoreView, UnsettledMap};

verus! {

/// The longest delivery tag, in bytes.
pub const MAX_TAG_LENGTH: usize = 32;

/// What a sender keeps of a delivery until it is settled.
#[derive(Debug)]
pub struct UnsettledMessage {
    /// The message bytes.
    pub payload: Payload,
    /// The state of the delivery.
    pub state: Option<DeliveryState>,
    /// The format of the message.
    pub message_format: u32,
    /// Who waits for the outcome.
    pub reply: u64,
}

/// The outcome of a delivery, for the one who waits for it.
#[derive(Debug)]
pub struct Settled {
    /// Who waits.
    pub reply: u64,
    /// The outcome.
    pub state: Option<DeliveryState>,
}

impl UnsettledMessage {
    /// A message that waits for its outcome.
    pub fn new(
        payload: Payload,
        state: Option<DeliveryState>,
        message_format: u32,
        reply: u64,
    ) -> (message: Self)
        ensures
            message == (UnsettledMessage { payload, state, message_format, reply }),
    {
        UnsettledMessage { payload, state, message_format, reply }
    }

    /// The outcome for the one who waits for it.
    pub fn settle_with_state(self, state: Option<DeliveryState>) -> (settled: Settled)
        ensures
            settled == (Settled { reply: self.reply, state }),
    {
        Settled { reply: self.reply, state }
    }
}

impl AsDeliveryState for UnsettledMessage {
    open spec fn delivery_state(&self) -> Option<DeliveryState> {
        self.state
    }

    fn as_delivery_state(&self) -> (state: &Option<DeliveryState>) {
        &self.state
    }
}

/// The session's end of a link.
#[allow(inconsistent_fields)]
#[derive(Debug)]
pub enum LinkRelay<O> {
    /// Of a sender.
    Sender {
        /// What names the link here, once it is allocated.
        output_handle: O,
        /// The deliveries that are not settled.
        unsettled: Store<UnsettledMessage>,
        /// When the receiver at the other end settles.
        receiver_settle_mode: ReceiverSettleMode,
    },
    /// Of a receiver.
    Receiver {
        /// What names the link here, once it is allocated.
        output_handle: O,
        /// The deliveries that are not settled.
        unsettled: Store<ReceiverDelivery>,
        /// When this receiver settles.
        receiver_settle_mode: ReceiverSettleMode,
        /// Whether more transfers of the current delivery follow.
        more: bool,
        /// The tag of the current delivery.
        current_tag: Option<DeliveryTag>,
    },
}

/// A relay as it is spoken of.
#[allow(inconsistent_fields)]
pub enum RelayView<O> {
    /// Of a sender.
    Sender {
        output_handle: O,
        unsettled: StoreView<UnsettledMessage>,
        receiver_settle_mode: ReceiverSettleMode,
    },
    /// Of a receiver.
    Receiver {
        output_handle: O,
        unsettled: StoreView<ReceiverDelivery>,
        receiver_settle_mode: ReceiverSettleMode,
        more: bool,
        current_tag: Option<Seq<u8>>,
    },
}

/// The bytes of a tag, where there is one.
pub open spec fn tag_bytes(tag: Option<DeliveryTag>) -> Option<Seq<u8>> {
    match tag {
        None => None,
        Some(tag) => Some(tag@),
    }
}

impl<O> View for LinkRelay<O> {
    type V = RelayView<O>;

    open spec fn view(&self) -> RelayView<O> {
        match self {
            LinkRelay::Sender { output_handle, unsettled, receiver_settle_mode } => {
                RelayView::Sender {
                    output_handle: *output_handle,
                    unsettled: unsettled@,
                    receiver_settle_mode: *receiver_settle_mode,
                }
            },
            LinkRelay::Receiver {
                output_handle,
                unsettled,
                receiver_settle_mode,
                more,
                current_tag,
            } => {
                RelayView::Receiver {
                    output_handle: *output_handle,
                    unsettled: unsettled@,
                    receiver_settle_mode: *receiver_settle_mode,
                    more: *more,
                    current_tag: tag_bytes(*current_tag),
                }
            },
        }
    }
}

impl<O> RelayView<O> {
    /// What names the link here.
    pub open spec fn handle(self) -> O {
        match self {
            RelayView::Sender { output_handle, .. } => output_handle,
            RelayView::Receiver { output_handle, .. } => output_handle,
        }
    }

    /// The same relay under another handle.
    pub open spec fn named<P>(self, handle: P) -> RelayView<P> {
        match self {
            RelayView::Sender { unsettled, receiver_settle_mode, .. } => RelayView::Sender {
                output_handle: handle,
                unsettled,
                receiver_settle_mode,
            },
            RelayView::Receiver { unsettled, receiver_settle_mode, more, current_tag, .. } => {
                RelayView::Receiver {
                    output_handle: handle,
                    unsettled,
                    receiver_settle_mode,
                    more,
                    current_tag,
                }
            },
        }
    }

    /// Between deliveries there is no current tag, and during one there is.
    pub open spec fn tracks_delivery(self) -> bool {
        self matches RelayView::Receiver { more, current_tag, .. } ==> more == (current_tag is Some)
    }
}

/// What a sender's store becomes by a disposition. One that settles, or that tells a terminal
/// state, ends the delivery; any other is taken down.
pub open spec fn sender_disposed(
    store: StoreView<UnsettledMessage>,
    settled: bool,
    state: Option<DeliveryState>,
    tag: Seq<u8>,
) -> StoreView<UnsettledMessage> {
    StoreView {
        entries: if settled || definitions::settled_outcome(state) {
            unsettled_store::without(store.entries, tag)
        } else {
            match unsettled_store::held(store.entries, tag) {
                None => store.entries,
                Some(message) => unsettled_store::changed(
                    store.entries,
                    tag,
                    UnsettledMessage { state, ..message },
                ),
            }
        },
        revision: unsettled_store::next_revision(store.revision),
    }
}

/// What a receiver's store becomes by a disposition. One that settles ends the delivery; any other
/// tells the peer's state.
pub open spec fn receiver_disposed(
    store: StoreView<ReceiverDelivery>,
    settled: bool,
    state: Option<DeliveryState>,
    tag: Seq<u8>,
) -> StoreView<ReceiverDelivery> {
    StoreView {
        entries: if settled {
            unsettled_store::without(store.entries, tag)
        } else {
            match unsettled_store::held(store.entries, tag) {
                None => store.entries,
                Some(delivery) => unsettled_store::changed(
                    store.entries,
                    tag,
                    delivery.after_remote_state(state),
                ),
            }
        },
        revision: unsettled_store::next_revision(store.revision),
    }
}

/// What a relay becomes by a disposition for one of its deliveries.
pub open spec fn disposed<O>(
    relay: RelayView<O>,
    settled: bool,
    state: Option<DeliveryState>,
    tag: Seq<u8>,
) -> RelayView<O> {
    match relay {
        RelayView::Sender { output_handle, unsettled, receiver_settle_mode } => RelayView::Sender {
            output_handle,
            unsettled: sender_disposed(unsettled, settled, state, tag),
            receiver_settle_mode,
        },
        RelayView::Receiver {
            output_handle,
            unsettled,
            receiver_settle_mode,
            more,
            current_tag,
        } => RelayView::Receiver {
            output_handle,
            unsettled: receiver_disposed(unsettled, settled, state, tag),
            receiver_settle_mode,
            more,
            current_tag,
        },
    }
}

/// Whether a disposition is to be answered: by a sender whose receiver settles second, once that
/// has told a terminal state without settling.
pub open spec fn echo_due<O>(
    relay: RelayView<O>,
    settled: bool,
    state: Option<DeliveryState>,
) -> bool {
    &&& relay matches RelayView::Sender { receiver_settle_mode, .. }
    &&& receiver_settle_mode == ReceiverSettleMode::Second
    &&& !settled
    &&& definitions::settled_outcome(state)
}

/// The outcome that a disposition brings for the one who waits for the delivery.
pub open spec fn outcome<O>(
    relay: RelayView<O>,
    settled: bool,
    state: Option<DeliveryState>,
    tag: Seq<u8>,
) -> Option<Settled> {
    match relay {
        RelayView::Sender { unsettled, .. } => if settled || definitions::settled_outcome(state) {
            match unsettled_store::held(unsettled.entries, tag) {
                None => None,
                Some(message) => Some(Settled { reply: message.reply, state }),
            }
        } else {
            None
        },
        RelayView::Receiver { .. } => None,
    }
}

/// What a disposition asks the session to do.
#[derive(Debug)]
pub struct Disposed {
    /// Whether it is to be answered.
    pub echo: bool,
    /// The outcome to be reported.
    pub settled: Option<Settled>,
}

/// Whether a transfer identifies its delivery, and does so as the transfers before it did.
pub open spec fn transfer_identified(
    transfer: Transfer,
    first: bool,
    current_tag: Option<Seq<u8>>,
) -> bool {
    &&& first ==> {
        &&& transfer.delivery_id is Some
        &&& transfer.delivery_tag is Some
        &&& transfer.message_format is Some
    }
    &&& transfer.delivery_tag matches Some(tag) ==> {
        &&& tag@.len() <= MAX_TAG_LENGTH
        &&& first || current_tag is None || current_tag == Some(tag@)
    }
}

/// The tag of the delivery that a transfer belongs to.
pub open spec fn effective_tag(transfer: Transfer, current_tag: Option<Seq<u8>>) -> Option<
    Seq<u8>,
> {
    if transfer.delivery_tag is Some {
        tag_bytes(transfer.delivery_tag)
    } else {
        current_tag
    }
}

/// Whether the first transfer of a new delivery would reuse the tag of an unsettled one.
pub open spec fn reuses_tag(
    transfer: Transfer,
    first: bool,
    entries: Option<Seq<(Seq<u8>, ReceiverDelivery)>>,
) -> bool {
    &&& first
    &&& transfer.settled != Some(true)
    &&& !transfer.aborted
    &&& !transfer.resume
    &&& transfer.delivery_tag matches Some(tag)
    &&& unsettled_store::holds(entries, tag@)
}

/// What the unsettled deliveries become by a transfer. One that is settled or aborted ends its
/// delivery, and the first of a new delivery publishes it.
pub open spec fn published(
    transfer: Transfer,
    first: bool,
    tag: Seq<u8>,
    entries: Option<Seq<(Seq<u8>, ReceiverDelivery)>>,
) -> Option<Seq<(Seq<u8>, ReceiverDelivery)>> {
    if transfer.settled == Some(true) || transfer.aborted {
        unsettled_store::without(entries, tag)
    } else if first && !transfer.resume {
        let known = match entries {
            None => seq![],
            Some(entries) => entries,
        };
        if ordered_map::has(known, tag) {
            Some(known)
        } else {
            Some(
                ordered_map::inserted(
                    known,
                    tag,
                    ReceiverDelivery {
                        local: None,
                        remote: transfer.state,
                        received: false,
                        info: None,
                    },
                ),
            )
        }
    } else {
        entries
    }
}

/// What becomes of an incoming transfer: what the relay is then, and either the identity of the
/// delivery, where it is to be taken down, or why the transfer is refused.
pub struct TransferOutcome<O> {
    pub relay: RelayView<O>,
    pub result: Result<Option<(DeliveryNumber, DeliveryTag)>, LinkRelayError>,
}

/// What becomes of an incoming transfer.
pub open spec fn transferred<O>(relay: RelayView<O>, transfer: Transfer) -> TransferOutcome<O> {
    match relay {
        RelayView::Sender { .. } => TransferOutcome {
            relay,
            result: Err(LinkRelayError::TransferFrameToSender),
        },
        RelayView::Receiver {
            output_handle,
            unsettled,
            receiver_settle_mode,
            more,
            current_tag,
        } => {
            let first = !more;
            let tag = effective_tag(transfer, current_tag);
            let opened = StoreView {
                entries: published(transfer, first, tag->0, unsettled.entries),
                revision: unsettled_store::next_revision(unsettled.revision),
            };
            let store = if tag is Some {
                opened
            } else {
                unsettled
            };
            let continues = transfer.more && !transfer.aborted;
            if !transfer_identified(transfer, first, current_tag) {
                TransferOutcome { relay, result: Err(LinkRelayError::InvalidTransfer) }
            } else if reuses_tag(transfer, first, unsettled.entries) {
                TransferOutcome {
                    relay: RelayView::Receiver {
                        output_handle,
                        unsettled: store,
                        receiver_settle_mode,
                        more,
                        current_tag,
                    },
                    result: Err(LinkRelayError::InvalidTransfer),
                }
            } else {
                let known = transfer.settled != Some(true) && !transfer.aborted && tag is Some
                    && unsettled_store::holds(store.entries, tag->0);
                TransferOutcome {
                    relay: RelayView::Receiver {
                        output_handle,
                        unsettled: store,
                        receiver_settle_mode,
                        more: continues,
                        current_tag: if continues {
                            tag
                        } else {
                            None
                        },
                    },
                    result: Ok(
                        if first && known {
                            Some((transfer.delivery_id->0, transfer.delivery_tag->0))
                        } else {
                            None
                        },
                    ),
                }
            }
        },
    }
}

/// A transfer on its way to the link, and the identity of its delivery, where it is to be taken
/// down once the transfer was handed over.
#[derive(Debug)]
pub struct Forwarded {
    /// The frame for the link.
    pub frame: LinkFrame,
    /// Number and tag of the delivery.
    pub identity: Option<(DeliveryNumber, DeliveryTag)>,
}

/// A transfer that was refused, and the slot that is free again.
#[derive(Debug)]
pub struct RefusedTransfer {
    /// Why.
    pub error: LinkRelayError,
    /// Its place in the receive window.
    pub window_slot: Option<Slot>,
}

/// The name of the property that puts a flow in a transaction.
pub open spec fn txn_id_key() -> Seq<u8> {
    vstd::utf8::encode_utf8("txn-id"@)
}

/// The transaction that a flow belongs to.
pub open spec fn flow_transaction(flow: LinkFlow) -> Option<TransactionId> {
    match flow.properties {
        None => None,
        Some(fields) => match ordered_map::value_of(fields@, txn_id_key()) {
            Some(Value::Binary(txn_id)) => Some(txn_id),
            _ => None,
        },
    }
}

/// The frame that a flow makes due at a link before its flow state takes the flow: a sender is
/// told of the transaction in which messages are asked for.
pub open spec fn acquisition_due<O>(relay: RelayView<O>, flow: LinkFlow) -> Option<LinkFrame> {
    match relay {
        RelayView::Receiver { .. } => None,
        RelayView::Sender { .. } => match flow_transaction(flow) {
            None => None,
            Some(txn_id) => Some(LinkFrame::Acquisition(txn_id)),
        },
    }
}

impl LinkRelay<()> {
    /// The relay of a sender. Its receiver settles first until the peer says otherwise.
    pub fn new_sender(unsettled: Store<UnsettledMessage>) -> (relay: Self)
        ensures
            relay@ == (RelayView::Sender {
                output_handle: (),
                unsettled: unsettled@,
                receiver_settle_mode: ReceiverSettleMode::First,
            }),
    {
        LinkRelay::Sender {
            output_handle: (),
            unsettled,
            receiver_settle_mode: ReceiverSettleMode::First,
        }
    }

    /// The relay of a receiver, between deliveries.
    pub fn new_receiver(
        unsettled: Store<ReceiverDelivery>,
        receiver_settle_mode: ReceiverSettleMode,
    ) -> (relay: Self)
        ensures
            relay@ == (RelayView::Receiver {
                output_handle: (),
                unsettled: unsettled@,
                receiver_settle_mode,
                more: false,
                current_tag: None,
            }),
    {
        LinkRelay::Receiver {
            output_handle: (),
            unsettled,
            receiver_settle_mode,
            more: false,
            current_tag: None,
        }
    }

    /// The relay of a link that was allocated.
    pub fn with_output_handle(self, output_handle: OutputHandle) -> (relay: LinkRelay<OutputHandle>)
        ensures
            relay@ == self@.named(output_handle),
    {
        match self {
            LinkRelay::Sender { unsettled, receiver_settle_mode, .. } => LinkRelay::Sender {
                output_handle,
                unsettled,
                receiver_settle_mode,
            },
            LinkRelay::Receiver {
                unsettled,
                receiver_settle_mode,
                more,
                current_tag,
                ..
            } => LinkRelay::Receiver {
                output_handle,
                unsettled,
                receiver_settle_mode,
                more,
                current_tag,
            },
        }
    }
}

/// Takes a disposition down in the unsettled deliveries of a sender.
fn dispose_sent(
    unsettled: &mut Store<UnsettledMessage>,
    settled: bool,
    state: Option<DeliveryState>,
    tag: &DeliveryTag,
) -> (outcome: Option<Settled>)
    ensures
        final(unsettled)@ == sender_disposed(old(unsettled)@, settled, state, tag@),
        outcome == (if settled || definitions::settled_outcome(state) {
            match unsettled_store::held(old(unsettled)@.entries, tag@) {
                None => None,
                Some(message) => Some(Settled { reply: message.reply, state }),
            }
        } else {
            None
        }),
{
    if settled || is_settled_outcome(&state) {
        match unsettled.remove(tag) {
            None => None,
            Some(message) => Some(message.settle_with_state(state)),
        }
    } else {
        match unsettled.write() {
            None => {},
            Some(map) => {
                if let Some(at) = map.get_index_of(tag) {
                    proof {
                        ordered_map::lemma_find(map@, tag@);
                    }
                    map.value_mut(at).state = state;
                }
            },
        }
        None
    }
}

/// Takes a disposition down in the unsettled deliveries of a receiver.
fn dispose_received(
    unsettled: &mut Store<ReceiverDelivery>,
    settled: bool,
    state: Option<DeliveryState>,
    tag: &DeliveryTag,
)
    ensures
        final(unsettled)@ == receiver_disposed(old(unsettled)@, settled, state, tag@),
{
    if settled {
        let _ = unsettled.remove(tag);
    } else {
        match unsettled.write() {
            None => {},
            Some(map) => {
                if let Some(at) = map.get_index_of(tag) {
                    proof {
                        ordered_map::lemma_find(map@, tag@);
                    }
                    map.value_mut(at).remote_state(state);
                }
            },
        }
    }
}

/// Takes a transfer down in the unsettled deliveries of a receiver. Says whether the delivery is
/// unsettled then, or `None` where its tag is that of another unsettled delivery.
fn publish(
    unsettled: &mut Store<ReceiverDelivery>,
    transfer: &Transfer,
    first: bool,
    tag: &DeliveryTag,
) -> (known: Option<bool>)
    requires
        first ==> (transfer.delivery_tag matches Some(given) && given@ == tag@),
    ensures
        final(unsettled)@.revision == unsettled_store::next_revision(old(unsettled)@.revision),
        final(unsettled)@.entries == published(*transfer, first, tag@, old(unsettled)@.entries),
        match known {
            None => reuses_tag(*transfer, first, old(unsettled)@.entries),
            Some(known) => {
                &&& !reuses_tag(*transfer, first, old(unsettled)@.entries)
                &&& known == (transfer.settled != Some(true) && !transfer.aborted
                    && unsettled_store::holds(final(unsettled)@.entries, tag@))
            },
        },
{
    let settled = transfer.settled.unwrap_or(false);
    let map = unsettled.write();
    if settled || transfer.aborted {
        if let Some(map) = map {
            let _ = map.swap_remove(tag);
        }
        Some(false)
    } else if first && !transfer.resume {
        if map.is_none() {
            *map = Some(UnsettledMap::new());
        }
        match map {
            None => Some(false),
            Some(map) => {
                if map.contains_key(tag) {
                    None
                } else {
                    map.insert(
                        tag.clone(),
                        ReceiverDelivery::new(share_state(&transfer.state)),
                    );
                    proof {
                        ordered_map::lemma_find(map@, tag@);
                    }
                    Some(true)
                }
            },
        }
    } else {
        match map {
            None => Some(false),
            Some(map) => Some(map.contains_key(tag)),
        }
    }
}

impl LinkRelay<OutputHandle> {
    /// What names the link here.
    pub fn output_handle(&self) -> (handle: OutputHandle)
        ensures
            handle == self@.handle(),
    {
        match self {
            LinkRelay::Sender { output_handle, .. } => *output_handle,
            LinkRelay::Receiver { output_handle, .. } => *output_handle,
        }
    }

    /// The frame that a flow makes due at the link before its flow state takes the flow.
    pub fn on_incoming_flow(&self, flow: &LinkFlow) -> (frame: Option<LinkFrame>)
        ensures
            frame == acquisition_due(self@, *flow),
    {
        match self {
            LinkRelay::Receiver { .. } => None,
            LinkRelay::Sender { .. } => match &flow.properties {
                None => None,
                Some(fields) => {
                    let key = DeliveryTag::from_text("txn-id");
                    match fields.get(&key) {
                        Some(Value::Binary(txn_id)) => Some(LinkFrame::Acquisition(txn_id.clone())),
                        _ => None,
                    }
                },
            },
        }
    }

    /// Takes a disposition down. Says whether it is to be answered, and what is to be reported.
    pub fn on_incoming_disposition(
        &mut self,
        _role: Role,
        settled: bool,
        state: Option<DeliveryState>,
        delivery_tag: DeliveryTag,
    ) -> (result: Disposed)
        ensures
            final(self)@ == disposed(old(self)@, settled, state, delivery_tag@),
            result.echo == echo_due(old(self)@, settled, state),
            result.settled == outcome(old(self)@, settled, state, delivery_tag@),
    {
        match self {
            LinkRelay::Sender { unsettled, receiver_settle_mode, .. } => {
                let terminal = is_settled_outcome(&state);
                let reported = dispose_sent(unsettled, settled, state, &delivery_tag);
                let echo = if settled {
                    false
                } else {
                    match receiver_settle_mode {
                        ReceiverSettleMode::First => false,
                        ReceiverSettleMode::Second => terminal,
                    }
                };
                Disposed { echo, settled: reported }
            },
            LinkRelay::Receiver { unsettled, .. } => {
                dispose_received(unsettled, settled, state, &delivery_tag);
                Disposed { echo: false, settled: None }
            },
        }
    }

    /// Takes a transfer in. The identity of a new unsettled delivery is published before its bytes
    /// are handed to the receiver, so that a disposition that follows finds it.
    pub fn on_incoming_transfer(
        &mut self,
        transfer: Transfer,
        payload: Payload,
        window_slot: Option<Slot>,
    ) -> (result: Result<Forwarded, RefusedTransfer>)
        ensures
            final(self)@ == transferred(old(self)@, transfer).relay,
            match transferred(old(self)@, transfer).result {
                Ok(identity) => result == Ok::<Forwarded, RefusedTransfer>(
                    Forwarded {
                        frame: LinkFrame::Transfer {
                            input_handle: InputHandle(transfer.handle.0),
                            performative: transfer,
                            payload,
                            window_slot,
                            queue_slot: None,
                        },
                        identity,
                    },
                ),
                Err(error) => result == Err::<Forwarded, RefusedTransfer>(
                    RefusedTransfer { error, window_slot },
                ),
            },
    {
        match self {
            LinkRelay::Sender { .. } => Err(
                RefusedTransfer { error: LinkRelayError::TransferFrameToSender, window_slot },
            ),
            LinkRelay::Receiver { unsettled, more, current_tag, .. } => {
                let first = !*more;
                if first && (transfer.delivery_id.is_none() || transfer.delivery_tag.is_none()
                    || transfer.message_format.is_none()) {
                    return Err(
                        RefusedTransfer { error: LinkRelayError::InvalidTransfer, window_slot },
                    );
                }
                if let Some(tag) = &transfer.delivery_tag {
                    let contradicts = match current_tag {
                        None => false,
                        Some(current) => !current.same(tag),
                    };
                    if tag.len() > MAX_TAG_LENGTH || !first && contradicts {
                        return Err(
                            RefusedTransfer { error: LinkRelayError::InvalidTransfer, window_slot },
                        );
                    }
                }
                let tag = match &transfer.delivery_tag {
                    Some(tag) => Some(tag.clone()),
                    None => share_binary(current_tag),
                };
                let known = match &tag {
                    None => false,
                    Some(tag) => match publish(unsettled, &transfer, first, tag) {
                        None => {
                            return Err(
                                RefusedTransfer {
                                    error: LinkRelayError::InvalidTransfer,
                                    window_slot,
                                },
                            );
                        },
                        Some(known) => known,
                    },
                };
                *more = transfer.more && !transfer.aborted;
                *current_tag = if *more {
                    share_binary(&tag)
                } else {
                    None
                };
                let identity = if first && known {
                    match (transfer.delivery_id, tag) {
                        (Some(delivery_id), Some(tag)) => Some((delivery_id, tag)),
                        _ => None,
                    }
                } else {
                    None
                };
                Ok(
                    Forwarded {
                        frame: LinkFrame::Transfer {
                            input_handle: InputHandle(transfer.handle.0),
                            performative: transfer,
                            payload,
                            window_slot,
                            queue_slot: None,
                        },
                        identity,
                    },
                )
            },
        }
    }

    /// The frame by which the link learns that the peer detached.
    pub fn on_incoming_detach(&self, detach: Detach) -> (frame: LinkFrame)
        ensures
            frame == LinkFrame::Detach(detach),
    {
        LinkFrame::Detach(detach)
    }
}

} // verus!
