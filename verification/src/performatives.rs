//! The frame bodies that the protocol engine reads and writes.

use std::sync::Arc;

use vstd::prelude::*;

use crate::definitions::{
    share_binary, share_state, Binary, DeliveryNumber, DeliveryState, DeliveryTag, Error, Fields,
    Handle, ReceiverSettleMode, Role, SenderSettleMode, SequenceNo, Symbol, TransferNumber,
};
use crate::ordered_map::OrderedMap;

verus! {

/// The capabilities that an endpoint offers or desires, shared.
pub type Capabilities = Arc<Vec<Symbol>>;

/// The same capabilities once more.
pub fn share_capabilities(capabilities: &Option<Capabilities>) -> (copy: Option<Capabilities>)
    ensures
        copy == *capabilities,
{
    match capabilities {
        None => None,
        Some(capabilities) => Some(Arc::clone(capabilities)),
    }
}

/// The unsettled deliveries of one end of a link, as that end tells them to the other.
pub type UnsettledStates = OrderedMap<DeliveryTag, Option<DeliveryState>>;

/// Where a link takes its messages from. The engine hands it on as it is encoded.
#[derive(Debug)]
pub struct Source {
    /// The encoded terminus.
    pub encoded: Binary,
}

/// Where a link puts its messages. The engine hands it on as it is encoded.
#[derive(Debug)]
pub enum TargetArchetype {
    /// An encoded terminus.
    Target(Binary),
    /// An encoded transaction coordinator.
    Coordinator(Binary),
}

impl Clone for Source {
    fn clone(&self) -> (copy: Self)
        ensures
            copy == *self,
    {
        Source { encoded: self.encoded.clone() }
    }
}

impl Clone for TargetArchetype {
    fn clone(&self) -> (copy: Self)
        ensures
            copy == *self,
    {
        match self {
            TargetArchetype::Target(encoded) => TargetArchetype::Target(encoded.clone()),
            TargetArchetype::Coordinator(encoded) => TargetArchetype::Coordinator(encoded.clone()),
        }
    }
}

/// Attaches a link to a session.
#[derive(Debug)]
pub struct Attach {
    /// The name of the link.
    pub name: String,
    /// The handle that the sender of this frame gives the link.
    pub handle: Handle,
    /// The role of the end that sends this frame.
    pub role: Role,
    /// The settlement mode of the sender.
    pub snd_settle_mode: SenderSettleMode,
    /// The settlement mode of the receiver.
    pub rcv_settle_mode: ReceiverSettleMode,
    /// Where messages come from.
    pub source: Option<Source>,
    /// Where messages go to.
    pub target: Option<TargetArchetype>,
    /// The deliveries that are not settled yet.
    pub unsettled: Option<UnsettledStates>,
    /// Whether `unsettled` lacks some of them.
    pub incomplete_unsettled: bool,
    /// The delivery count with which the sender starts.
    pub initial_delivery_count: Option<SequenceNo>,
    /// The greatest message size, where there is one.
    pub max_message_size: Option<u64>,
    /// Capabilities that the sender of this frame has.
    pub offered_capabilities: Option<Capabilities>,
    /// Capabilities that the sender of this frame would like.
    pub desired_capabilities: Option<Capabilities>,
    /// Link properties.
    pub properties: Option<Fields>,
}

/// Detaches a link from a session.
#[derive(Debug)]
pub struct Detach {
    /// The handle that the sender of this frame gave the link.
    pub handle: Handle,
    /// Whether the link is closed for good.
    pub closed: bool,
    /// Why, where it is an error.
    pub error: Option<Error>,
}

/// Begins a session.
#[derive(Debug)]
pub struct Begin {
    /// The channel on which the peer began the session, where this frame answers it.
    pub remote_channel: Option<u16>,
    /// The transfer id of the next transfer.
    pub next_outgoing_id: TransferNumber,
    /// How many transfers may come in.
    pub incoming_window: TransferNumber,
    /// How many transfers may go out.
    pub outgoing_window: TransferNumber,
    /// The greatest handle that may be used.
    pub handle_max: Handle,
    /// Capabilities that the sender of this frame has.
    pub offered_capabilities: Option<Capabilities>,
    /// Capabilities that the sender of this frame would like.
    pub desired_capabilities: Option<Capabilities>,
    /// Session properties.
    pub properties: Option<Fields>,
}

/// Ends a session.
#[derive(Debug)]
pub struct End {
    /// Why, where it is an error.
    pub error: Option<Error>,
}

/// Updates the flow state of a session and, where a handle is given, of one of its links.
#[derive(Debug)]
pub struct Flow {
    /// The transfer id that the sender of this frame expects next.
    pub next_incoming_id: Option<TransferNumber>,
    /// How many transfers the sender of this frame can take.
    pub incoming_window: TransferNumber,
    /// The transfer id of the next transfer that the sender of this frame will send.
    pub next_outgoing_id: TransferNumber,
    /// How many transfers the sender of this frame may send.
    pub outgoing_window: TransferNumber,
    /// The link, where there is one.
    pub handle: Option<Handle>,
    /// The delivery count of the link.
    pub delivery_count: Option<SequenceNo>,
    /// The credit of the link.
    pub link_credit: Option<u32>,
    /// How many messages wait at the sender.
    pub available: Option<u32>,
    /// Whether credit is to be used up.
    pub drain: bool,
    /// Whether an answer is asked for.
    pub echo: bool,
    /// Link state properties.
    pub properties: Option<Fields>,
}

/// The flow state of one link.
#[derive(Debug)]
pub struct LinkFlow {
    /// The link.
    pub handle: Handle,
    /// The delivery count of the link.
    pub delivery_count: Option<SequenceNo>,
    /// The credit of the link.
    pub link_credit: Option<u32>,
    /// How many messages wait at the sender.
    pub available: Option<u32>,
    /// Whether credit is to be used up.
    pub drain: bool,
    /// Whether an answer is asked for.
    pub echo: bool,
    /// Link state properties.
    pub properties: Option<Fields>,
}

impl Flow {
    /// The link part of the flow, where it names a link.
    pub open spec fn link_part(self) -> Option<LinkFlow> {
        match self.handle {
            None => None,
            Some(handle) => Some(
                LinkFlow {
                    handle,
                    delivery_count: self.delivery_count,
                    link_credit: self.link_credit,
                    available: self.available,
                    drain: self.drain,
                    echo: self.echo,
                    properties: self.properties,
                },
            ),
        }
    }

    /// The link part of the flow, where it names a link.
    pub fn into_link_flow(self) -> (flow: Option<LinkFlow>)
        ensures
            flow == self.link_part(),
    {
        match self.handle {
            None => None,
            Some(handle) => Some(
                LinkFlow {
                    handle,
                    delivery_count: self.delivery_count,
                    link_credit: self.link_credit,
                    available: self.available,
                    drain: self.drain,
                    echo: self.echo,
                    properties: self.properties,
                },
            ),
        }
    }
}

/// Carries message bytes of a delivery.
#[derive(Debug)]
pub struct Transfer {
    /// The link.
    pub handle: Handle,
    /// The number of the delivery in its session.
    pub delivery_id: Option<DeliveryNumber>,
    /// The tag of the delivery on its link.
    pub delivery_tag: Option<DeliveryTag>,
    /// The format of the message.
    pub message_format: Option<u32>,
    /// Whether the sender has settled the delivery.
    pub settled: Option<bool>,
    /// Whether more transfers of this delivery follow.
    pub more: bool,
    /// The receiver settlement mode of this delivery.
    pub rcv_settle_mode: Option<ReceiverSettleMode>,
    /// The state of the delivery at the sender.
    pub state: Option<DeliveryState>,
    /// Whether a delivery is resumed.
    pub resume: bool,
    /// Whether the delivery is given up.
    pub aborted: bool,
    /// Whether the sender can wait for the disposition.
    pub batchable: bool,
}

impl Transfer {
    /// The first transfer of a delivery, with nothing else said of it.
    pub fn new(
        handle: Handle,
        delivery_id: DeliveryNumber,
        delivery_tag: DeliveryTag,
        message_format: u32,
    ) -> (transfer: Self)
        ensures
            transfer == (Transfer {
                handle,
                delivery_id: Some(delivery_id),
                delivery_tag: Some(delivery_tag),
                message_format: Some(message_format),
                settled: None,
                more: false,
                rcv_settle_mode: None,
                state: None,
                resume: false,
                aborted: false,
                batchable: false,
            }),
    {
        Transfer {
            handle,
            delivery_id: Some(delivery_id),
            delivery_tag: Some(delivery_tag),
            message_format: Some(message_format),
            settled: None,
            more: false,
            rcv_settle_mode: None,
            state: None,
            resume: false,
            aborted: false,
            batchable: false,
        }
    }
}

impl Clone for Transfer {
    fn clone(&self) -> (copy: Self)
        ensures
            copy == *self,
    {
        Transfer {
            handle: self.handle,
            delivery_id: self.delivery_id,
            delivery_tag: share_binary(&self.delivery_tag),
            message_format: self.message_format,
            settled: self.settled,
            more: self.more,
            rcv_settle_mode: self.rcv_settle_mode,
            state: share_state(&self.state),
            resume: self.resume,
            aborted: self.aborted,
            batchable: self.batchable,
        }
    }
}

/// Tells the state of deliveries, or settles them.
#[derive(Debug)]
pub struct Disposition {
    /// The role of the end that sends this frame.
    pub role: Role,
    /// The first delivery.
    pub first: DeliveryNumber,
    /// The last delivery, where there are more than one.
    pub last: Option<DeliveryNumber>,
    /// Whether the deliveries are settled.
    pub settled: bool,
    /// Their state.
    pub state: Option<DeliveryState>,
    /// Whether an answer can wait.
    pub batchable: bool,
}

impl Clone for Disposition {
    fn clone(&self) -> (copy: Self)
        ensures
            copy == *self,
    {
        Disposition {
            role: self.role,
            first: self.first,
            last: self.last,
            settled: self.settled,
            state: share_state(&self.state),
            batchable: self.batchable,
        }
    }
}

} // verus!
