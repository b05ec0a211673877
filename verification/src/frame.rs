//! The frames that links, sessions and connections hand to each other.

use vstd::prelude::*;

use crate::definitions::{InputHandle, OutgoingChannel, Payload, TransactionId};
use crate::performatives::{Attach, Begin, Detach, Disposition, End, Flow, LinkFlow, Transfer};
use crate::receive_window::Slot;
use crate::transfer_queue::QueueSlot;

verus! {

/// What a link and its session hand to each other.
#[derive(Debug)]
pub enum LinkFrame {
    /// Attaches the link.
    Attach(Attach),
    /// Updates its flow state.
    Flow(LinkFlow),
    /// Carries message bytes.
    Transfer {
        /// The link.
        input_handle: InputHandle,
        /// What is said of the delivery.
        performative: Transfer,
        /// The message bytes.
        payload: Payload,
        /// The place of the transfer in the receive window of the session.
        window_slot: Option<Slot>,
        /// The place of the transfer among the bytes that wait to be sent.
        queue_slot: Option<QueueSlot>,
    },
    /// Tells the state of deliveries.
    Disposition(Disposition),
    /// Detaches the link.
    Detach(Detach),
    /// Asks for messages within a transaction.
    Acquisition(TransactionId),
}

/// The body of a frame that a session sends.
#[derive(Debug)]
pub enum SessionFrameBody {
    /// Begins the session.
    Begin(Begin),
    /// Attaches a link.
    Attach(Attach),
    /// Updates the flow state.
    Flow(Flow),
    /// Carries message bytes.
    Transfer {
        /// What is said of the delivery.
        performative: Transfer,
        /// The message bytes.
        payload: Payload,
    },
    /// Tells the state of deliveries.
    Disposition(Disposition),
    /// Detaches a link.
    Detach(Detach),
    /// Ends the session.
    End(End),
}

/// A frame that a session sends.
#[derive(Debug)]
pub struct SessionFrame {
    /// The channel of the session.
    pub channel: OutgoingChannel,
    /// What is sent.
    pub body: SessionFrameBody,
    /// The bytes that are reserved until the frame is sent.
    pub queue_slot: Option<QueueSlot>,
}

impl SessionFrame {
    /// A frame that holds no reservation.
    pub fn new(channel: OutgoingChannel, body: SessionFrameBody) -> (frame: Self)
        ensures
            frame == (SessionFrame { channel, body, queue_slot: None }),
    {
        SessionFrame { channel, body, queue_slot: None }
    }
}

/// What a session sends at once.
#[derive(Debug)]
pub enum SessionOutgoingItem {
    /// One frame.
    SingleFrame(SessionFrame),
    /// Frames in order.
    MultipleFrames(Vec<SessionFrame>),
}

/// The frames that a session sends at once, in order.
pub open spec fn frames_of(item: Option<SessionOutgoingItem>) -> Seq<SessionFrame> {
    match item {
        None => seq![],
        Some(SessionOutgoingItem::SingleFrame(frame)) => seq![frame],
        Some(SessionOutgoingItem::MultipleFrames(frames)) => frames@,
    }
}

} // verus!
