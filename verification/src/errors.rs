//! The errors of links and sessions.

use vstd::prelude::*;

use crate::codec;
use crate::definitions::Error;
use crate::receiver_delivery::DeliveryInfo;

verus! {

/// Why a connection stopped.
#[derive(Debug, Clone, Copy, PartialEq, Eq, Structural)]
pub enum ConnectionStopReason {
    /// It was closed.
    Closed,
    /// It was stopped locally, without protocol cleanup.
    Stopped,
    /// Its transport failed.
    TransportFailed,
}

/// Why a session, or its connection, stopped.
#[derive(Debug, Clone, Copy, PartialEq, Eq, Structural)]
pub enum SessionStopReason {
    /// The session ended.
    Ended,
    /// The session was stopped locally, without protocol cleanup.
    Stopped,
    /// The connection stopped first.
    ConnectionStopped(ConnectionStopReason),
}

/// Why an admitted message could not be decoded.
#[derive(Debug)]
pub struct MessageDecodeError {
    /// What the codec reported.
    pub source: codec::Error,
    /// The delivery.
    pub info: DeliveryInfo,
}

/// Why an incoming transfer was not taken.
#[derive(Debug)]
pub enum ReceiverTransferError {
    /// The link is not attached.
    IllegalState,
    /// The peer sent more messages than there was credit for.
    TransferLimitExceeded,
    /// The delivery has no number.
    DeliveryIdIsNone,
    /// The delivery has no tag.
    DeliveryTagIsNone,
    /// Transfers of one delivery disagree.
    InconsistentFieldInMultiFrameDelivery,
    /// The delivery asks for settlement in mode second on a link in mode first.
    IllegalRcvSettleModeInTransfer,
    /// The bytes to be retained exceed their bound.
    MessageSizeExceeded,
    /// The retained bytes are no prefix of a message.
    InvalidMessageEncoding(codec::Error),
    /// The message could not be decoded.
    MessageDecode(MessageDecodeError),
}

/// Why nothing was received.
#[derive(Debug, Clone, Copy, PartialEq, Eq, Structural)]
pub enum RecvError {
    /// Transfers of one delivery disagree.
    InconsistentFieldInMultiFrameDelivery,
}

/// Why a frame could not be handed to a link.
#[derive(Debug, Clone, Copy, PartialEq, Eq, Structural)]
pub enum LinkRelayError {
    /// The link is gone.
    UnattachedHandle,
    /// A sender does not take transfers.
    TransferFrameToSender,
    /// The transfer does not identify its delivery, or not as the transfers before it did.
    InvalidTransfer,
}

/// Why an attach was not sent.
#[derive(Debug, Clone, Copy, PartialEq, Eq, Structural)]
pub enum SendAttachErrorKind {
    /// The link cannot attach in its state.
    IllegalState,
    /// The session stopped.
    SessionStopped(SessionStopReason),
}

/// Why a flow was not sent.
#[derive(Debug, Clone, Copy, PartialEq, Eq, Structural)]
pub enum FlowError {
    /// The link is not attached.
    IllegalState,
    /// The session stopped.
    SessionStopped(SessionStopReason),
}

/// Why a disposition was not sent.
#[derive(Debug, Clone, Copy, PartialEq, Eq, Structural)]
pub enum DispositionError {
    /// The link is not attached.
    IllegalState,
    /// The session stopped.
    SessionStopped(SessionStopReason),
}

/// Why a link was not detached in order.
#[derive(Debug)]
pub enum DetachError {
    /// The link cannot detach in its state.
    IllegalState,
    /// The session stopped.
    SessionStopped(SessionStopReason),
    /// The peer detached where a close was due.
    DetachedByRemote,
    /// The peer closed where a detach was due.
    ClosedByRemote,
    /// The peer detached with an error.
    RemoteDetachedWithError(Error),
    /// The peer closed with an error.
    RemoteClosedWithError(Error),
}

/// Why a receiver was not attached.
#[derive(Debug)]
pub enum ReceiverAttachError {
    /// The session stopped.
    SessionStopped(SessionStopReason),
    /// The link cannot attach in its state.
    IllegalState,
    /// Something else than an attach came in.
    NonAttachFrameReceived,
    /// The peer will detach at once.
    ExpectImmediateDetach,
    /// The peer closed with an error.
    RemoteClosedWithError(Error),
    /// The name of the link is taken.
    DuplicatedLinkName,
    /// The peer has no source.
    IncomingSourceIsNone,
    /// The peer wants a target of another kind.
    CoordinatorIsNotImplemented,
    /// The peer does not tell its delivery count.
    InitialDeliveryCountIsNone,
    /// A dynamic source has no address.
    SourceAddressIsNoneWhenDynamicIsTrue,
    /// A dynamic target has an address.
    TargetAddressIsSomeWhenDynamicIsTrue,
    /// A node that is not dynamic has properties of a dynamic one.
    DynamicNodePropertiesIsSomeWhenDynamicIsFalse,
}

/// Why a frame could not be processed by a session.
#[derive(Debug, Clone, Copy, PartialEq, Eq, Structural)]
pub enum SessionInnerError {
    /// No link is attached under the handle.
    UnattachedHandle,
    /// The link name is in use.
    HandleInUse,
    /// The peer attaches a link that was never allocated.
    RemoteAttachingLinkNameNotFound,
    /// The peer sent more transfers than the session can take.
    WindowViolation,
    /// A sender does not take transfers.
    TransferFrameToSender,
    /// A transfer does not identify its delivery.
    InvalidTransfer,
}

impl From<LinkRelayError> for SessionInnerError {
    fn from(error: LinkRelayError) -> (converted: Self) {
        match error {
            LinkRelayError::UnattachedHandle => SessionInnerError::UnattachedHandle,
            LinkRelayError::TransferFrameToSender => SessionInnerError::TransferFrameToSender,
            LinkRelayError::InvalidTransfer => SessionInnerError::InvalidTransfer,
        }
    }
}

impl vstd::std_specs::convert::FromSpecImpl<LinkRelayError> for SessionInnerError {
    open spec fn obeys_from_spec() -> bool {
        true
    }

    open spec fn from_spec(error: LinkRelayError) -> SessionInnerError {
        match error {
            LinkRelayError::UnattachedHandle => SessionInnerError::UnattachedHandle,
            LinkRelayError::TransferFrameToSender => SessionInnerError::TransferFrameToSender,
            LinkRelayError::InvalidTransfer => SessionInnerError::InvalidTransfer,
        }
    }
}

/// Why a link was not allocated.
#[derive(Debug, Clone, Copy, PartialEq, Eq, Structural)]
pub enum AllocLinkError {
    /// The session stopped.
    SessionStopped(SessionStopReason),
    /// The session is not mapped.
    SessionNotMapped,
    /// The name of the link is taken.
    DuplicatedLinkName,
    /// The inbox of the link would be larger than a queue can be.
    NativeBufferTooLarge,
}

/// Why a session did not change its state in order.
#[derive(Debug)]
pub enum SessionStateError {
    /// The session cannot do so in its state.
    IllegalState,
    /// The peer ended the session.
    RemoteEnded,
    /// The peer ended the session with an error.
    RemoteEndedWithError(Error),
    /// The connection stopped.
    ConnectionStopped(ConnectionStopReason),
}

/// Why a session cannot be ended yet.
#[derive(Debug, Clone, Copy, PartialEq, Eq, Structural)]
pub enum TryEndError {
    /// It has ended already.
    AlreadyEnded,
    /// The peer has not ended it yet.
    RemoteEndNotReceived,
}

/// Why a controller could not send.
#[derive(Debug, Clone, Copy, PartialEq, Eq, Structural)]
pub enum ControllerSendError {
    /// The one discharge was started and its outcome was never learned.
    DischargeOutcomeUnknown,
}

/// Why no transaction id was allocated.
#[derive(Debug, Clone, Copy, PartialEq, Eq, Structural)]
pub enum AllocTxnIdError {
    /// The session is no transactional resource.
    NotImplemented,
}

/// Why a transaction was not discharged.
#[derive(Debug, Clone, Copy, PartialEq, Eq, Structural)]
pub enum TransactionError {
    /// The transaction is unknown.
    UnknownId,
}

impl SendAttachErrorKind {
    /// What a frame that the session no longer takes is reported as. Where no stop reason is
    /// recorded, the failure is local to the link.
    pub open spec fn undelivered_spec(reason: Option<SessionStopReason>) -> Self {
        match reason {
            Some(reason) => SendAttachErrorKind::SessionStopped(reason),
            None => SendAttachErrorKind::IllegalState,
        }
    }

    /// What a frame that the session no longer takes is reported as.
    pub fn undelivered(reason: Option<SessionStopReason>) -> (error: Self)
        ensures
            error == Self::undelivered_spec(reason),
    {
        match reason {
            Some(reason) => SendAttachErrorKind::SessionStopped(reason),
            None => SendAttachErrorKind::IllegalState,
        }
    }
}

impl FlowError {
    /// What a frame that the session no longer takes is reported as. Where no stop reason is
    /// recorded, the failure is local to the link.
    pub open spec fn undelivered_spec(reason: Option<SessionStopReason>) -> Self {
        match reason {
            Some(reason) => FlowError::SessionStopped(reason),
            None => FlowError::IllegalState,
        }
    }

    /// What a frame that the session no longer takes is reported as.
    pub fn undelivered(reason: Option<SessionStopReason>) -> (error: Self)
        ensures
            error == Self::undelivered_spec(reason),
    {
        match reason {
            Some(reason) => FlowError::SessionStopped(reason),
            None => FlowError::IllegalState,
        }
    }
}

impl DispositionError {
    /// What a frame that the session no longer takes is reported as. Where no stop reason is
    /// recorded, the failure is local to the link.
    pub open spec fn undelivered_spec(reason: Option<SessionStopReason>) -> Self {
        match reason {
            Some(reason) => DispositionError::SessionStopped(reason),
            None => DispositionError::IllegalState,
        }
    }

    /// What a frame that the session no longer takes is reported as.
    pub fn undelivered(reason: Option<SessionStopReason>) -> (error: Self)
        ensures
            error == Self::undelivered_spec(reason),
    {
        match reason {
            Some(reason) => DispositionError::SessionStopped(reason),
            None => DispositionError::IllegalState,
        }
    }
}

impl DetachError {
    /// What a frame that the session no longer takes is reported as. Where no stop reason is
    /// recorded, the failure is local to the link.
    pub open spec fn undelivered_spec(reason: Option<SessionStopReason>) -> Self {
        match reason {
            Some(reason) => DetachError::SessionStopped(reason),
            None => DetachError::IllegalState,
        }
    }

    /// What a frame that the session no longer takes is reported as.
    pub fn undelivered(reason: Option<SessionStopReason>) -> (error: Self)
        ensures
            error == Self::undelivered_spec(reason),
    {
        match reason {
            Some(reason) => DetachError::SessionStopped(reason),
            None => DetachError::IllegalState,
        }
    }
}

impl ReceiverAttachError {
    /// What a session that no longer answers is reported as. Where no stop reason is recorded,
    /// the failure is local to the link.
    pub open spec fn undelivered_spec(reason: Option<SessionStopReason>) -> Self {
        match reason {
            Some(reason) => ReceiverAttachError::SessionStopped(reason),
            None => ReceiverAttachError::IllegalState,
        }
    }

    /// What a session that no longer answers is reported as.
    pub fn undelivered(reason: Option<SessionStopReason>) -> (error: Self)
        ensures
            error == Self::undelivered_spec(reason),
    {
        match reason {
            Some(reason) => ReceiverAttachError::SessionStopped(reason),
            None => ReceiverAttachError::IllegalState,
        }
    }
}

/// Why the connection of a session stopped. One that recorded no reason was closed.
pub open spec fn connection_stopped(reason: Option<ConnectionStopReason>) -> ConnectionStopReason {
    match reason {
        Some(reason) => reason,
        None => ConnectionStopReason::Closed,
    }
}

/// Why the connection of a session stopped.
pub fn connection_stop_reason_or_closed(reason: Option<ConnectionStopReason>) -> (stopped:
    ConnectionStopReason)
    ensures
        stopped == connection_stopped(reason),
{
    match reason {
        Some(reason) => reason,
        None => ConnectionStopReason::Closed,
    }
}

} // verus!
