//! How a session begins and ends, and what it answers once it stopped.

use vstd::prelude::*;

use crate::definitions::{share_fields, Error, IncomingChannel, TransactionId};
use crate::errors::{
    self, connection_stop_reason_or_closed, AllocLinkError, AllocTxnIdError, ConnectionStopReason,
    SessionInnerError, SessionStateError, SessionStopReason, TransactionError,
};
use crate::frame::{SessionFrame, SessionFrameBody};
use crate::performatives::{share_capabilities, Begin, End};
use crate::session::{self, Session, SessionState, SessionView};
use crate::transfer_queue;

verus! {

/// The state after a begin came in, in a state in which one may.
pub open spec fn state_after_begin_received(state: SessionState) -> Option<SessionState> {
    match state {
        SessionState::Unmapped => Some(SessionState::BeginReceived),
        SessionState::BeginSent => Some(SessionState::Mapped),
        _ => None,
    }
}

/// The state after a begin was sent, in a state in which one may be.
pub open spec fn state_after_begin_sent(state: SessionState) -> Option<SessionState> {
    match state {
        SessionState::Unmapped => Some(SessionState::BeginSent),
        SessionState::BeginReceived => Some(SessionState::Mapped),
        _ => None,
    }
}

/// The state after an end came in, in a state in which one may.
pub open spec fn state_after_end_received(state: SessionState) -> Option<SessionState> {
    match state {
        SessionState::BeginSent => Some(SessionState::EndReceived),
        SessionState::BeginReceived => Some(SessionState::EndReceived),
        SessionState::Mapped => Some(SessionState::EndReceived),
        SessionState::EndSent => Some(SessionState::Unmapped),
        SessionState::Discarding => Some(SessionState::Unmapped),
        _ => None,
    }
}

/// What an incoming end is reported as. It is in order only where it answers one of this end and
/// carries no error.
pub open spec fn end_report(state: SessionState, end: End) -> Result<(), SessionStateError> {
    match state_after_end_received(state) {
        None => Err(SessionStateError::IllegalState),
        Some(after) => match end.error {
            Some(error) => Err(SessionStateError::RemoteEndedWithError(error)),
            None => if after == SessionState::EndReceived {
                Err(SessionStateError::RemoteEnded)
            } else {
                Ok(())
            },
        },
    }
}

/// The state after an end was sent, in a state in which one may be.
pub open spec fn state_after_end_sent(state: SessionState, with_error: bool) -> Option<
    SessionState,
> {
    match state {
        SessionState::Mapped => if with_error {
            Some(SessionState::Discarding)
        } else {
            Some(SessionState::EndSent)
        },
        SessionState::EndReceived => Some(SessionState::Unmapped),
        _ => None,
    }
}

/// The begin of a session.
pub open spec fn begin_of(session: SessionView) -> Begin {
    Begin {
        remote_channel: match session.incoming_channel {
            None => None,
            Some(channel) => Some(channel.0),
        },
        next_outgoing_id: session.next_outgoing_id,
        incoming_window: session::available(session),
        outgoing_window: session.outgoing_window,
        handle_max: session.handle_max,
        offered_capabilities: session.offered_capabilities,
        desired_capabilities: session.desired_capabilities,
        properties: session.properties,
    }
}

/// What a frame that the connection no longer takes is reported as.
pub open spec fn connection_lost(reason: Option<ConnectionStopReason>) -> SessionStateError {
    SessionStateError::ConnectionStopped(errors::connection_stopped(reason))
}

impl Session {
    /// Takes the begin of the peer.
    pub fn on_incoming_begin(&mut self, channel: IncomingChannel, begin: Begin) -> (result: Result<
        (),
        SessionStateError,
    >)
        ensures
            match state_after_begin_received(old(self)@.local_state) {
                None => {
                    &&& result == Err::<(), SessionStateError>(SessionStateError::IllegalState)
                    &&& final(self)@ == old(self)@
                },
                Some(state) => {
                    &&& result == Ok::<(), SessionStateError>(())
                    &&& final(self)@ == (SessionView {
                        local_state: state,
                        incoming_channel: Some(channel),
                        next_incoming_id: begin.next_outgoing_id,
                        remote_incoming_window: begin.incoming_window,
                        remote_outgoing_window: begin.outgoing_window,
                        ..old(self)@
                    })
                },
            },
    {
        match self.local_state {
            SessionState::Unmapped => {
                self.local_state = SessionState::BeginReceived;
            },
            SessionState::BeginSent => {
                self.local_state = SessionState::Mapped;
            },
            _ => return Err(SessionStateError::IllegalState),
        }
        self.incoming_channel = Some(channel);
        self.next_incoming_id = begin.next_outgoing_id;
        self.remote_incoming_window = begin.incoming_window;
        self.remote_outgoing_window = begin.outgoing_window;
        Ok(())
    }

    /// Takes the end of the peer.
    pub fn on_incoming_end(&mut self, _channel: IncomingChannel, end: End) -> (result: Result<
        (),
        SessionStateError,
    >)
        ensures
            result == end_report(old(self)@.local_state, end),
            final(self)@ == (match state_after_end_received(old(self)@.local_state) {
                None => old(self)@,
                Some(state) => SessionView { local_state: state, ..old(self)@ },
            }),
    {
        match self.local_state {
            SessionState::BeginSent | SessionState::BeginReceived | SessionState::Mapped => {
                self.local_state = SessionState::EndReceived;
                match end.error {
                    Some(error) => Err(SessionStateError::RemoteEndedWithError(error)),
                    None => Err(SessionStateError::RemoteEnded),
                }
            },
            SessionState::EndSent | SessionState::Discarding => {
                self.local_state = SessionState::Unmapped;
                match end.error {
                    Some(error) => Err(SessionStateError::RemoteEndedWithError(error)),
                    None => Ok(()),
                }
            },
            _ => Err(SessionStateError::IllegalState),
        }
    }

    /// The begin to be sent, in a state in which one may be.
    pub fn send_begin(&self) -> (result: Result<SessionFrame, SessionStateError>)
        ensures
            result == (match state_after_begin_sent(self@.local_state) {
                None => Err::<SessionFrame, SessionStateError>(SessionStateError::IllegalState),
                Some(_) => Ok(
                    session::plain_frame(self@, SessionFrameBody::Begin(begin_of(self@))),
                ),
            }),
    {
        let begin = Begin {
            remote_channel: match self.incoming_channel {
                None => None,
                Some(channel) => Some(channel.0),
            },
            next_outgoing_id: self.next_outgoing_id,
            incoming_window: self.receive_window.available(),
            outgoing_window: self.outgoing_window,
            handle_max: self.handle_max,
            offered_capabilities: share_capabilities(&self.offered_capabilities),
            desired_capabilities: share_capabilities(&self.desired_capabilities),
            properties: share_fields(&self.properties),
        };
        match self.local_state {
            SessionState::Unmapped | SessionState::BeginReceived => Ok(
                SessionFrame::new(self.outgoing_channel, SessionFrameBody::Begin(begin)),
            ),
            _ => Err(SessionStateError::IllegalState),
        }
    }

    /// Takes down that a begin was handed to the connection, or that the connection no longer took
    /// it.
    pub fn begin_sent(&mut self, delivered: bool) -> (result: Result<(), SessionStateError>)
        ensures
            match state_after_begin_sent(old(self)@.local_state) {
                None => {
                    &&& result == Err::<(), SessionStateError>(SessionStateError::IllegalState)
                    &&& final(self)@ == old(self)@
                },
                Some(state) => if delivered {
                    &&& result == Ok::<(), SessionStateError>(())
                    &&& final(self)@ == (SessionView { local_state: state, ..old(self)@ })
                } else {
                    &&& result == Err::<(), SessionStateError>(
                        connection_lost(old(self)@.connection_stop_reason),
                    )
                    &&& final(self)@ == old(self)@
                },
            },
    {
        let next = match self.local_state {
            SessionState::Unmapped => SessionState::BeginSent,
            SessionState::BeginReceived => SessionState::Mapped,
            _ => return Err(SessionStateError::IllegalState),
        };
        if !delivered {
            return Err(
                SessionStateError::ConnectionStopped(
                    connection_stop_reason_or_closed(self.connection_stop_reason),
                ),
            );
        }
        self.local_state = next;
        Ok(())
    }

    /// The end to be sent. The state changes whether sending succeeds or not.
    pub fn send_end(&mut self, error: Option<Error>) -> (result: Result<
        SessionFrame,
        SessionStateError,
    >)
        ensures
            match state_after_end_sent(old(self)@.local_state, error is Some) {
                None => {
                    &&& result == Err::<SessionFrame, SessionStateError>(
                        SessionStateError::IllegalState,
                    )
                    &&& final(self)@ == old(self)@
                },
                Some(state) => {
                    &&& result == Ok::<SessionFrame, SessionStateError>(
                        session::plain_frame(old(self)@, SessionFrameBody::End(End { error })),
                    )
                    &&& final(self)@ == (SessionView { local_state: state, ..old(self)@ })
                },
            },
    {
        match self.local_state {
            SessionState::Mapped => {
                self.local_state = if error.is_some() {
                    SessionState::Discarding
                } else {
                    SessionState::EndSent
                };
            },
            SessionState::EndReceived => {
                self.local_state = SessionState::Unmapped;
            },
            _ => return Err(SessionStateError::IllegalState),
        }
        Ok(SessionFrame::new(self.outgoing_channel, SessionFrameBody::End(End { error })))
    }

    /// What is reported of an end that was handed to the connection, or that it no longer took.
    pub fn end_sent(&self, delivered: bool) -> (result: Result<(), SessionStateError>)
        ensures
            result == (if delivered {
                Ok::<(), SessionStateError>(())
            } else {
                Err(connection_lost(self@.connection_stop_reason))
            }),
    {
        if delivered {
            Ok(())
        } else {
            Err(
                SessionStateError::ConnectionStopped(
                    connection_stop_reason_or_closed(self.connection_stop_reason),
                ),
            )
        }
    }

    /// Takes down why the session stopped. The first reason stays.
    pub fn set_session_stop_reason(&mut self, reason: SessionStopReason)
        ensures
            final(self)@ == (SessionView {
                session_stop_reason: if old(self)@.session_stop_reason is Some {
                    old(self)@.session_stop_reason
                } else {
                    Some(reason)
                },
                ..old(self)@
            }),
    {
        if self.session_stop_reason.is_none() {
            self.session_stop_reason = Some(reason);
        }
    }

    /// No transaction id is allocated: a plain session is no transactional resource.
    pub fn allocate_transaction_id(&mut self) -> (result: Result<TransactionId, AllocTxnIdError>)
        ensures
            result == Err::<TransactionId, AllocTxnIdError>(AllocTxnIdError::NotImplemented),
            *final(self) == *old(self),
    {
        Err(AllocTxnIdError::NotImplemented)
    }

    /// No transaction is committed: a plain session knows none.
    pub fn commit_transaction(&mut self, _txn_id: TransactionId) -> (result: Result<
        Result<(), TransactionError>,
        SessionInnerError,
    >)
        ensures
            result == Ok::<Result<(), TransactionError>, SessionInnerError>(
                Err(TransactionError::UnknownId),
            ),
            *final(self) == *old(self),
    {
        Ok(Err(TransactionError::UnknownId))
    }

    /// No transaction is rolled back: a plain session knows none.
    pub fn rollback_transaction(&mut self, _txn_id: TransactionId) -> (result: Result<
        Result<(), TransactionError>,
        SessionInnerError,
    >)
        ensures
            result == Ok::<Result<(), TransactionError>, SessionInnerError>(
                Err(TransactionError::UnknownId),
            ),
            *final(self) == *old(self),
    {
        Ok(Err(TransactionError::UnknownId))
    }
}

/// The error of a link that cannot be allocated because its session stopped. One that recorded no
/// reason has ended.
pub open spec fn alloc_stopped(reason: Option<SessionStopReason>) -> AllocLinkError {
    match reason {
        Some(reason) => AllocLinkError::SessionStopped(reason),
        None => AllocLinkError::SessionStopped(SessionStopReason::Ended),
    }
}

/// The error of a link that cannot be allocated because its session stopped.
pub fn session_stopped(reason: Option<SessionStopReason>) -> (error: AllocLinkError)
    ensures
        error == alloc_stopped(reason),
{
    match reason {
        Some(reason) => AllocLinkError::SessionStopped(reason),
        None => AllocLinkError::SessionStopped(SessionStopReason::Ended),
    }
}

/// Size the link inbox for every transfer promised by the session, plus the attach/detach control
/// frames. `window` is what the session answered, where it still did. A queue holds no more frames
/// than a semaphore has permits.
pub fn link_incoming_capacity(
    window: Option<u32>,
    minimum: usize,
    reason: Option<SessionStopReason>,
) -> (result: Result<usize, AllocLinkError>)
    ensures
        match window {
            None => result == Err::<usize, AllocLinkError>(alloc_stopped(reason)),
            Some(window) => {
                let needed = if window + 2 < minimum {
                    minimum as int
                } else {
                    window + 2
                };
                result == (if window + 2 <= usize::MAX && needed <= usize::MAX / 8 {
                    Ok::<usize, AllocLinkError>(needed as usize)
                } else {
                    Err(AllocLinkError::NativeBufferTooLarge)
                })
            },
        },
{
    let window = match window {
        None => return Err(session_stopped(reason)),
        Some(window) => window,
    };
    let promised = match (window as usize).checked_add(2) {
        None => return Err(AllocLinkError::NativeBufferTooLarge),
        Some(promised) => promised,
    };
    let needed = if promised < minimum {
        minimum
    } else {
        promised
    };
    if needed <= transfer_queue::max_permits() {
        Ok(needed)
    } else {
        Err(AllocLinkError::NativeBufferTooLarge)
    }
}

/// A session that both ends ended is unmapped, whichever end began, with an error or without.
pub proof fn law_end_handshake_completes(with_error: bool)
    ensures
        ({
            let sent = state_after_end_sent(SessionState::Mapped, with_error)->0;
            let received = state_after_end_received(SessionState::Mapped)->0;
            &&& state_after_end_received(sent) == Some(SessionState::Unmapped)
            &&& state_after_end_sent(received, with_error) == Some(SessionState::Unmapped)
        }),
{
}

/// A session that both ends began is mapped, whichever end began.
pub proof fn law_begin_handshake_completes()
    ensures
        state_after_begin_received(
            state_after_begin_sent(SessionState::Unmapped)->0,
        ) == Some(SessionState::Mapped),
        state_after_begin_sent(
            state_after_begin_received(SessionState::Unmapped)->0,
        ) == Some(SessionState::Mapped),
{
}

} // verus!
