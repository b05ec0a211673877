//! The owner's end of a session: what it knows of whether the event loop has ended.

use vstd::prelude::*;

use crate::errors::{SessionStateError, SessionStopReason, TryEndError};

verus! {

/// A handle to the event loop of a session. `R` is the listener for links that the peer attaches.
pub struct SessionHandle<R> {
    /// Whether the session was seen to end.
    pub is_ended: bool,
    /// Whether the event loop was joined.
    pub engine_joined: bool,
    /// Why the session, or its connection, stopped.
    pub session_stop_reason: Option<SessionStopReason>,
    /// The negotiated greatest frame size.
    pub max_frame_size: usize,
    /// The listener.
    pub link_listener: R,
}

/// What an owner that does not wait finds of the outcome of a session.
#[derive(Debug)]
pub enum EndOutcome {
    /// It is there.
    Ready(Result<(), SessionStateError>),
    /// It is not there yet.
    Empty,
    /// It will never be there.
    Closed,
}

/// How a joined event loop ended. `E` says what went wrong.
#[derive(Debug)]
pub enum Joined<E> {
    /// By itself.
    Finished,
    /// It was cancelled.
    Cancelled,
    /// It failed.
    Failed(E),
}

impl<R> SessionHandle<R> {
    /// A handle to an event loop that runs.
    pub fn new(max_frame_size: usize, link_listener: R) -> (handle: Self)
        ensures
            handle == (SessionHandle {
                is_ended: false,
                engine_joined: false,
                session_stop_reason: None,
                max_frame_size,
                link_listener,
            }),
    {
        SessionHandle {
            is_ended: false,
            engine_joined: false,
            session_stop_reason: None,
            max_frame_size,
            link_listener,
        }
    }

    /// Whether dropping the handle asks the event loop to end the session.
    pub fn ends_on_drop(&self) -> (ends: bool)
        ensures
            ends == !self.is_ended,
    {
        !self.is_ended
    }

    /// Stops the local engine without protocol cleanup. Says whether its task is still to be
    /// aborted and joined. The first stop reason stays.
    pub fn stop(&mut self) -> (join: bool)
        ensures
            join == !old(self).engine_joined,
            *final(self) == stopped(*old(self)),
    {
        self.is_ended = true;
        if self.session_stop_reason.is_none() {
            self.session_stop_reason = Some(SessionStopReason::Stopped);
        }
        !self.engine_joined
    }

    /// Takes down that the task was joined. That it was cancelled is what was asked for.
    pub fn stop_and_join<E>(&mut self, joined: Joined<E>) -> (result: Result<(), E>)
        ensures
            *final(self) == self::joined(*old(self)),
            result == (match joined {
                Joined::Finished => Ok::<(), E>(()),
                Joined::Cancelled => Ok(()),
                Joined::Failed(error) => Err(error),
            }),
    {
        self.engine_joined = true;
        match joined {
            Joined::Finished => Ok(()),
            Joined::Cancelled => Ok(()),
            Joined::Failed(error) => Err(error),
        }
    }

    /// Checks if the underlying event loop has stopped. `control_closed` says whether it still
    /// takes commands.
    pub fn is_ended(&self, control_closed: bool) -> (ended: bool)
        ensures
            ended == (self.is_ended || control_closed),
    {
        match self.is_ended {
            true => true,
            false => control_closed,
        }
    }

    /// Tries to end the session, given what is there of its outcome once it was asked to end.
    pub fn try_end(&mut self, outcome: EndOutcome) -> (result: Result<
        Result<(), SessionStateError>,
        TryEndError,
    >)
        ensures
            if old(self).is_ended {
                &&& result == Err::<Result<(), SessionStateError>, TryEndError>(
                    TryEndError::AlreadyEnded,
                )
                &&& *final(self) == *old(self)
            } else {
                match outcome {
                    EndOutcome::Empty => {
                        &&& result == Err::<Result<(), SessionStateError>, TryEndError>(
                            TryEndError::RemoteEndNotReceived,
                        )
                        &&& *final(self) == *old(self)
                    },
                    EndOutcome::Ready(ended) => {
                        &&& result == Ok::<Result<(), SessionStateError>, TryEndError>(ended)
                        &&& *final(self) == (SessionHandle { is_ended: true, ..*old(self) })
                    },
                    EndOutcome::Closed => {
                        &&& result == Ok::<Result<(), SessionStateError>, TryEndError>(
                            Err(SessionStateError::IllegalState),
                        )
                        &&& *final(self) == (SessionHandle { is_ended: true, ..*old(self) })
                    },
                }
            },
    {
        if self.is_ended {
            return Err(TryEndError::AlreadyEnded);
        }
        match outcome {
            EndOutcome::Ready(ended) => {
                self.is_ended = true;
                Ok(ended)
            },
            EndOutcome::Empty => Err(TryEndError::RemoteEndNotReceived),
            EndOutcome::Closed => {
                self.is_ended = true;
                Ok(Err(SessionStateError::IllegalState))
            },
        }
    }

    /// Takes the outcome of the session, or that there will be none. It is taken once.
    pub fn on_end(&mut self, outcome: Option<Result<(), SessionStateError>>) -> (result: Result<
        (),
        SessionStateError,
    >)
        ensures
            if old(self).is_ended {
                &&& result == Err::<(), SessionStateError>(SessionStateError::IllegalState)
                &&& *final(self) == *old(self)
            } else {
                &&& *final(self) == (SessionHandle { is_ended: true, ..*old(self) })
                &&& result == (match outcome {
                    Some(ended) => ended,
                    None => Err::<(), SessionStateError>(SessionStateError::IllegalState),
                })
            },
    {
        if self.is_ended {
            return Err(SessionStateError::IllegalState);
        }
        self.is_ended = true;
        match outcome {
            Some(ended) => ended,
            None => Err(SessionStateError::IllegalState),
        }
    }
}

/// A handle whose engine was stopped. The first stop reason stays.
pub open spec fn stopped<R>(handle: SessionHandle<R>) -> SessionHandle<R> {
    SessionHandle {
        is_ended: true,
        session_stop_reason: if handle.session_stop_reason is Some {
            handle.session_stop_reason
        } else {
            Some(SessionStopReason::Stopped)
        },
        ..handle
    }
}

/// A handle whose engine was joined.
pub open spec fn joined<R>(handle: SessionHandle<R>) -> SessionHandle<R> {
    SessionHandle { engine_joined: true, ..handle }
}

/// Stopping again changes nothing: the engine is joined once, and the owner asks for no end when
/// it is dropped.
pub proof fn law_repeated_stops_are_safe<R>(handle: SessionHandle<R>)
    ensures
        stopped(joined(stopped(handle))) == joined(stopped(handle)),
        joined(stopped(handle)).engine_joined,
        joined(stopped(handle)).is_ended,
{
}

/// Stopping ends the session for its owner and leaves a reason, the first one there is. Joining is
/// only taken down. Neither changes anything else.
pub proof fn law_stops_are_taken_down<R>(handle: SessionHandle<R>)
    ensures
        ({
            let after = stopped(handle);
            &&& after.is_ended
            &&& after.engine_joined == handle.engine_joined
            &&& handle.session_stop_reason is Some ==> after.session_stop_reason
                == handle.session_stop_reason
            &&& handle.session_stop_reason is None ==> after.session_stop_reason == Some(
                SessionStopReason::Stopped,
            )
            &&& after.max_frame_size == handle.max_frame_size
            &&& after.link_listener == handle.link_listener
        }),
        ({
            let after = joined(handle);
            &&& after.engine_joined
            &&& after.is_ended == handle.is_ended
            &&& after.session_stop_reason == handle.session_stop_reason
            &&& after.max_frame_size == handle.max_frame_size
            &&& after.link_listener == handle.link_listener
        }),
{
}

} // verus!
