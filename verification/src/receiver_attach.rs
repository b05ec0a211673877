//! How a receiver takes the attach of its peer, and what it does about one that it cannot take.

use std::sync::Arc;

use vstd::prelude::*;

use crate::definitions::{Binary, Error, Fields, InputHandle, Symbol, Value};
use crate::errors::{ReceiverAttachError, SessionStopReason};
use crate::flow_state::LinkFlowState;
use crate::frame::LinkFrame;
use crate::link::{self, get_max_message_size, Link, LinkState, ReceiverAttachExchange};
use crate::ordered_map::{self, OrderedMap};
use crate::performatives::Attach;
use crate::receiver_delivery::ReceiverDelivery;
use crate::receiver_link::{self, ReceiverLink};
use crate::role::ReceiverMarker;
use crate::unsettled_store::{self, Store};

verus! {

/// What was found of the termini that the peer tells. They are checked only as far as the link
/// asks for it.
#[derive(Debug)]
pub struct AttachChecks {
    /// What is wrong with its source, beside the local one.
    pub source: Option<ReceiverAttachError>,
    /// Whether its target is of the kind that the link has.
    pub target_supported: bool,
    /// What is wrong with its target, beside the local one.
    pub target: Option<ReceiverAttachError>,
}

/// The state after an attach came in, in a state in which one may.
pub open spec fn state_after_attach_received(state: LinkState, incomplete: bool) -> Option<
    LinkState,
> {
    match (state, incomplete) {
        (LinkState::AttachSent, false) => Some(LinkState::Attached),
        (LinkState::IncompleteAttachSent, false) => Some(LinkState::IncompleteAttachExchanged),
        (LinkState::Unattached, false) => Some(LinkState::AttachReceived),
        (LinkState::Detached, false) => Some(LinkState::AttachReceived),
        (LinkState::AttachSent, true) => Some(LinkState::IncompleteAttachExchanged),
        (LinkState::IncompleteAttachSent, true) => Some(LinkState::IncompleteAttachExchanged),
        (LinkState::Unattached, true) => Some(LinkState::IncompleteAttachReceived),
        (LinkState::Detached, true) => Some(LinkState::IncompleteAttachReceived),
        _ => None,
    }
}

/// Why the source that the peer tells is not taken.
pub open spec fn source_refused(
    link: ReceiverLink,
    remote: Attach,
    checks: AttachChecks,
) -> Option<ReceiverAttachError> {
    if remote.source is None {
        Some(ReceiverAttachError::IncomingSourceIsNone)
    } else if link.verify_incoming_source && link.source is Some {
        checks.source
    } else {
        None
    }
}

/// Why an attach is not taken. The first check that fails decides.
pub open spec fn attach_refused(
    link: ReceiverLink,
    remote: Attach,
    checks: AttachChecks,
) -> Option<ReceiverAttachError> {
    if state_after_attach_received(link.local_state, remote.incomplete_unsettled) is None {
        Some(ReceiverAttachError::IllegalState)
    } else if source_refused(link, remote, checks) is Some {
        source_refused(link, remote, checks)
    } else if remote.initial_delivery_count is None {
        Some(ReceiverAttachError::InitialDeliveryCountIsNone)
    } else if remote.target is Some && !checks.target_supported {
        Some(ReceiverAttachError::CoordinatorIsNotImplemented)
    } else if link.verify_incoming_target && link.target is Some && remote.target is Some {
        checks.target
    } else {
        None
    }
}

/// Properties, or none where there are none yet.
pub open spec fn fields_or_empty(fields: Option<Fields>) -> Seq<(Seq<u8>, Value)> {
    match fields {
        None => seq![],
        Some(fields) => fields@,
    }
}

/// Whether properties are what they were, with those that the peer told put over them.
pub open spec fn fields_merged(
    merged: Option<Fields>,
    local: Option<Fields>,
    remote: Option<Fields>,
) -> bool {
    match remote {
        None => merged == local,
        Some(remote) => {
            &&& merged is Some
            &&& merged->0@ == ordered_map::extended(fields_or_empty(local), remote@)
        },
    }
}

/// The link after an attach came in, its properties aside. As far as the attach was taken, it is
/// taken down.
pub open spec fn link_after_attach(
    link: ReceiverLink,
    remote: Attach,
    checks: AttachChecks,
    properties: Option<Fields>,
) -> ReceiverLink {
    match state_after_attach_received(link.local_state, remote.incomplete_unsettled) {
        None => link,
        Some(state) => {
            let received = Link {
                local_state: state,
                input_handle: Some(InputHandle(remote.handle.0)),
                ..link
            };
            if source_refused(link, remote, checks) is Some {
                received
            } else {
                let sourced = Link {
                    source: remote.source,
                    snd_settle_mode: remote.snd_settle_mode,
                    ..received
                };
                if attach_refused(link, remote, checks) is Some {
                    sourced
                } else {
                    Link {
                        max_message_size: link::agreed_message_size(
                            link.max_message_size,
                            remote.max_message_size,
                        ),
                        flow_state: LinkFlowState {
                            initial_delivery_count: remote.initial_delivery_count->0,
                            delivery_count: remote.initial_delivery_count->0,
                            properties,
                            ..link.flow_state
                        },
                        ..sourced
                    }
                }
            }
        },
    }
}

/// Puts the properties that the peer told over the local ones.
fn merge_fields(local: &Option<Fields>, remote: &Fields) -> (merged: Fields)
    ensures
        merged@ == ordered_map::extended(fields_or_empty(*local), remote@),
{
    let mut fields: OrderedMap<Symbol, Value> = OrderedMap::new();
    if let Some(local) = local {
        let mut i: usize = 0;
        while i < local.len()
            invariant
                i <= local@.len(),
                fields@ == local@.take(i as int),
            decreases local@.len() - i,
        {
            let (key, value) = local.get_index(i);
            proof {
                ordered_map::lemma_find(fields@, key@);
            }
            fields.push(key.clone(), value.clone());
            i += 1;
            assert(fields@ =~= local@.take(i as int));
        }
        assert(local@.take(i as int) =~= local@);
    }
    let ghost before = fields@;
    assert(before =~= fields_or_empty(*local));
    let mut i: usize = 0;
    while i < remote.len()
        invariant
            i <= remote@.len(),
            fields@ == ordered_map::extended(before, remote@.take(i as int)),
        decreases remote@.len() - i,
    {
        let (key, value) = remote.get_index(i);
        fields.insert(key.clone(), value.clone());
        i += 1;
        assert(remote@.take(i as int).drop_last() =~= remote@.take(i - 1));
    }
    assert(remote@.take(i as int) =~= remote@);
    Arc::new(fields)
}

impl Link<ReceiverMarker> {
    /// Takes the attach of the peer.
    ///
    /// The sender is considered to hold the authoritative version of the source, and the delivery
    /// count starts with the one that it tells.
    pub fn on_incoming_attach(
        &mut self,
        unsettled: &mut Store<ReceiverDelivery>,
        remote_attach: Attach,
        checks: AttachChecks,
    ) -> (result: Result<ReceiverAttachExchange, ReceiverAttachError>)
        ensures
            *final(self) == link_after_attach(
                *old(self),
                remote_attach,
                checks,
                final(self).flow_state.properties,
            ),
            match attach_refused(*old(self), remote_attach, checks) {
                Some(error) => {
                    &&& result == Err::<ReceiverAttachExchange, ReceiverAttachError>(error)
                    &&& final(unsettled)@ == old(unsettled)@
                },
                None => {
                    let remote = unsettled_store::entries_of(remote_attach.unsettled);
                    let incomplete = remote_attach.incomplete_unsettled;
                    &&& result == Ok::<ReceiverAttachExchange, ReceiverAttachError>(
                        receiver_link::exchange_outcome(
                            final(self).local_state,
                            remote,
                            incomplete,
                        ),
                    )
                    &&& fields_merged(
                        final(self).flow_state.properties,
                        old(self).flow_state.properties,
                        remote_attach.properties,
                    )
                    &&& final(unsettled)@ == receiver_link::opened(
                        old(unsettled)@,
                        match old(unsettled)@.entries {
                            None => None,
                            Some(local) => Some(
                                receiver_link::reconciled(local, remote, incomplete),
                            ),
                        },
                    )
                },
            },
    {
        match (self.local_state, remote_attach.incomplete_unsettled) {
            (LinkState::AttachSent, false) => {
                self.local_state = LinkState::Attached;
            },
            (LinkState::IncompleteAttachSent, false) => {
                self.local_state = LinkState::IncompleteAttachExchanged;
            },
            (LinkState::Unattached, false) | (LinkState::Detached, false) => {
                self.local_state = LinkState::AttachReceived;
            },
            (LinkState::AttachSent, true) | (LinkState::IncompleteAttachSent, true) => {
                self.local_state = LinkState::IncompleteAttachExchanged;
            },
            (LinkState::Unattached, true) | (LinkState::Detached, true) => {
                self.local_state = LinkState::IncompleteAttachReceived;
            },
            _ => return Err(ReceiverAttachError::IllegalState),
        }
        self.input_handle = Some(InputHandle(remote_attach.handle.0));
        if remote_attach.source.is_none() {
            return Err(ReceiverAttachError::IncomingSourceIsNone);
        }
        if self.verify_incoming_source && self.source.is_some() {
            if let Some(error) = checks.source {
                return Err(error);
            }
        }
        self.source = remote_attach.source;
        self.snd_settle_mode = remote_attach.snd_settle_mode;
        let initial_delivery_count = match remote_attach.initial_delivery_count {
            None => return Err(ReceiverAttachError::InitialDeliveryCountIsNone),
            Some(count) => count,
        };
        if remote_attach.target.is_some() && !checks.target_supported {
            return Err(ReceiverAttachError::CoordinatorIsNotImplemented);
        }
        if self.verify_incoming_target && self.target.is_some() && remote_attach.target.is_some() {
            if let Some(error) = checks.target {
                return Err(error);
            }
        }
        self.max_message_size =
        get_max_message_size(self.max_message_size, remote_attach.max_message_size);
        self.flow_state.initial_delivery_count = initial_delivery_count;
        self.flow_state.delivery_count = initial_delivery_count;
        if let Some(remote_properties) = &remote_attach.properties {
            self.flow_state.properties = Some(
                merge_fields(&self.flow_state.properties, remote_properties),
            );
        }
        Ok(
            self.handle_unsettled_in_attach(
                unsettled,
                remote_attach.unsettled,
                remote_attach.incomplete_unsettled,
            ),
        )
    }
}

/// The attach that a receiver waits for, or why there is none.
pub open spec fn awaited_attach(
    frame: Option<LinkFrame>,
    stop_reason: Option<SessionStopReason>,
) -> Result<Attach, ReceiverAttachError> {
    match frame {
        None => Err(ReceiverAttachError::undelivered_spec(stop_reason)),
        Some(LinkFrame::Attach(attach)) => Ok(attach),
        Some(_) => Err(ReceiverAttachError::NonAttachFrameReceived),
    }
}

/// The attach that a receiver waits for, or why there is none.
pub fn expect_attach(
    frame: Option<LinkFrame>,
    stop_reason: Option<SessionStopReason>,
) -> (result: Result<Attach, ReceiverAttachError>)
    ensures
        result == awaited_attach(frame, stop_reason),
{
    match frame {
        None => Err(ReceiverAttachError::undelivered(stop_reason)),
        Some(LinkFrame::Attach(attach)) => Ok(attach),
        Some(_) => Err(ReceiverAttachError::NonAttachFrameReceived),
    }
}

/// What a receiver does about an attach that it did not take.
#[derive(Debug)]
pub enum AttachErrorAction {
    /// It reports the error.
    Report(ReceiverAttachError),
    /// It ends the session with an error and then reports.
    EndSession {
        /// What the session is ended with.
        error: Error,
        /// What is reported if the session could be ended.
        attach_error: ReceiverAttachError,
    },
    /// It closes the link, waits for the answer whether that could be sent or not, and reports.
    CloseAndAwait {
        /// What is reported if the close could be sent.
        attach_error: ReceiverAttachError,
    },
    /// It closes the link with an error, waits for the answer if that could be sent, and reports.
    CloseWithError {
        /// What the link is closed with.
        error: Error,
        /// What is reported if the close could be sent.
        attach_error: ReceiverAttachError,
    },
}

/// Whether an error of an attach is told to the peer.
pub open spec fn told_to_peer(error: ReceiverAttachError) -> bool {
    ||| error is CoordinatorIsNotImplemented
    ||| error is InitialDeliveryCountIsNone
    ||| error is SourceAddressIsNoneWhenDynamicIsTrue
    ||| error is TargetAddressIsSomeWhenDynamicIsTrue
    ||| error is DynamicNodePropertiesIsSomeWhenDynamicIsFalse
}

/// Whether an error says that the name of a link is in use.
pub open spec fn says_handle_in_use(error: Error) -> bool {
    &&& error.condition@ == vstd::utf8::encode_utf8("amqp:session:handle-in-use"@)
    &&& error.description is Some
    &&& error.description->0@ == "Link name is in use"@
    &&& error.info is None
}

/// Decides what a receiver does about an attach that it did not take. `wire_error` is the error
/// as it is told to a peer, where it can be.
pub fn handle_attach_error(
    attach_error: ReceiverAttachError,
    wire_error: Option<Error>,
) -> (action: AttachErrorAction)
    ensures
        attach_error is DuplicatedLinkName ==> {
            &&& action is EndSession
            &&& action->EndSession_attach_error == attach_error
            &&& says_handle_in_use(action->EndSession_error)
        },
        attach_error is IncomingSourceIsNone ==> action == (AttachErrorAction::CloseAndAwait {
            attach_error,
        }),
        told_to_peer(attach_error) ==> action == (match wire_error {
            Some(error) => AttachErrorAction::CloseWithError { error, attach_error },
            None => AttachErrorAction::Report(attach_error),
        }),
        !(attach_error is DuplicatedLinkName || attach_error is IncomingSourceIsNone
            || told_to_peer(attach_error)) ==> action == AttachErrorAction::Report(attach_error),
{
    match attach_error {
        ReceiverAttachError::DuplicatedLinkName => {
            let error = Error {
                condition: Binary::from_text("amqp:session:handle-in-use"),
                description: Some("Link name is in use".to_owned()),
                info: None,
            };
            AttachErrorAction::EndSession { error, attach_error }
        },
        ReceiverAttachError::IncomingSourceIsNone => AttachErrorAction::CloseAndAwait {
            attach_error,
        },
        ReceiverAttachError::CoordinatorIsNotImplemented
        | ReceiverAttachError::InitialDeliveryCountIsNone
        | ReceiverAttachError::SourceAddressIsNoneWhenDynamicIsTrue
        | ReceiverAttachError::TargetAddressIsSomeWhenDynamicIsTrue
        | ReceiverAttachError::DynamicNodePropertiesIsSomeWhenDynamicIsFalse => match wire_error {
            Some(error) => AttachErrorAction::CloseWithError { error, attach_error },
            None => AttachErrorAction::Report(attach_error),
        },
        _ => AttachErrorAction::Report(attach_error),
    }
}

/// What is reported once a frame about an attach error was handed to the session, or was not.
pub fn after_attach_error_sent(
    attach_error: ReceiverAttachError,
    delivered: bool,
    stop_reason: Option<SessionStopReason>,
) -> (error: ReceiverAttachError)
    ensures
        error == (if delivered {
            attach_error
        } else {
            ReceiverAttachError::undelivered_spec(stop_reason)
        }),
{
    if delivered {
        attach_error
    } else {
        ReceiverAttachError::undelivered(stop_reason)
    }
}

/// How the peer answered the close of a link that it could not attach.
#[derive(Debug)]
pub enum CloseReply {
    /// By a detach that was in order.
    Detached,
    /// By a detach that is an error, as a receiver reports it where it does.
    DetachFailed(Option<ReceiverAttachError>),
    /// By something else.
    OtherFrame,
    /// Not at all: the session stopped.
    Stopped(Option<SessionStopReason>),
}

/// What is reported once the peer answered.
pub fn recv_detach(reply: CloseReply, error: ReceiverAttachError) -> (reported: ReceiverAttachError)
    ensures
        reported == (match reply {
            CloseReply::Detached => error,
            CloseReply::DetachFailed(Some(failure)) => failure,
            CloseReply::DetachFailed(None) => error,
            CloseReply::OtherFrame => ReceiverAttachError::NonAttachFrameReceived,
            CloseReply::Stopped(reason) => ReceiverAttachError::undelivered_spec(reason),
        }),
{
    match reply {
        CloseReply::Detached => error,
        CloseReply::DetachFailed(Some(failure)) => failure,
        CloseReply::DetachFailed(None) => error,
        CloseReply::OtherFrame => ReceiverAttachError::NonAttachFrameReceived,
        CloseReply::Stopped(reason) => ReceiverAttachError::undelivered(reason),
    }
}

} // verus!
