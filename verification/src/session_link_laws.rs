//! What holds of the links of a session as they are allocated, attached and used, and of how a
//! session begins and ends.

use vstd::prelude::*;

use crate::definitions::{DeliveryNumber, InputHandle, OutputHandle, ReceiverSettleMode};
use crate::errors::{
    self, AllocLinkError, ConnectionStopReason, DetachError, DispositionError, FlowError,
    LinkRelayError, ReceiverAttachError, SendAttachErrorKind, SessionInnerError, SessionStateError,
    SessionStopReason,
};
use crate::ordered_map;
use crate::performatives::End;
use crate::relay::RelayView;
use crate::session::{SessionState, SessionView};
use crate::session_links;
use crate::session_state;

verus! {

/// A link is allocated exactly if the session is mapped and no link has its name, attached or not.
/// Otherwise the reason why the session stopped is reported, or that it is not mapped yet.
pub proof fn law_links_are_allocated_exactly(session: SessionView, name: Seq<char>)
    ensures
        ({
            let refused = session_links::allocation_refused(session, name);
            let mapped = session.local_state is Mapped;
            let ending = session.local_state is EndSent || session.local_state is EndReceived
                || session.local_state is Discarding;
            let taken = exists|i: int|
                0 <= i < session.links_by_name.len() && (#[trigger] session.links_by_name[i]).0
                    == name;
            &&& refused is None <==> mapped && !taken
            &&& mapped && taken ==> refused == Some(AllocLinkError::DuplicatedLinkName)
            &&& !mapped && session.session_stop_reason is Some ==> refused == Some(
                AllocLinkError::SessionStopped(session.session_stop_reason->0),
            )
            &&& !mapped && session.session_stop_reason is None && ending ==> refused == Some(
                AllocLinkError::SessionStopped(SessionStopReason::Ended),
            )
            &&& !mapped && session.session_stop_reason is None && !ending ==> refused == Some(
                AllocLinkError::SessionNotMapped,
            )
        }),
{
    ordered_map::lemma_find(session.links_by_name, name);
    if let Some(i) = ordered_map::find(session.links_by_name, name) {
        assert(session.links_by_name[i as int].0 == name);
    }
}

/// An allocated link is found by its name and by its handle. All other names and handles stay with
/// the links that they had, and nothing else of the session changes.
pub proof fn law_allocated_links_are_found(
    session: SessionView,
    name: Seq<char>,
    relay: Option<RelayView<OutputHandle>>,
    next_handle: usize,
    other: Seq<char>,
    key: usize,
)
    requires
        ordered_map::unique(session.links_by_name),
    ensures
        ({
            let after = session_links::after_allocation(session, name, relay, next_handle);
            &&& ordered_map::value_of(after.links_by_name, name) == Some(relay)
            &&& after.names.contains_key(session.next_handle)
            &&& after.names[session.next_handle] == name
            &&& other != name ==> ordered_map::value_of(after.links_by_name, other)
                == ordered_map::value_of(session.links_by_name, other)
            &&& key != session.next_handle ==> {
                &&& after.names.contains_key(key) == session.names.contains_key(key)
                &&& after.names.contains_key(key) ==> after.names[key] == session.names[key]
            }
            &&& after.next_handle == next_handle
            &&& after == (SessionView {
                names: after.names,
                next_handle: after.next_handle,
                links_by_name: after.links_by_name,
                ..session
            })
        }),
        session.next_handle <= u32::MAX ==> session_links::allocated_handle(session).0
            == session.next_handle,
{
    ordered_map::law_insert(session.links_by_name, name, relay, name);
    ordered_map::law_insert(session.links_by_name, name, relay, other);
}

/// A handle that is given back is free, and so is the name of its link. Other links keep theirs,
/// and nothing else of the session changes. A handle that was not in use changes nothing.
pub proof fn law_deallocated_links_are_gone(
    session: SessionView,
    handle: OutputHandle,
    other: Seq<char>,
    key: usize,
)
    requires
        ordered_map::unique(session.links_by_name),
    ensures
        ({
            let after = session_links::after_deallocation(session, handle);
            let gone = handle.0 as usize;
            &&& !session.names.contains_key(gone) ==> after == session
            &&& session.names.contains_key(gone) ==> {
                let name = session.names[gone];
                &&& !after.names.contains_key(gone)
                &&& ordered_map::value_of(after.links_by_name, name) is None
                &&& other != name ==> ordered_map::value_of(after.links_by_name, other)
                    == ordered_map::value_of(session.links_by_name, other)
                &&& key != gone ==> {
                    &&& after.names.contains_key(key) == session.names.contains_key(key)
                    &&& after.names.contains_key(key) ==> after.names[key] == session.names[key]
                }
                &&& after.next_handle == gone
                &&& after == (SessionView {
                    names: after.names,
                    next_handle: after.next_handle,
                    links_by_name: after.links_by_name,
                    ..session
                })
            }
        }),
{
    let gone = handle.0 as usize;
    if session.names.contains_key(gone) {
        ordered_map::law_remove(session.links_by_name, session.names[gone], session.names[gone]);
        ordered_map::law_remove(session.links_by_name, session.names[gone], other);
    }
}

/// A sender learns from the attach of its peer when the receiver settles, and keeps all else. A
/// receiver learns nothing: it settles as it said itself.
pub proof fn law_attached_senders_know_the_mode(
    relay: RelayView<OutputHandle>,
    mode: ReceiverSettleMode,
)
    ensures
        relay is Receiver ==> session_links::attached(relay, mode) == relay,
        relay is Sender ==> {
            let after = session_links::attached(relay, mode);
            &&& after is Sender
            &&& after->Sender_receiver_settle_mode == mode
            &&& after->Sender_output_handle == relay->Sender_output_handle
            &&& after->Sender_unsettled == relay->Sender_unsettled
        },
{
}

/// Every transfer that comes in is counted, whatever becomes of it: the next number goes on by one
/// and the peer may send one less. Nothing else changes by that.
pub proof fn law_incoming_transfers_are_counted(session: SessionView)
    ensures
        ({
            let after = session_links::transfer_counted(session);
            &&& after.next_incoming_id == (session.next_incoming_id + 1) % 0x1_0000_0000
            &&& session.remote_outgoing_window > 0 ==> after.remote_outgoing_window
                == session.remote_outgoing_window - 1
            &&& session.remote_outgoing_window == 0 ==> after.remote_outgoing_window == 0
            &&& after == (SessionView {
                next_incoming_id: after.next_incoming_id,
                remote_outgoing_window: after.remote_outgoing_window,
                ..session
            })
        }),
{
}

/// A transfer that is taken holds one slot more; one that is refused leaves as many free as there
/// were, and its slot counts as released. Nothing else changes by that.
pub proof fn law_slots_are_accounted_for(session: SessionView)
    requires
        session.receive_window.held < session.receive_window.maximum,
    ensures
        ({
            let taken = session_links::slot_taken(session);
            &&& taken.receive_window.held == session.receive_window.held + 1
            &&& taken.receive_window.maximum == session.receive_window.maximum
            &&& taken.receive_window.released == session.receive_window.released
            &&& taken == (SessionView { receive_window: taken.receive_window, ..session })
        }),
        ({
            let refused = session_links::slot_released(session);
            &&& refused.receive_window.held == session.receive_window.held
            &&& refused.receive_window.maximum == session.receive_window.maximum
            &&& refused.receive_window.released == (session.receive_window.released + 1)
                % 0x1_0000_0000
            &&& refused == (SessionView { receive_window: refused.receive_window, ..session })
        }),
{
}

/// What becomes of one link concerns no other link and nothing else of the session.
pub proof fn law_links_are_apart(
    session: SessionView,
    key: u32,
    relay: RelayView<OutputHandle>,
    other: u32,
)
    ensures
        ({
            let after = session_links::with_link(session, key, relay);
            &&& after.links.contains_key(key)
            &&& after.links[key] == relay
            &&& other != key ==> {
                &&& after.links.contains_key(other) == session.links.contains_key(other)
                &&& after.links.contains_key(other) ==> after.links[other] == session.links[other]
            }
            &&& after == (SessionView { links: after.links, ..session })
        }),
{
}

/// A delivery that came in is known by its number, with its link and its tag. Other numbers keep
/// the deliveries that they had, and nothing else of the session changes.
pub proof fn law_incoming_deliveries_are_known(
    session: SessionView,
    input_handle: InputHandle,
    id: DeliveryNumber,
    tag: Seq<u8>,
    other: DeliveryNumber,
)
    ensures
        session_links::delivery_known(session, input_handle, None) == session,
        ({
            let after = session_links::delivery_known(session, input_handle, Some((id, tag)));
            &&& after.incoming_deliveries.contains_key(id)
            &&& after.incoming_deliveries[id] == (input_handle, tag)
            &&& other != id ==> {
                &&& after.incoming_deliveries.contains_key(other)
                    == session.incoming_deliveries.contains_key(other)
                &&& after.incoming_deliveries.contains_key(other)
                    ==> after.incoming_deliveries[other] == session.incoming_deliveries[other]
            }
            &&& after == (SessionView { incoming_deliveries: after.incoming_deliveries, ..session })
        }),
{
}

/// A begin of the peer is taken, and one of this end sent, exactly by a session that is not mapped
/// and has not done so before. The second of the two maps the session.
pub proof fn law_sessions_begin_once(state: SessionState)
    ensures
        ({
            let received = session_state::state_after_begin_received(state);
            let sent = session_state::state_after_begin_sent(state);
            &&& received is Some <==> state is Unmapped || state is BeginSent
            &&& sent is Some <==> state is Unmapped || state is BeginReceived
            &&& state is Unmapped ==> received->0 is BeginReceived && sent->0 is BeginSent
            &&& state is BeginSent ==> received->0 is Mapped
            &&& state is BeginReceived ==> sent->0 is Mapped
        }),
{
}

/// An end of the peer is taken by a session that has begun at either end, or that waits for the
/// answer to its own. An end of this end is sent by a mapped session or in answer to the peer.
pub proof fn law_sessions_end_once(state: SessionState, with_error: bool)
    ensures
        ({
            let received = session_state::state_after_end_received(state);
            let sent = session_state::state_after_end_sent(state, with_error);
            let begun = state is BeginSent || state is BeginReceived || state is Mapped;
            let waits = state is EndSent || state is Discarding;
            &&& received is Some <==> begun || waits
            &&& begun ==> received->0 is EndReceived
            &&& waits ==> received->0 is Unmapped
            &&& sent is Some <==> state is Mapped || state is EndReceived
            &&& state is EndReceived ==> sent->0 is Unmapped
            &&& state is Mapped && with_error ==> sent->0 is Discarding
            &&& state is Mapped && !with_error ==> sent->0 is EndSent
        }),
{
}

/// An end of the peer is in order exactly if it answers one of this end and carries no error. Its
/// error is reported wherever the end is taken.
pub proof fn law_ends_are_reported(state: SessionState, end: End)
    ensures
        ({
            let report = session_state::end_report(state, end);
            let begun = state is BeginSent || state is BeginReceived || state is Mapped;
            let waits = state is EndSent || state is Discarding;
            &&& report is Ok <==> waits && end.error is None
            &&& (begun || waits) && end.error is Some ==> report == Err::<(), SessionStateError>(
                SessionStateError::RemoteEndedWithError(end.error->0),
            )
            &&& begun && end.error is None ==> report->Err_0 is RemoteEnded
            &&& !begun && !waits ==> report->Err_0 is IllegalState
        }),
{
}

/// A begin tells of its session what the session is, and answers on the channel of the peer, where
/// it began first.
pub proof fn law_begins_tell_the_session(session: SessionView)
    ensures
        ({
            let begin = session_state::begin_of(session);
            &&& begin.remote_channel is Some <==> session.incoming_channel is Some
            &&& begin.remote_channel is Some ==> begin.remote_channel == Some(
                (session.incoming_channel->0).0,
            )
            &&& begin.next_outgoing_id == session.next_outgoing_id
            &&& begin.outgoing_window == session.outgoing_window
            &&& begin.handle_max == session.handle_max
            &&& begin.offered_capabilities == session.offered_capabilities
            &&& begin.desired_capabilities == session.desired_capabilities
            &&& begin.properties == session.properties
        }),
{
}

/// Where a session or a connection stopped, the reason that it recorded is reported. Where it
/// recorded none, a connection was closed, a session has ended as far as new links are concerned,
/// and the failure of a frame is local to the link.
pub proof fn law_stop_reasons_are_reported(
    reason: SessionStopReason,
    connection: ConnectionStopReason,
)
    ensures
        errors::connection_stopped(Some(connection)) == connection,
        errors::connection_stopped(None) is Closed,
        session_state::connection_lost(Some(connection)) == SessionStateError::ConnectionStopped(
            connection,
        ),
        session_state::connection_lost(None) == SessionStateError::ConnectionStopped(
            ConnectionStopReason::Closed,
        ),
        session_state::alloc_stopped(Some(reason)) == AllocLinkError::SessionStopped(reason),
        session_state::alloc_stopped(None) == AllocLinkError::SessionStopped(
            SessionStopReason::Ended,
        ),
        SendAttachErrorKind::undelivered_spec(Some(reason)) == SendAttachErrorKind::SessionStopped(
            reason,
        ),
        SendAttachErrorKind::undelivered_spec(None) is IllegalState,
        FlowError::undelivered_spec(Some(reason)) == FlowError::SessionStopped(reason),
        FlowError::undelivered_spec(None) is IllegalState,
        DispositionError::undelivered_spec(Some(reason)) == DispositionError::SessionStopped(
            reason,
        ),
        DispositionError::undelivered_spec(None) is IllegalState,
        DetachError::undelivered_spec(Some(reason)) == DetachError::SessionStopped(reason),
        DetachError::undelivered_spec(None) is IllegalState,
        ReceiverAttachError::undelivered_spec(Some(reason))
            == ReceiverAttachError::SessionStopped(reason),
        ReceiverAttachError::undelivered_spec(None) is IllegalState,
{
}

/// What a link reports of a transfer the session reports as the same.
pub proof fn law_relay_errors_are_kept()
    ensures
        <SessionInnerError as vstd::std_specs::convert::FromSpec<LinkRelayError>>::from_spec(
            LinkRelayError::InvalidTransfer,
        ) is InvalidTransfer,
        <SessionInnerError as vstd::std_specs::convert::FromSpec<LinkRelayError>>::from_spec(
            LinkRelayError::TransferFrameToSender,
        ) is TransferFrameToSender,
        <SessionInnerError as vstd::std_specs::convert::FromSpec<LinkRelayError>>::from_spec(
            LinkRelayError::UnattachedHandle,
        ) is UnattachedHandle,
{
}

} // verus!
