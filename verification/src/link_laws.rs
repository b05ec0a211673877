//! What holds of a link as it attaches and detaches, whatever its peer does.

use vstd::prelude::*;

use crate::definitions::{Fields, InputHandle, OutputHandle};
use crate::errors::{DetachError, ReceiverAttachError, SessionStopReason};
use crate::frame::LinkFrame;
use crate::link::{self, Link, LinkState, SenderAttachExchange};
use crate::ordered_map;
use crate::performatives::{Attach, Detach};
use crate::receiver_attach::{self, AttachChecks};
use crate::receiver_delivery::AsDeliveryState;
use crate::receiver_link::ReceiverLink;
use crate::role::{IntoRole, SenderMarker};

verus! {

/// Both attaches make a link attached, whichever comes first. If either tells an incomplete map,
/// the link knows that its attach was incomplete.
pub proof fn law_attach_handshake_completes(sent_incomplete: bool, received_incomplete: bool)
    ensures
        ({
            let sent = link::state_after_attach_sent(LinkState::Unattached, sent_incomplete);
            let received = receiver_attach::state_after_attach_received(
                LinkState::Unattached,
                received_incomplete,
            );
            let ended = if sent_incomplete || received_incomplete {
                LinkState::IncompleteAttachExchanged
            } else {
                LinkState::Attached
            };
            &&& receiver_attach::state_after_attach_received(sent, received_incomplete) == Some(
                ended,
            )
            &&& received is Some
            &&& !received_incomplete ==> link::may_send_attach(received->0)
                && link::state_after_attach_sent(received->0, sent_incomplete) == ended
        }),
{
}

/// An attach may be sent exactly by a link that is not attached, or whose peer has attached with a
/// complete map, or while its own detach is not answered yet.
pub proof fn law_attaches_are_sent_exactly(state: LinkState, incomplete: bool)
    ensures
        link::may_send_attach(state) <==> state is Unattached || state is Detached || state
            is DetachSent || state is AttachReceived,
        state is AttachReceived && !incomplete ==> link::state_after_attach_sent(state, incomplete)
            is Attached,
        state is AttachReceived && incomplete ==> link::state_after_attach_sent(state, incomplete)
            is IncompleteAttachExchanged,
        !(state is AttachReceived) && !incomplete ==> link::state_after_attach_sent(
            state,
            incomplete,
        ) is AttachSent,
        !(state is AttachReceived) && incomplete ==> link::state_after_attach_sent(
            state,
            incomplete,
        ) is IncompleteAttachSent,
{
}

/// An attach of the peer is taken exactly by a link that has sent its own or is not attached. A
/// link that was told an incomplete map never passes for one that was not.
pub proof fn law_attaches_are_taken_in_state(state: LinkState, incomplete: bool)
    ensures
        ({
            let after = receiver_attach::state_after_attach_received(state, incomplete);
            let sent = state is AttachSent || state is IncompleteAttachSent;
            let none = state is Unattached || state is Detached;
            &&& after is Some <==> sent || none
            &&& sent ==> after->0 is Attached || after->0 is IncompleteAttachExchanged
            &&& sent ==> (after->0 is Attached <==> state is AttachSent && !incomplete)
            &&& none && !incomplete ==> after->0 is AttachReceived
            &&& none && incomplete ==> after->0 is IncompleteAttachReceived
        }),
{
}

/// An attach is taken exactly if the state of the link allows it, it has a source that passes the
/// check where one is asked for, tells a delivery count, and has no target or a supported one that
/// passes the check where one is asked for. Whatever fails first is reported.
pub proof fn law_attaches_are_taken_exactly(
    link: ReceiverLink,
    remote: Attach,
    checks: AttachChecks,
)
    ensures
        ({
            let refused = receiver_attach::attach_refused(link, remote, checks);
            let in_state = receiver_attach::state_after_attach_received(
                link.local_state,
                remote.incomplete_unsettled,
            ) is Some;
            let source_checked = link.verify_incoming_source && link.source is Some;
            let source_fails = source_checked && checks.source is Some;
            let target_checked = link.verify_incoming_target && link.target is Some
                && remote.target is Some;
            let sourced = in_state && remote.source is Some && !source_fails;
            let counted = sourced && remote.initial_delivery_count is Some;
            let supported = remote.target is None || checks.target_supported;
            &&& refused is None <==> counted && supported && !(target_checked && checks.target
                is Some)
            &&& !in_state ==> refused is Some && refused->0 is IllegalState
            &&& in_state && remote.source is None ==> refused is Some && refused->0
                is IncomingSourceIsNone
            &&& in_state && remote.source is Some && source_fails ==> refused == checks.source
            &&& sourced && remote.initial_delivery_count is None ==> refused is Some && refused->0
                is InitialDeliveryCountIsNone
            &&& counted && !supported ==> refused is Some && refused->0
                is CoordinatorIsNotImplemented
            &&& counted && supported && target_checked && checks.target is Some ==> refused
                == checks.target
        }),
{
}

/// What a link takes from an attach. In the wrong state nothing; else the handle of the peer and
/// the state; with a good source that source and the mode of the sender; and only of an attach
/// that is taken as a whole the message size, the delivery count and the properties.
pub proof fn law_attaches_are_taken_down(
    link: ReceiverLink,
    remote: Attach,
    checks: AttachChecks,
    properties: Option<Fields>,
)
    ensures
        ({
            let after = receiver_attach::link_after_attach(link, remote, checks, properties);
            let state = receiver_attach::state_after_attach_received(
                link.local_state,
                remote.incomplete_unsettled,
            );
            let sourced = state is Some && remote.source is Some && !(link.verify_incoming_source
                && link.source is Some && checks.source is Some);
            let taken = receiver_attach::attach_refused(link, remote, checks) is None;
            &&& state is None ==> after == link
            &&& state is Some ==> {
                &&& after.local_state == state->0
                &&& after.input_handle == Some(InputHandle(remote.handle.0))
            }
            &&& sourced ==> {
                &&& after.source == remote.source
                &&& after.snd_settle_mode == remote.snd_settle_mode
            }
            &&& !sourced ==> {
                &&& after.source == link.source
                &&& after.snd_settle_mode == link.snd_settle_mode
            }
            &&& taken ==> {
                &&& after.max_message_size == link::agreed_message_size(
                    link.max_message_size,
                    remote.max_message_size,
                )
                &&& Some(after.flow_state.initial_delivery_count)
                    == remote.initial_delivery_count
                &&& Some(after.flow_state.delivery_count) == remote.initial_delivery_count
                &&& after.flow_state.properties == properties
            }
            &&& !taken ==> {
                &&& after.max_message_size == link.max_message_size
                &&& after.flow_state == link.flow_state
            }
            &&& after.flow_state.link_credit == link.flow_state.link_credit
            &&& after.flow_state.available == link.flow_state.available
            &&& after.flow_state.drain == link.flow_state.drain
            &&& after == (Link {
                local_state: after.local_state,
                input_handle: after.input_handle,
                source: after.source,
                snd_settle_mode: after.snd_settle_mode,
                max_message_size: after.max_message_size,
                flow_state: after.flow_state,
                ..link
            })
        }),
{
}

/// Properties that the peer tells prevail over those of this end, and those it does not tell stay.
/// Where it tells none, nothing changes.
pub proof fn law_properties_are_merged(
    merged: Option<Fields>,
    local: Option<Fields>,
    remote: Option<Fields>,
    name: Seq<u8>,
)
    requires
        receiver_attach::fields_merged(merged, local, remote),
        local matches Some(fields) ==> ordered_map::unique(fields@),
        remote matches Some(fields) ==> ordered_map::unique(fields@),
    ensures
        remote is None ==> merged == local,
        remote is Some ==> {
            let told = ordered_map::value_of(remote->0@, name);
            &&& merged is Some
            &&& told is Some ==> ordered_map::value_of(merged->0@, name) == told
            &&& told is None && local is Some ==> ordered_map::value_of(merged->0@, name)
                == ordered_map::value_of(local->0@, name)
            &&& told is None && local is None ==> ordered_map::value_of(merged->0@, name) is None
        },
{
    let mine = receiver_attach::fields_or_empty(local);
    if let Some(fields) = remote {
        ordered_map::law_extended(mine, fields@, name);
        ordered_map::lemma_find(mine, name);
    }
}

/// The agreed message size is the lesser of those that there are; it is none only if neither end
/// has one, and it does not matter which end is which.
pub proof fn law_message_sizes_agree(local: u64, remote: u64)
    ensures
        ({
            let agreed = link::agreed_message_size(local, Some(remote));
            &&& local != 0 && remote != 0 ==> agreed <= local && agreed <= remote && (agreed
                == local || agreed == remote)
            &&& local == 0 ==> agreed == remote
            &&& remote == 0 ==> agreed == local
            &&& agreed == link::agreed_message_size(remote, Some(local))
            &&& link::agreed_message_size(local, None) == local
        }),
{
}

/// What a receiver waits for is an attach: that one it takes, anything else it reports, and
/// nothing at all it reports as why the session stopped.
pub proof fn law_attaches_are_awaited(
    frame: LinkFrame,
    attach: Attach,
    stop_reason: SessionStopReason,
)
    ensures
        receiver_attach::awaited_attach(Some(LinkFrame::Attach(attach)), Some(stop_reason)) == Ok::<
            Attach,
            ReceiverAttachError,
        >(attach),
        !(frame is Attach) ==> {
            &&& receiver_attach::awaited_attach(Some(frame), Some(stop_reason)) is Err
            &&& receiver_attach::awaited_attach(Some(frame), Some(stop_reason))->Err_0
                is NonAttachFrameReceived
        },
        receiver_attach::awaited_attach(None, Some(stop_reason)) == Err::<
            Attach,
            ReceiverAttachError,
        >(ReceiverAttachError::SessionStopped(stop_reason)),
        receiver_attach::awaited_attach(None, None) == Err::<Attach, ReceiverAttachError>(
            ReceiverAttachError::IllegalState,
        ),
{
}

/// The peer is told of exactly those errors of an attach that are its own mistakes.
pub proof fn law_mistakes_are_told(error: ReceiverAttachError)
    ensures
        receiver_attach::told_to_peer(error) <==> error is CoordinatorIsNotImplemented || error
            is InitialDeliveryCountIsNone || error is SourceAddressIsNoneWhenDynamicIsTrue || error
            is TargetAddressIsSomeWhenDynamicIsTrue || error
            is DynamicNodePropertiesIsSomeWhenDynamicIsFalse,
{
}

/// An attach tells of its link what the link is. A size of zero is told as none.
pub proof fn law_attaches_tell_the_link<R: IntoRole, M: AsDeliveryState>(
    attach: Attach,
    link: Link<R>,
    entries: Option<Seq<(Seq<u8>, M)>>,
    handle: OutputHandle,
    is_reattaching: bool,
    partial: usize,
)
    requires
        link::attach_of(attach, link, entries, handle, is_reattaching, partial),
    ensures
        attach.name@ == link.name@,
        attach.handle.0 == handle.0,
        attach.role == R::role(),
        attach.snd_settle_mode == link.snd_settle_mode,
        attach.rcv_settle_mode == link.rcv_settle_mode,
        attach.source == link.source,
        attach.target == link.target,
        attach.initial_delivery_count == Some(link.flow_state.initial_delivery_count),
        attach.max_message_size is None <==> link.max_message_size == 0,
        attach.max_message_size is Some ==> attach.max_message_size->0 == link.max_message_size,
        attach.offered_capabilities == link.offered_capabilities,
        attach.desired_capabilities == link.desired_capabilities,
        attach.properties == link.flow_state.properties,
        attach.incomplete_unsettled <==> partial > 1,
        attach.unsettled is Some <==> !is_reattaching && entries is Some && entries->0.len() > 0,
        attach.unsettled is Some && partial <= 1 ==> attach.unsettled->0@.len()
            == entries->0.len(),
        attach.unsettled is Some ==> forall|i: int|
            0 <= i < link::told_count(entries->0.len(), partial) ==> {
                &&& (#[trigger] attach.unsettled->0@[i]).0 == entries->0[i].0
                &&& attach.unsettled->0@[i].1 == entries->0[i].1.delivery_state()
            },
{
    if attach.unsettled is Some {
        let total = entries->0.len();
        let count = link::told_count(total, partial);
        if partial > 1 {
            vstd::arithmetic::div_mod::lemma_div_is_ordered_by_denominator(
                total as int,
                1,
                partial as int,
            );
        }
        assert(attach.unsettled->0@ == link::told(entries->0, count));
    }
}

/// If one in so many deliveries is told, as many are told as go into all of them, and twice as
/// large a part leaves no more than half of what was told.
pub proof fn law_fewer_deliveries_are_told(total: nat, partial: usize)
    requires
        1 < partial,
        partial <= usize::MAX / 2,
    ensures
        link::told_count(total, 0) == total,
        link::told_count(total, 1) == total,
        link::told_count(total, partial) * partial <= total,
        total < (link::told_count(total, partial) + 1) * partial,
        link::told_count(total, (2 * partial) as usize) <= link::told_count(total, partial),
{
    let many = link::told_count(total, partial);
    vstd::arithmetic::div_mod::lemma_fundamental_div_mod(total as int, partial as int);
    assert(many * partial == partial * many) by (nonlinear_arith);
    assert((many + 1) * partial == partial * many + partial) by (nonlinear_arith);
    vstd::arithmetic::div_mod::lemma_div_is_ordered_by_denominator(
        total as int,
        partial as int,
        2 * partial as int,
    );
}

/// There is something to be told exactly if the link does not begin anew and holds anything
/// unsettled.
pub proof fn law_unsettled_deliveries_are_told<M>(
    entries: Option<Seq<(Seq<u8>, M)>>,
    is_reattaching: bool,
)
    ensures
        link::has_to_tell(entries, is_reattaching) <==> !is_reattaching && entries is Some
            && entries->0.len() > 0,
{
}

/// A detach of the peer is taken exactly in these states. A closing one is taken wherever a link
/// is attached or on the way to be, and by one whose own detach or close waits for the answer; one
/// that does not close is taken by an attached link and by one whose own detach waits.
pub proof fn law_detaches_are_taken_in_state(state: LinkState)
    ensures
        ({
            let closed = link::state_after_detach_received(state, true);
            let detached = link::state_after_detach_received(state, false);
            let attaching = state is Attached || state is AttachSent || state is AttachReceived
                || state is IncompleteAttachExchanged || state is IncompleteAttachSent || state
                is IncompleteAttachReceived;
            &&& closed is Some <==> attaching || state is DetachSent || state is CloseSent
            &&& closed is Some ==> (closed->0 is Closed <==> state is CloseSent)
            &&& closed is Some ==> closed->0 is Closed || closed->0 is CloseReceived
            &&& detached is Some <==> state is Attached || state is DetachSent
            &&& state is Attached ==> detached->0 is DetachReceived
            &&& state is DetachSent ==> detached->0 is Detached
        }),
{
}

/// The handle of a link is free once the peer answered in kind: a close after a close, a detach
/// after a detach.
pub proof fn law_answers_free_the_handle(state: LinkState, closed: bool)
    ensures
        link::detach_answers(state, closed) <==> (if closed {
            state is CloseSent
        } else {
            state is DetachSent
        }),
        link::detach_answers(state, closed) ==> {
            let after = link::state_after_detach_received(state, closed);
            &&& after is Some
            &&& after->0 is Closed <==> closed
            &&& after->0 is Detached <==> !closed
        },
{
}

/// A detach of the peer is reported as it is. In the wrong state it is illegal, whatever it says;
/// else its error is reported, as that of a close or of a detach; a close where a detach was due
/// is reported too; and otherwise it is in order.
pub proof fn law_detaches_are_reported(state: LinkState, detach: Detach)
    ensures
        ({
            let report = link::detach_report(state, detach);
            let in_state = link::state_after_detach_received(state, detach.closed) is Some;
            &&& report is Ok <==> in_state && detach.error is None && !(detach.closed && state
                is DetachSent)
            &&& !in_state ==> report->Err_0 is IllegalState
            &&& in_state && detach.error is Some && detach.closed ==> report == Err::<
                (),
                DetachError,
            >(DetachError::RemoteClosedWithError(detach.error->0))
            &&& in_state && detach.error is Some && !detach.closed ==> report == Err::<
                (),
                DetachError,
            >(DetachError::RemoteDetachedWithError(detach.error->0))
            &&& in_state && detach.error is None && detach.closed && state is DetachSent
                ==> report->Err_0 is ClosedByRemote
        }),
{
}

/// A detach is sent exactly by an attached link or in answer to one of the same kind. An answer of
/// the other kind is refused with what the peer did.
pub proof fn law_detaches_are_sent_exactly(state: LinkState, closed: bool)
    ensures
        ({
            let after = link::state_after_detach_sent(state, closed);
            let answers = if closed {
                state is CloseReceived
            } else {
                state is DetachReceived
            };
            &&& after is Ok <==> state is Attached || answers
            &&& state is Attached && closed ==> after->Ok_0 is CloseSent
            &&& state is Attached && !closed ==> after->Ok_0 is DetachSent
            &&& answers && closed ==> after->Ok_0 is Closed
            &&& answers && !closed ==> after->Ok_0 is Detached
            &&& state is CloseReceived && !closed ==> after->Err_0 is ClosedByRemote
            &&& state is DetachReceived && closed ==> after->Err_0 is DetachedByRemote
            &&& !(state is Attached || state is CloseReceived || state is DetachReceived)
                ==> after->Err_0 is IllegalState
        }),
{
}

/// An attach that is to be sent fits the frame, and tells every unsettled delivery unless the one
/// that does so was found too large.
pub proof fn law_sent_attaches_fit<R: IntoRole, M: AsDeliveryState, F: Fn(&Attach) -> Option<usize>>(
    measure: F,
    attach: Attach,
    link: Link<R>,
    entries: Option<Seq<(Seq<u8>, M)>>,
    handle: OutputHandle,
    is_reattaching: bool,
    max_frame_size: usize,
)
    requires
        link::fitted(measure, attach, link, entries, handle, is_reattaching, max_frame_size),
    ensures
        exists|size: usize|
            size <= max_frame_size && #[trigger] measure.ensures((&attach,), Some(size)),
        attach.incomplete_unsettled ==> exists|complete: Attach, size: usize|
            {
                &&& size > max_frame_size
                &&& #[trigger] measure.ensures((&complete,), Some(size))
                &&& link::attach_of(complete, link, entries, handle, is_reattaching, 1)
            },
        !attach.incomplete_unsettled ==> link::attach_of(
            attach,
            link,
            entries,
            handle,
            is_reattaching,
            1,
        ),
{
    let steps = choose|steps: nat|
        #![trigger vstd::arithmetic::power2::pow2(steps)]
        {
            let partial = vstd::arithmetic::power2::pow2(steps);
            &&& partial <= usize::MAX
            &&& exists|size: usize|
                size <= max_frame_size && #[trigger] link::measured(
                    measure,
                    attach,
                    link,
                    entries,
                    handle,
                    is_reattaching,
                    partial as usize,
                    Some(size),
                )
            &&& forall|fewer: nat|
                fewer < steps ==> link::too_large(
                    measure,
                    link,
                    entries,
                    handle,
                    is_reattaching,
                    #[trigger] vstd::arithmetic::power2::pow2(fewer),
                    max_frame_size,
                )
        };
    let partial = vstd::arithmetic::power2::pow2(steps);
    let size = choose|size: usize|
        size <= max_frame_size && #[trigger] link::measured(
            measure,
            attach,
            link,
            entries,
            handle,
            is_reattaching,
            partial as usize,
            Some(size),
        );
    assert(measure.ensures((&attach,), Some(size)));
    vstd::arithmetic::power2::lemma2_to64();
    if steps > 0 {
        assert(link::too_large(
            measure,
            link,
            entries,
            handle,
            is_reattaching,
            vstd::arithmetic::power2::pow2(0),
            max_frame_size,
        ));
        let (complete, large) = choose|complete: Attach, large: usize|
            large > max_frame_size && #[trigger] link::measured(
                measure,
                complete,
                link,
                entries,
                handle,
                is_reattaching,
                1usize,
                Some(large),
            );
        assert(measure.ensures((&complete,), Some(large)));
        vstd::arithmetic::power2::lemma_pow2_strictly_increases(0, steps);
    }
}

/// What is shown of an exchange tells its kind, and nothing of the deliveries in it.
pub proof fn law_shown_exchanges_hide_deliveries<D>(
    one: SenderAttachExchange<D>,
    other: SenderAttachExchange<D>,
)
    ensures
        one.shown() == other.shown() <==> {
            &&& one is Complete == other is Complete
            &&& one is IncompleteUnsettled == other is IncompleteUnsettled
            &&& one is Resume == other is Resume
        },
{
    reveal_strlit("Complete");
    reveal_strlit("IncompleteUnsettled(_)");
    reveal_strlit("Resume(_)");
    if one.shown() == other.shown() {
        assert(one.shown().len() == other.shown().len());
    }
}

/// The end of a link that sends says so in its attach, and so does the end that receives: no
/// attach of the one could be taken for one of the other.
pub proof fn law_attaches_tell_the_end<M: AsDeliveryState, N: AsDeliveryState>(
    one: Attach,
    sender: Link<SenderMarker>,
    sent: Option<Seq<(Seq<u8>, M)>>,
    other: Attach,
    receiver: ReceiverLink,
    received: Option<Seq<(Seq<u8>, N)>>,
    handle: OutputHandle,
    is_reattaching: bool,
    partial: usize,
)
    requires
        link::attach_of(one, sender, sent, handle, is_reattaching, partial),
        link::attach_of(other, receiver, received, handle, is_reattaching, partial),
    ensures
        one.role is Sender,
        other.role is Receiver,
{
}

} // verus!
