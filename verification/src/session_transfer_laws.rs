//! What holds of the transfers that a session sends and of the windows that it tells, whatever its
//! links and its peer do.

use vstd::prelude::*;

use crate::definitions::DeliveryNumber;
use crate::flow_state;
use crate::frame::SessionFrameBody;
use crate::performatives::{Flow, LinkFlow, Transfer};
use crate::session::{self, BufferedTransfer, SessionState, SessionView};
use crate::session_laws;
use crate::session_links;
use crate::session_state;

verus! {

/// Whether a transfer begins a delivery that its sender has not settled.
pub open spec fn begins_unsettled(transfer: Transfer) -> bool {
    transfer.delivery_tag is Some && transfer.settled != Some(true)
}

/// A transfer is sent as it was given, with its payload and its reservation. All that is added is
/// the number of the delivery, on every transfer that carries a tag.
pub proof fn law_transfers_are_sent_as_given(session: SessionView, waiting: BufferedTransfer)
    ensures
        ({
            let frame = session::transfer_frame(session, waiting);
            let given = waiting.transfer;
            let sent = frame.body->Transfer_performative;
            &&& frame.channel == session.outgoing_channel
            &&& frame.queue_slot == waiting.queue_slot
            &&& frame.body is Transfer
            &&& frame.body->Transfer_payload == waiting.payload
            &&& given.delivery_tag is Some ==> sent.delivery_id == Some(session.next_outgoing_id)
            &&& given.delivery_tag is None ==> sent.delivery_id == given.delivery_id
            &&& sent.handle == given.handle
            &&& sent.delivery_tag == given.delivery_tag
            &&& sent.message_format == given.message_format
            &&& sent.settled == given.settled
            &&& sent.more == given.more
            &&& sent.rcv_settle_mode == given.rcv_settle_mode
            &&& sent.state == given.state
            &&& sent.resume == given.resume
            &&& sent.aborted == given.aborted
            &&& sent.batchable == given.batchable
        }),
{
}

/// After a transfer that carries a delivery tag and is not settled was sent, whatever its other
/// fields say, the session knows the delivery under the number that the sent frame carries, with
/// the link and the tag that it was given. Any other transfer makes none known, and what was known
/// under other numbers stays.
pub proof fn law_sent_deliveries_are_known(
    session: SessionView,
    waiting: BufferedTransfer,
    id: DeliveryNumber,
)
    ensures
        ({
            let before = session.outgoing_deliveries;
            let after = session::after_transfer_sent(session, waiting).outgoing_deliveries;
            let number =
                session::transfer_frame(session, waiting).body->Transfer_performative.delivery_id;
            &&& begins_unsettled(waiting.transfer) ==> {
                &&& number is Some
                &&& after.contains_key(number->0)
                &&& after[number->0] == (waiting.input_handle, waiting.transfer.delivery_tag->0@)
            }
            &&& !begins_unsettled(waiting.transfer) ==> after == before
            &&& number != Some(id) ==> {
                &&& after.contains_key(id) == before.contains_key(id)
                &&& after.contains_key(id) ==> after[id] == before[id]
            }
        }),
{
}

/// Every transfer that is sent takes the next number and one place in the window of the peer.
/// Nothing else of the session changes but what it knows of its deliveries.
pub proof fn law_sent_transfers_are_counted(session: SessionView, waiting: BufferedTransfer)
    ensures
        ({
            let after = session::after_transfer_sent(session, waiting);
            &&& after.next_outgoing_id == (session.next_outgoing_id + 1) % 0x1_0000_0000
            &&& session.remote_incoming_window > 0 ==> after.remote_incoming_window
                == session.remote_incoming_window - 1
            &&& session.remote_incoming_window == 0 ==> after.remote_incoming_window == 0
            &&& after == (SessionView {
                next_outgoing_id: after.next_outgoing_id,
                remote_incoming_window: after.remote_incoming_window,
                outgoing_deliveries: after.outgoing_deliveries,
                ..session
            })
        }),
{
}

/// How many transfers can be sent is the lesser of how many wait and how many the peer can take.
pub proof fn law_as_many_are_sent_as_fit(session: SessionView)
    ensures
        session::drainable(session) <= session.buffer.len(),
        session::drainable(session) <= session.remote_incoming_window,
        session::drainable(session) == session.buffer.len() || session::drainable(session)
            == session.remote_incoming_window,
{
}

/// The number that stands `ahead` of the next one is the only one at that distance.
proof fn lemma_distance(next: u32, id: u32, ahead: nat)
    requires
        ahead < 0x1_0000_0000,
    ensures
        (id - next) % 0x1_0000_0000 == ahead <==> id == (next + ahead) % 0x1_0000_0000,
        0 <= (id - next) % 0x1_0000_0000,
{
}

/// After waiting transfers were sent, the session knows each delivery among them that is not
/// settled, under the number that its frame carries and with its link and tag. The numbers are the
/// next ones, one for each transfer, and under all other numbers nothing changes.
#[verifier::rlimit(30)]
pub proof fn law_drained_deliveries_are_known(
    session: SessionView,
    count: nat,
    id: DeliveryNumber,
)
    requires
        count <= session::drainable(session),
    ensures
        ({
            let drained = session::drained(session, count);
            let before = session.outgoing_deliveries;
            let after = drained.session.outgoing_deliveries;
            let at = (id - session.next_outgoing_id) % 0x1_0000_0000;
            let begun = at < count && begins_unsettled(session.buffer[at].transfer);
            &&& drained.frames.len() == count
            &&& begun ==> {
                let waiting = session.buffer[at];
                &&& drained.frames[at].body is Transfer
                &&& drained.frames[at].body->Transfer_performative.delivery_id == Some(id)
                &&& after.contains_key(id)
                &&& after[id] == (waiting.input_handle, waiting.transfer.delivery_tag->0@)
            }
            &&& !begun ==> {
                &&& after.contains_key(id) == before.contains_key(id)
                &&& after.contains_key(id) ==> after[id] == before[id]
            }
        }),
    decreases count,
{
    session_laws::law_waiting_transfers_are_sent_in_order(session, count);
    if count > 0 {
        let fewer = (count - 1) as nat;
        law_drained_deliveries_are_known(session, fewer, id);
        session_laws::law_waiting_transfers_are_sent_in_order(session, fewer);
        let before = session::drained(session, fewer).session;
        let waiting = session.buffer[fewer as int];
        assert(before.buffer[0] == waiting);
        law_sent_deliveries_are_known(before, waiting, id);
        assert(before.next_outgoing_id == (session.next_outgoing_id + fewer) % 0x1_0000_0000);
        let at = (id - session.next_outgoing_id) % 0x1_0000_0000;
        lemma_distance(session.next_outgoing_id, id, fewer);
        assert(at == fewer <==> id == before.next_outgoing_id);
        assert(at < count <==> at < fewer || at == fewer);
    }
}

/// Sending waiting transfers moves the next number and the window of the peer by as many, and
/// takes them off those that wait. Nothing else of the session changes but what it knows of its
/// deliveries.
pub proof fn law_draining_leaves_the_rest(session: SessionView, count: nat)
    requires
        count <= session::drainable(session),
    ensures
        ({
            let after = session::drained(session, count).session;
            &&& after.next_outgoing_id == (session.next_outgoing_id + count) % 0x1_0000_0000
            &&& after.remote_incoming_window == session.remote_incoming_window - count
            &&& after.buffer == session.buffer.skip(count as int)
            &&& after == (SessionView {
                next_outgoing_id: after.next_outgoing_id,
                remote_incoming_window: after.remote_incoming_window,
                buffer: after.buffer,
                outgoing_deliveries: after.outgoing_deliveries,
                ..session
            })
        }),
    decreases count,
{
    session_laws::law_waiting_transfers_are_sent_in_order(session, count);
    assert(session.buffer.skip(count as int) =~= session.buffer.subrange(
        count as int,
        session.buffer.len() as int,
    ));
    if count > 0 {
        law_draining_leaves_the_rest(session, (count - 1) as nat);
    }
}

/// A transfer goes out behind all that wait, exactly if the peer can take them all and one more.
/// Else as many go out as the peer can take, and it waits behind the others.
pub proof fn law_transfers_queue_up(session: SessionView, waiting: BufferedTransfer)
    ensures
        ({
            let after = session::drained_with(session, waiting);
            let window = session.remote_incoming_window;
            let length = session.buffer.len();
            if window > length {
                let number = ((session.next_outgoing_id + length) % 0x1_0000_0000) as u32;
                let last = after.frames[length as int];
                &&& after.frames.len() == length + 1
                &&& after.session.buffer.len() == 0
                &&& after.session.remote_incoming_window == window - length - 1
                &&& last.body is Transfer
                &&& last.body->Transfer_payload == waiting.payload
                &&& last.queue_slot == waiting.queue_slot
                &&& waiting.transfer.delivery_tag is Some
                    ==> last.body->Transfer_performative.delivery_id == Some(number)
                &&& begins_unsettled(waiting.transfer) ==> {
                    &&& after.session.outgoing_deliveries.contains_key(number)
                    &&& after.session.outgoing_deliveries[number] == (
                        waiting.input_handle,
                        waiting.transfer.delivery_tag->0@,
                    )
                }
            } else {
                &&& after.frames.len() == window
                &&& after.session.remote_incoming_window == 0
                &&& after.session.buffer == session.buffer.skip(window as int).push(waiting)
            }
        }),
        forall|at: int|
            0 <= at < session::drainable(session) ==> #[trigger] session::drained_with(
                session,
                waiting,
            ).frames[at] == session_laws::frame_in_turn(session, at),
{
    let count = session::drainable(session);
    session_laws::law_waiting_transfers_are_sent_in_order(session, count);
    law_draining_leaves_the_rest(session, count);
}

/// Where nothing waits, or nothing can be sent, a transfer is sent alone, or only waits.
pub proof fn law_lone_transfers(session: SessionView, waiting: BufferedTransfer)
    ensures
        session.remote_incoming_window == 0 ==> {
            let after = session::drained_with(session, waiting);
            &&& after.frames.len() == 0
            &&& after.session == (SessionView { buffer: session.buffer.push(waiting), ..session })
        },
        session.remote_incoming_window > 0 && session.buffer.len() == 0 ==> {
            let after = session::drained_with(session, waiting);
            &&& after.frames == seq![session::transfer_frame(session, waiting)]
            &&& after.session == session::after_transfer_sent(session, waiting)
        },
{
    let after = session::drained_with(session, waiting);
    if session.remote_incoming_window > 0 && session.buffer.len() == 0 {
        assert(after.frames =~= seq![session::transfer_frame(session, waiting)]);
    }
}

/// Every flow that a session sends, with the state of a link or without, tells as incoming window
/// the slots of its receive window that are free: together with those that are held they are all
/// there are. So does its begin.
pub proof fn law_flows_tell_the_free_slots(session: SessionView, link: Option<LinkFlow>)
    requires
        session.receive_window.held <= session.receive_window.maximum,
    ensures
        session::flow_for(session, link).incoming_window + session.receive_window.held
            == session.receive_window.maximum,
        session_state::begin_of(session).incoming_window + session.receive_window.held
            == session.receive_window.maximum,
        session::available(session) + session.receive_window.held
            == session.receive_window.maximum,
{
}

/// A session after so many transfers were taken in and none was consumed.
pub open spec fn after_transfers_taken(session: SessionView, count: nat) -> SessionView
    decreases count,
{
    if count == 0 {
        session
    } else {
        session_links::slot_taken(
            session_links::transfer_counted(after_transfers_taken(session, (count - 1) as nat)),
        )
    }
}

/// As many further transfers as a session tells in a flow find a slot, one after the other, and
/// the one after them does not.
pub proof fn law_told_transfers_are_taken(
    session: SessionView,
    link: Option<LinkFlow>,
    count: nat,
)
    requires
        session.receive_window.held <= session.receive_window.maximum,
        count <= session::flow_for(session, link).incoming_window,
    ensures
        ({
            let taken = session_links::transfer_counted(after_transfers_taken(session, count));
            &&& taken.receive_window.held == session.receive_window.held + count
            &&& taken.receive_window.maximum == session.receive_window.maximum
            &&& taken.receive_window.held < taken.receive_window.maximum <==> count
                < session::flow_for(session, link).incoming_window
        }),
    decreases count,
{
    if count > 0 {
        law_told_transfers_are_taken(session, link, (count - 1) as nat);
    }
}

/// A flow tells the numbers and the window of the session, and of the link what the link says,
/// unaltered. Without a link it speaks of none.
pub proof fn law_flows_tell_what_is(session: SessionView, link: LinkFlow)
    ensures
        ({
            let flow = session::flow_for(session, Some(link));
            &&& flow.next_incoming_id == Some(session.next_incoming_id)
            &&& flow.next_outgoing_id == session.next_outgoing_id
            &&& flow.outgoing_window == session.outgoing_window
            &&& flow.handle == Some(link.handle)
            &&& flow.delivery_count == link.delivery_count
            &&& flow.link_credit == link.link_credit
            &&& flow.available == link.available
            &&& flow.drain == link.drain
            &&& flow.echo == link.echo
            &&& flow.properties == link.properties
        }),
        ({
            let flow = session::flow_for(session, None);
            &&& flow.next_incoming_id == Some(session.next_incoming_id)
            &&& flow.next_outgoing_id == session.next_outgoing_id
            &&& flow.outgoing_window == session.outgoing_window
            &&& flow.handle is None
            &&& flow.delivery_count is None
            &&& flow.link_credit is None
            &&& flow.available is None
            &&& !flow.drain
            &&& !flow.echo
            &&& flow.properties is None
        }),
        session::flow_for(session, Some(link)).link_part() == Some(link),
        session::flow_for(session, None).link_part() is None,
{
}

/// The state of a link that a flow carries is what the flow says of it.
pub proof fn law_flows_carry_the_link(flow: Flow)
    ensures
        flow.handle is None ==> flow.link_part() is None,
        flow.handle is Some ==> {
            &&& flow.link_part() is Some
            &&& flow.link_part()->0.handle == flow.handle->0
            &&& flow.link_part()->0.delivery_count == flow.delivery_count
            &&& flow.link_part()->0.link_credit == flow.link_credit
            &&& flow.link_part()->0.available == flow.available
            &&& flow.link_part()->0.drain == flow.drain
            &&& flow.link_part()->0.echo == flow.echo
            &&& flow.link_part()->0.properties == flow.properties
        },
{
}

/// A frame that tells something of a session goes out on its channel and holds no reservation.
pub proof fn law_plain_frames_hold_nothing(session: SessionView, body: SessionFrameBody)
    ensures
        session::plain_frame(session, body).channel == session.outgoing_channel,
        session::plain_frame(session, body).body == body,
        session::plain_frame(session, body).queue_slot is None,
{
}

/// A flow of the peer tells what the peer can take beyond what is in flight. Counted from the
/// number that the peer expects, or from the first one where it expects none yet, the window that
/// is left ends where the told one does. What the peer may send and its next number are taken as
/// they are told, and nothing else of the session changes.
pub proof fn law_flows_of_the_peer_are_taken(session: SessionView, flow: Flow)
    ensures
        ({
            let after = session::after_flow(session, flow);
            let expected = if flow.next_incoming_id is Some {
                flow.next_incoming_id->0
            } else {
                session.initial_outgoing_id
            };
            let in_flight = (session.next_outgoing_id - expected) % 0x1_0000_0000;
            &&& in_flight <= flow.incoming_window ==> after.remote_incoming_window + in_flight
                == flow.incoming_window
            &&& in_flight > flow.incoming_window ==> after.remote_incoming_window == 0
            &&& expected == session.next_outgoing_id ==> after.remote_incoming_window
                == flow.incoming_window
            &&& after.next_incoming_id == flow.next_outgoing_id
            &&& after.remote_outgoing_window == flow.outgoing_window
            &&& after == (SessionView {
                next_incoming_id: after.next_incoming_id,
                remote_outgoing_window: after.remote_outgoing_window,
                remote_incoming_window: after.remote_incoming_window,
                ..session
            })
        }),
{
}

/// What is sent after a flow of the peer uses up the window that it left: as many transfers later
/// the same flow leaves as many less.
pub proof fn law_sending_uses_the_window_up(session: SessionView, flow: Flow, count: nat)
    requires
        count <= session::drainable(session::after_flow(session, flow)),
    ensures
        ({
            let sent = session::drained(session::after_flow(session, flow), count).session;
            session::after_flow(sent, flow).remote_incoming_window == sent.remote_incoming_window
        }),
{
    let told = session::after_flow(session, flow);
    law_draining_leaves_the_rest(told, count);
}

/// The window is told again exactly if the session is mapped and at least half of it, and at least
/// one slot, was released since it was told last.
pub proof fn law_windows_are_told_in_time(session: SessionView)
    ensures
        session::flow_due(session) <==> {
            &&& session.local_state == SessionState::Mapped
            &&& session.need_flow_count + session.receive_window.released >= 1
            &&& session.need_flow_count + session.receive_window.released
                >= session.incoming_window / 2
        },
{
}

/// Released slots are counted once and none is lost, short of the greatest number there is. They
/// leave the rest of the session as it is.
pub proof fn law_released_slots_are_counted(session: SessionView)
    ensures
        ({
            let after = session::released_counted(session);
            let sum = session.need_flow_count + session.receive_window.released;
            &&& sum <= u32::MAX ==> after.need_flow_count == sum
            &&& sum > u32::MAX ==> after.need_flow_count == u32::MAX
            &&& after.receive_window.released == 0
            &&& after.receive_window.held == session.receive_window.held
            &&& after.receive_window.maximum == session.receive_window.maximum
            &&& after == (SessionView {
                need_flow_count: after.need_flow_count,
                receive_window: after.receive_window,
                ..session
            })
            &&& session::released_counted(after) == after
        }),
{
}

/// A disposition speaks of the numbers from its first to its last, both of them, or of the first
/// alone where there is no last or the last lies before it.
pub proof fn law_dispositions_are_counted(first: u32, last: u32)
    ensures
        session::disposition_count(first, None) == 1,
        session::disposition_count(first, Some(first)) == 1,
        first <= last < u32::MAX ==> session::disposition_count(first, Some((last + 1) as u32))
            == session::disposition_count(first, Some(last)) + 1,
        last < first ==> session::disposition_count(first, Some(last)) == 1,
{
}

/// A sum is capped at the greatest number there is, and a number is lessened down to zero.
pub proof fn law_windows_saturate(one: u32, other: u32)
    ensures
        one + other <= u32::MAX ==> session::capped_sum(one, other) == one + other,
        one + other > u32::MAX ==> session::capped_sum(one, other) == u32::MAX,
        one > 0 ==> session::one_less(one) == one - 1,
        session::one_less(0) == 0,
{
}

} // verus!
