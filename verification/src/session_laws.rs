//! What holds of a session, whatever its links and its peer do.

use vstd::prelude::*;

use crate::chunks;
use crate::definitions::{DeliveryNumber, DeliveryState, InputHandle, OutputHandle, Role};
use crate::flow_state;
use crate::frame::{SessionFrame, SessionFrameBody};
use crate::ordered_map;
use crate::performatives::{Disposition, Transfer};
use crate::relay::{self, RelayView};
use crate::session::{self, BufferedTransfer, SessionView};
use crate::session_dispositions::{self, Round};
use crate::session_links;

verus! {

/// The frame by which the waiting transfer at a place is sent, if those before it are sent first.
pub open spec fn frame_in_turn(session: SessionView, at: int) -> SessionFrame {
    let waiting = session.buffer[at];
    SessionFrame {
        channel: session.outgoing_channel,
        body: SessionFrameBody::Transfer {
            performative: session::numbered(
                waiting.transfer,
                flow_state::advanced(session.next_outgoing_id, at as u32),
            ),
            payload: waiting.payload,
        },
        queue_slot: waiting.queue_slot,
    }
}

/// Waiting transfers are sent in the order in which they came, each with the next number and with
/// the reservation that it came with. None is lost, and the peer is never sent more than it can
/// take.
pub proof fn law_waiting_transfers_are_sent_in_order(session: SessionView, count: nat)
    requires
        count <= session::drainable(session),
    ensures
        ({
            let after = session::drained(session, count);
            &&& after.frames == Seq::new(count, |at: int| frame_in_turn(session, at))
            &&& after.session.buffer == session.buffer.subrange(
                count as int,
                session.buffer.len() as int,
            )
            &&& after.session.next_outgoing_id == flow_state::advanced(
                session.next_outgoing_id,
                count as u32,
            )
            &&& after.session.remote_incoming_window == session.remote_incoming_window - count
            &&& after.session.outgoing_channel == session.outgoing_channel
        }),
    decreases count,
{
    let after = session::drained(session, count);
    if count == 0 {
        assert(session.buffer.subrange(0, session.buffer.len() as int) =~= session.buffer);
        assert(after.frames =~= Seq::new(count, |at: int| frame_in_turn(session, at)));
    } else {
        let fewer = (count - 1) as nat;
        law_waiting_transfers_are_sent_in_order(session, fewer);
        let before = session::drained(session, fewer);
        assert(before.session.buffer[0] == session.buffer[fewer as int]);
        assert(before.session.buffer.subrange(1, before.session.buffer.len() as int)
            =~= session.buffer.subrange(count as int, session.buffer.len() as int));
        assert(after.frames =~= Seq::new(count, |at: int| frame_in_turn(session, at)));
    }
}

/// A transfer never overtakes one that waits: while any is left waiting, a new one waits behind it.
pub proof fn law_no_transfer_overtakes(session: SessionView, waiting: BufferedTransfer)
    ensures
        ({
            let after = session::drained_with(session, waiting);
            let rest = session::drained(session, session::drainable(session)).session.buffer;
            rest.len() > 0 ==> {
                &&& after.session.buffer == rest.push(waiting)
                &&& after.frames.len() == session::drainable(session)
            }
        }),
{
    law_waiting_transfers_are_sent_in_order(session, session::drainable(session));
}

/// The window of the peer is what it can still take: together with the transfers in flight it is
/// the window that the peer told, across the wraparound of numbers too.
pub proof fn law_window_accounts_for_transfers_in_flight(
    window: u32,
    next_outgoing_id: u32,
    peer_next: u32,
)
    ensures
        ({
            let in_flight = (next_outgoing_id - peer_next) % 0x1_0000_0000;
            let left = session::window_left(window, next_outgoing_id, peer_next);
            &&& left <= window
            &&& in_flight <= window ==> left + in_flight == window
            &&& in_flight > window ==> left == 0
        }),
{
}

/// A transfer that the receive window has no slot for creates no delivery and touches no link.
pub proof fn law_excess_transfers_create_nothing(session: SessionView)
    ensures
        session_links::transfer_counted(session).links == session.links,
        session_links::transfer_counted(session).incoming_deliveries
            == session.incoming_deliveries,
        session_links::transfer_counted(session).receive_window == session.receive_window,
{
}

/// Forwarding is not consumption: a transfer that its session took in holds a slot, and handing it
/// to its link gives none back.
pub proof fn law_forwarding_keeps_the_slot(
    session: SessionView,
    transfer: Transfer,
    tag: Option<(DeliveryNumber, Seq<u8>)>,
)
    requires
        session.receive_window.held < session.receive_window.maximum,
    ensures
        ({
            let key = transfer.handle.0;
            let taken = session_links::with_link(
                session_links::slot_taken(session_links::transfer_counted(session)),
                key,
                relay::transferred(session.links[key], transfer).relay,
            );
            let forwarded = session_links::delivery_known(taken, InputHandle(key), tag);
            session::available(forwarded) == session::available(session) - 1
        }),
{
}

proof fn lemma_round(
    before: Round,
    role: Role,
    id: DeliveryNumber,
    settled: bool,
    state: Option<DeliveryState>,
)
    ensures
        ({
            let after = session_dispositions::next_round(before, role, id, settled, state);
            &&& after.session.receive_window == before.session.receive_window
            &&& after.session.next_incoming_id == before.session.next_incoming_id
            &&& after.session.remote_outgoing_window == before.session.remote_outgoing_window
            &&& after.session.buffer == before.session.buffer
            &&& after.session.links.dom() == before.session.links.dom()
            &&& session_dispositions::deliveries_named(after.session, role) == (if settled {
                session_dispositions::deliveries_named(before.session, role).remove(id)
            } else {
                session_dispositions::deliveries_named(before.session, role)
            })
            &&& forall|other: Role|
                other != role ==> #[trigger] session_dispositions::deliveries_named(
                    after.session,
                    other,
                ) == session_dispositions::deliveries_named(before.session, other)
        }),
{
    let after = session_dispositions::next_round(before, role, id, settled, state);
    let deliveries = session_dispositions::deliveries_named(before.session, role);
    assert(after.session.links.dom() =~= before.session.links.dom());
    assert(session_dispositions::deliveries_named(after.session, role) =~= (if settled {
        deliveries.remove(id)
    } else {
        deliveries
    }));
}

/// What taking a disposition down for deliveries leaves of the session.
pub proof fn lemma_rounds(
    session: SessionView,
    role: Role,
    ids: Seq<DeliveryNumber>,
    settled: bool,
    state: Option<DeliveryState>,
)
    ensures
        ({
            let after = session_dispositions::rounds(session, role, ids, settled, state);
            let named = session_dispositions::deliveries_named(session, role);
            &&& after.session.receive_window == session.receive_window
            &&& after.session.next_incoming_id == session.next_incoming_id
            &&& after.session.remote_outgoing_window == session.remote_outgoing_window
            &&& after.session.buffer == session.buffer
            &&& after.session.links.dom() == session.links.dom()
            &&& forall|id: DeliveryNumber|
                #![trigger named.contains_key(id)]
                session_dispositions::deliveries_named(after.session, role).contains_key(id) == (
                named.contains_key(id) && !(settled && ids.contains(id)))
            &&& forall|other: Role|
                other != role ==> #[trigger] session_dispositions::deliveries_named(
                    after.session,
                    other,
                ) == session_dispositions::deliveries_named(session, other)
            &&& !settled ==> session_dispositions::deliveries_named(after.session, role) == named
        }),
    decreases ids.len(),
{
    if ids.len() > 0 {
        let rest = ids.drop_last();
        let last = ids.last();
        lemma_rounds(session, role, rest, settled, state);
        lemma_round(
            session_dispositions::rounds(session, role, rest, settled, state),
            role,
            last,
            settled,
            state,
        );
        assert forall|id: DeliveryNumber| #[trigger]
            ids.contains(id) <==> (rest.contains(id) || id == last) by {
            if rest.contains(id) {
                let i = choose|i: int| 0 <= i < rest.len() && rest[i] == id;
                assert(ids[i] == id);
            }
            if ids.contains(id) {
                let i = choose|i: int| 0 <= i < ids.len() && ids[i] == id;
                if i < rest.len() {
                    assert(rest[i] == id);
                }
            }
            assert(ids[ids.len() - 1] == last);
        }
        let named = session_dispositions::deliveries_named(session, role);
        let before = session_dispositions::deliveries_named(
            session_dispositions::rounds(session, role, rest, settled, state).session,
            role,
        );
        let after = session_dispositions::deliveries_named(
            session_dispositions::rounds(session, role, ids, settled, state).session,
            role,
        );
        assert(after == (if settled {
            before.remove(last)
        } else {
            before
        }));
        assert forall|id: DeliveryNumber|
            #![trigger named.contains_key(id)]
            after.contains_key(id) == (named.contains_key(id) && !(settled && ids.contains(
                id,
            ))) by {
            assert(before.contains_key(id) == (named.contains_key(id) && !(settled
                && rest.contains(id))));
            assert(ids.contains(id) <==> (rest.contains(id) || id == last));
        }
    } else {
        assert forall|id: DeliveryNumber| !(#[trigger] ids.contains(id)) by {}
    }
}

/// Settlement is not consumption: a disposition frees no slot of the receive window, moves no
/// window and attaches or detaches no link.
pub proof fn law_dispositions_leave_the_windows(session: SessionView, disposition: Disposition)
    ensures
        ({
            let after = session_dispositions::disposition_taken(session, disposition).session;
            &&& after.receive_window == session.receive_window
            &&& after.next_incoming_id == session.next_incoming_id
            &&& after.remote_outgoing_window == session.remote_outgoing_window
            &&& after.buffer == session.buffer
            &&& after.links.dom() == session.links.dom()
        }),
{
    lemma_rounds(
        session,
        disposition.role,
        session_dispositions::live_ids(
            session_dispositions::deliveries_named(session, disposition.role).dom(),
            disposition.first,
            session_dispositions::interval_length(disposition),
        ),
        disposition.settled,
        disposition.state,
    );
}

/// A settled disposition forgets exactly the deliveries that lie in its interval, counted from its
/// first number and across the wraparound of numbers, and only those that its sender speaks of.
/// One that does not settle forgets none.
pub proof fn law_settlement_covers_the_interval(
    session: SessionView,
    disposition: Disposition,
    id: DeliveryNumber,
)
    ensures
        ({
            let after = session_dispositions::disposition_taken(session, disposition).session;
            let inside = session_dispositions::distance_from(disposition.first, id)
                < session_dispositions::interval_length(disposition);
            &&& session_dispositions::deliveries_named(after, disposition.role).contains_key(id)
                == (session_dispositions::deliveries_named(
                session,
                disposition.role,
            ).contains_key(id) && !(disposition.settled && inside))
            &&& forall|other: Role|
                other != disposition.role ==> #[trigger] session_dispositions::deliveries_named(
                    after,
                    other,
                ) == session_dispositions::deliveries_named(session, other)
        }),
{
    let known = session_dispositions::deliveries_named(session, disposition.role).dom();
    let count = session_dispositions::interval_length(disposition);
    let ids = session_dispositions::live_ids(known, disposition.first, count);
    session_dispositions::lemma_live_ids(known, disposition.first, count);
    lemma_rounds(session, disposition.role, ids, disposition.settled, disposition.state);
    assert(ids.contains(id) <==> known.contains(id) && session_dispositions::distance_from(
        disposition.first,
        id,
    ) < count);
}

/// An answer speaks of consecutive numbers only, and never across their wraparound: it begins with
/// the first number of its run and ends with the last, with none left out between.
pub proof fn law_answers_are_runs(
    ids: Seq<DeliveryNumber>,
    state: Option<DeliveryState>,
    run: int,
    at: int,
)
    requires
        ids.len() <= usize::MAX,
        0 <= run < session_dispositions::answers(ids, state).len(),
        chunks::run_start(session_dispositions::id_run_starts(ids), run) <= at < chunks::run_end(
            session_dispositions::id_run_starts(ids),
            ids.len(),
            run,
        ),
    ensures
        ({
            let answer = session_dispositions::answers(ids, state)[run];
            let start = chunks::run_start(session_dispositions::id_run_starts(ids), run);
            &&& ids[at] == answer.first + (at - start)
            &&& covers(answer, ids[at])
            &&& answer.settled
            &&& answer.role == Role::Sender
            &&& answer.state == state
        }),
{
    let starts = session_dispositions::id_run_starts(ids);
    let end = chunks::run_end(starts, ids.len(), run);
    lemma_run_bounds(ids, run);
    lemma_run(ids, run, at);
    lemma_run(ids, run, end - 1);
}

/// Whether a disposition speaks of a number.
pub open spec fn covers(disposition: Disposition, id: DeliveryNumber) -> bool {
    disposition.first <= id <= disposition.last->0
}

/// Numbers that stand in ascending order, each once.
pub open spec fn strictly_ascending(ids: Seq<DeliveryNumber>) -> bool {
    forall|i: int, j: int| 0 <= i < j < ids.len() ==> #[trigger] ids[i] < #[trigger] ids[j]
}

/// Runs are not empty, and lie within the numbers.
proof fn lemma_run_bounds(ids: Seq<DeliveryNumber>, run: int)
    requires
        ids.len() <= usize::MAX,
        0 <= run < session_dispositions::run_count(ids),
    ensures
        ({
            let starts = session_dispositions::id_run_starts(ids);
            0 <= chunks::run_start(starts, run) < chunks::run_end(starts, ids.len(), run)
                <= ids.len()
        }),
{
    let starts = session_dispositions::id_run_starts(ids);
    let joined = |left: DeliveryNumber, right: DeliveryNumber| chunks::follows(left, right);
    chunks::lemma_run_starts(ids, joined, ids.len());
    if run > 0 {
        assert(1 <= starts[run - 1] < ids.len());
    }
    if run < starts.len() {
        assert(1 <= starts[run] < ids.len());
    }
}

/// The run that holds a place.
proof fn run_around(starts: Seq<usize>, length: nat, at: int, last: int) -> (run: int)
    requires
        0 <= last <= starts.len(),
        0 <= at < chunks::run_end(starts, length, last),
    ensures
        0 <= run <= last,
        chunks::run_start(starts, run) <= at < chunks::run_end(starts, length, run),
    decreases last,
{
    if last == 0 || starts[last - 1] <= at {
        last
    } else {
        run_around(starts, length, at, last - 1)
    }
}

/// The place of a number that an answer speaks of.
proof fn place_covered(
    ids: Seq<DeliveryNumber>,
    state: Option<DeliveryState>,
    run: int,
    id: DeliveryNumber,
) -> (at: int)
    requires
        ids.len() <= usize::MAX,
        0 <= run < session_dispositions::answers(ids, state).len(),
        covers(session_dispositions::answers(ids, state)[run], id),
    ensures
        0 <= at < ids.len(),
        ids[at] == id,
        chunks::run_start(session_dispositions::id_run_starts(ids), run) <= at < chunks::run_end(
            session_dispositions::id_run_starts(ids),
            ids.len(),
            run,
        ),
{
    let starts = session_dispositions::id_run_starts(ids);
    let start = chunks::run_start(starts, run);
    let end = chunks::run_end(starts, ids.len(), run);
    let first = session_dispositions::answers(ids, state)[run].first;
    lemma_run_bounds(ids, run);
    law_answers_are_runs(ids, state, run, end - 1);
    let at = start + (id - first);
    law_answers_are_runs(ids, state, run, at);
    at
}

/// Answers speak of exactly the numbers to be answered, and of each in one answer only.
pub proof fn law_answers_cover_exactly(
    ids: Seq<DeliveryNumber>,
    state: Option<DeliveryState>,
    id: DeliveryNumber,
)
    requires
        ids.len() <= usize::MAX,
        strictly_ascending(ids),
    ensures
        ids.contains(id) <==> exists|run: int|
            0 <= run < session_dispositions::answers(ids, state).len() && covers(
                #[trigger] session_dispositions::answers(ids, state)[run],
                id,
            ),
        forall|one: int, other: int|
            0 <= one < session_dispositions::answers(ids, state).len() && 0 <= other
                < session_dispositions::answers(ids, state).len() && covers(
                #[trigger] session_dispositions::answers(ids, state)[one],
                id,
            ) && covers(#[trigger] session_dispositions::answers(ids, state)[other], id) ==> one
                == other,
{
    let starts = session_dispositions::id_run_starts(ids);
    let answers = session_dispositions::answers(ids, state);
    if ids.contains(id) {
        let at = choose|at: int| 0 <= at < ids.len() && ids[at] == id;
        let run = run_around(starts, ids.len(), at, starts.len() as int);
        law_answers_are_runs(ids, state, run, at);
        assert(covers(answers[run], id));
    }
    if exists|run: int| 0 <= run < answers.len() && covers(#[trigger] answers[run], id) {
        let run = choose|run: int| 0 <= run < answers.len() && covers(#[trigger] answers[run], id);
        let at = place_covered(ids, state, run, id);
        assert(ids[at] == id);
    }
    assert forall|one: int, other: int|
        0 <= one < answers.len() && 0 <= other < answers.len() && covers(
            #[trigger] answers[one],
            id,
        ) && covers(#[trigger] answers[other], id) implies one == other by {
        let here = place_covered(ids, state, one, id);
        let there = place_covered(ids, state, other, id);
        if here < there {
            assert(ids[here] < ids[there]);
        } else if there < here {
            assert(ids[there] < ids[here]);
        }
        let joined = |left: DeliveryNumber, right: DeliveryNumber| chunks::follows(left, right);
        chunks::lemma_run_starts(ids, joined, ids.len());
        if one < other {
            assert(starts[one] <= starts[other - 1]);
        } else if other < one {
            assert(starts[other] <= starts[one - 1]);
        }
    }
}

/// Answers come in ascending order, and no two of them could be one: at least one number lies
/// between them.
pub proof fn law_answers_are_apart(
    ids: Seq<DeliveryNumber>,
    state: Option<DeliveryState>,
    run: int,
)
    requires
        ids.len() <= usize::MAX,
        strictly_ascending(ids),
        0 <= run,
        run + 1 < session_dispositions::answers(ids, state).len(),
    ensures
        session_dispositions::answers(ids, state)[run].last->0 + 1
            < session_dispositions::answers(ids, state)[run + 1].first,
{
    let starts = session_dispositions::id_run_starts(ids);
    let joined = |left: DeliveryNumber, right: DeliveryNumber| chunks::follows(left, right);
    chunks::lemma_run_starts(ids, joined, ids.len());
    let at = starts[run] as int;
    assert(!joined(ids[at - 1], ids[at]));
    assert(ids[at - 1] < ids[at]);
}

/// Whether an answer to a delivery is due: the disposition speaks of it, it is unsettled, and the
/// relay of its link says so.
pub open spec fn answer_due(
    session: SessionView,
    disposition: Disposition,
    id: DeliveryNumber,
) -> bool {
    let named = session_dispositions::deliveries_named(session, disposition.role);
    &&& named.contains_key(id)
    &&& session_dispositions::distance_from(disposition.first, id)
        < session_dispositions::interval_length(disposition)
    &&& echoes(session, disposition.role, id, disposition.settled, disposition.state)
}

/// Whether the relay of the link of a delivery says that an echo is needed.
pub open spec fn echoes(
    session: SessionView,
    role: Role,
    id: DeliveryNumber,
    settled: bool,
    state: Option<DeliveryState>,
) -> bool {
    let (handle, _) = session_dispositions::deliveries_named(session, role)[id];
    session.links.contains_key(handle.0) && relay::echo_due(
        session.links[handle.0],
        settled,
        state,
    )
}

proof fn lemma_echoed(
    session: SessionView,
    role: Role,
    ids: Seq<DeliveryNumber>,
    state: Option<DeliveryState>,
)
    requires
        ids.no_duplicates(),
        forall|id: DeliveryNumber| #[trigger]
            ids.contains(id) ==> session_dispositions::deliveries_named(
                session,
                role,
            ).contains_key(id),
    ensures
        ({
            let round = session_dispositions::rounds(session, role, ids, false, state);
            &&& round.echoed.no_duplicates()
            &&& forall|id: DeliveryNumber| #[trigger]
                round.echoed.contains(id) <==> ids.contains(id) && echoes(
                    session,
                    role,
                    id,
                    false,
                    state,
                )
            &&& forall|key: u32| #[trigger]
                session.links.contains_key(key) ==> relay::echo_due(
                    round.session.links[key],
                    false,
                    state,
                ) == relay::echo_due(session.links[key], false, state)
        }),
    decreases ids.len(),
{
    let round = session_dispositions::rounds(session, role, ids, false, state);
    if ids.len() > 0 {
        let rest = ids.drop_last();
        let last = ids.last();
        let before = session_dispositions::rounds(session, role, rest, false, state);
        assert forall|id: DeliveryNumber| #[trigger] rest.contains(id) implies ids.contains(
            id,
        ) && id != last by {
            let i = choose|i: int| 0 <= i < rest.len() && rest[i] == id;
            assert(ids[i] == id);
        }
        assert(ids.contains(last));
        lemma_echoed(session, role, rest, state);
        lemma_rounds(session, role, rest, false, state);
        assert forall|id: DeliveryNumber| #[trigger]
            ids.contains(id) <==> (rest.contains(id) || id == last) by {
            if ids.contains(id) {
                let i = choose|i: int| 0 <= i < ids.len() && ids[i] == id;
                if i < rest.len() {
                    assert(rest[i] == id);
                }
            }
        }
        let due = echoes(session, role, last, false, state);
        assert(round.echoed == (if due {
            before.echoed.push(last)
        } else {
            before.echoed
        }));
        assert forall|id: DeliveryNumber| #[trigger]
            round.echoed.contains(id) <==> (before.echoed.contains(id) || due && id == last) by {
            if before.echoed.contains(id) {
                let i = choose|i: int| 0 <= i < before.echoed.len() && before.echoed[i] == id;
                assert(round.echoed[i] == id);
            }
            if due {
                assert(round.echoed[before.echoed.len() as int] == last);
            }
        }
        assert(!before.echoed.contains(last));
    } else {
        assert forall|id: DeliveryNumber| !(#[trigger] round.echoed.contains(id)) by {}
        assert forall|id: DeliveryNumber| !(#[trigger] ids.contains(id)) by {}
    }
}

/// Sorting numbers that stand once each makes them strictly ascending, and loses none.
proof fn lemma_ascending(ids: Seq<DeliveryNumber>)
    requires
        ids.no_duplicates(),
    ensures
        strictly_ascending(session_dispositions::ascending(ids)),
        session_dispositions::ascending(ids).len() == ids.len(),
        forall|id: DeliveryNumber| #[trigger]
            session_dispositions::ascending(ids).contains(id) <==> ids.contains(id),
{
    broadcast use vstd::seq_lib::group_to_multiset_ensures;

    let leq = |one: DeliveryNumber, other: DeliveryNumber| one <= other;
    let sorted = session_dispositions::ascending(ids);
    assert(vstd::relations::total_ordering(leq));
    ids.lemma_sort_by_ensures(leq);
    ids.lemma_multiset_has_no_duplicates();
    sorted.lemma_multiset_has_no_duplicates_conv();
    assert(sorted.to_multiset().len() == ids.to_multiset().len());
    assert forall|id: DeliveryNumber| #[trigger] sorted.contains(id) <==> ids.contains(id) by {
        assert(sorted.to_multiset().contains(id) <==> ids.to_multiset().contains(id));
    }
    assert forall|i: int, j: int| 0 <= i < j < sorted.len() implies #[trigger] sorted[i]
        < #[trigger] sorted[j] by {
        assert(leq(sorted[i], sorted[j]));
        assert(sorted[i] != sorted[j]);
    }
}

/// Every delivery to which an answer is due lies in exactly one answer, and answers speak of no
/// other delivery.
pub proof fn law_every_echo_is_answered_once(
    session: SessionView,
    disposition: Disposition,
    id: DeliveryNumber,
)
    requires
        !disposition.settled,
        session_dispositions::disposition_taken(session, disposition).echoed.len() <= usize::MAX,
    ensures
        ({
            let taken = session_dispositions::disposition_taken(session, disposition);
            let answers = session_dispositions::answers(
                session_dispositions::ascending(taken.echoed),
                disposition.state,
            );
            &&& answer_due(session, disposition, id) <==> exists|run: int|
                0 <= run < answers.len() && covers(#[trigger] answers[run], id)
            &&& forall|one: int, other: int|
                0 <= one < answers.len() && 0 <= other < answers.len() && covers(
                    #[trigger] answers[one],
                    id,
                ) && covers(#[trigger] answers[other], id) ==> one == other
        }),
{
    let known = session_dispositions::deliveries_named(session, disposition.role).dom();
    let count = session_dispositions::interval_length(disposition);
    let live = session_dispositions::live_ids(known, disposition.first, count);
    session_dispositions::lemma_live_ids(known, disposition.first, count);
    assert(live.no_duplicates());
    lemma_echoed(session, disposition.role, live, disposition.state);
    let echoed = session_dispositions::disposition_taken(session, disposition).echoed;
    lemma_ascending(echoed);
    law_answers_cover_exactly(
        session_dispositions::ascending(echoed),
        disposition.state,
        id,
    );
    assert(live.contains(id) <==> known.contains(id) && session_dispositions::distance_from(
        disposition.first,
        id,
    ) < count);
    assert(echoed.contains(id) <==> live.contains(id) && echoes(
        session,
        disposition.role,
        id,
        false,
        disposition.state,
    ));
    assert(session_dispositions::ascending(echoed).contains(id) <==> echoed.contains(id));
}

proof fn lemma_run(ids: Seq<DeliveryNumber>, run: int, at: int)
    requires
        ids.len() <= usize::MAX,
        0 <= run < session_dispositions::run_count(ids),
        chunks::run_start(session_dispositions::id_run_starts(ids), run) <= at < chunks::run_end(
            session_dispositions::id_run_starts(ids),
            ids.len(),
            run,
        ),
    ensures
        ids[at] == ids[chunks::run_start(session_dispositions::id_run_starts(ids), run)] + (at
            - chunks::run_start(session_dispositions::id_run_starts(ids), run)),
    decreases at,
{
    let starts = session_dispositions::id_run_starts(ids);
    let start = chunks::run_start(starts, run);
    let joined = |left: DeliveryNumber, right: DeliveryNumber| chunks::follows(left, right);
    chunks::lemma_run_starts(ids, joined, ids.len());
    if at > start {
        if run > 0 {
            assert(starts[run - 1] >= 1);
        }
        lemma_run(ids, run, at - 1);
        if !joined(ids[at - 1], ids[at]) {
            lemma_run_bounds(ids, run);
            assert(starts.contains(at as usize));
            let k = choose|k: int| 0 <= k < starts.len() && starts[k] == at as usize;
            if k < run - 1 {
                assert(starts[k] < starts[run - 1]);
            } else if k > run {
                assert(starts[run] < starts[k]);
            }
        }
    }
}

/// The names of a session are in order: each handle has a name of its own, the links are known by
/// exactly these names, and the handle that comes next is free.
pub open spec fn names_consistent(session: SessionView) -> bool {
    &&& ordered_map::unique(session.links_by_name)
    &&& !session.names.contains_key(session.next_handle)
    &&& forall|one: usize, other: usize|
        session.names.contains_key(one) && session.names.contains_key(other) && one != other
            ==> #[trigger] session.names[one] != #[trigger] session.names[other]
    &&& forall|key: usize|
        session.names.contains_key(key) ==> ordered_map::has(
            session.links_by_name,
            #[trigger] session.names[key],
        )
    &&& forall|name: Seq<char>| #[trigger]
        ordered_map::has(session.links_by_name, name) ==> exists|key: usize|
            session.names.contains_key(key) && #[trigger] session.names[key] == name
}

/// Allocating a link keeps the names in order. The handle is one that no other link has.
pub proof fn law_allocation_keeps_names_consistent(
    session: SessionView,
    name: Seq<char>,
    relay: Option<RelayView<OutputHandle>>,
    next_handle: usize,
)
    requires
        names_consistent(session),
        session_links::allocation_refused(session, name) is None,
        !session.names.contains_key(next_handle),
        next_handle != session.next_handle,
    ensures
        names_consistent(session_links::after_allocation(session, name, relay, next_handle)),
        !session.names.contains_key(session.next_handle),
{
    let after = session_links::after_allocation(session, name, relay, next_handle);
    ordered_map::law_insert(session.links_by_name, name, relay, name);
    assert forall|one: usize, other: usize|
        after.names.contains_key(one) && after.names.contains_key(other) && one
            != other implies #[trigger] after.names[one] != #[trigger] after.names[other] by {
        if one != session.next_handle {
            assert(ordered_map::has(session.links_by_name, session.names[one]));
        }
        if other != session.next_handle {
            assert(ordered_map::has(session.links_by_name, session.names[other]));
        }
    }
    assert forall|key: usize| after.names.contains_key(key) implies ordered_map::has(
        after.links_by_name,
        #[trigger] after.names[key],
    ) by {
        ordered_map::law_insert(session.links_by_name, name, relay, after.names[key]);
        if key != session.next_handle {
            assert(ordered_map::has(session.links_by_name, session.names[key]));
            assert(ordered_map::value_of(session.links_by_name, session.names[key]) is Some);
        }
        assert(ordered_map::value_of(after.links_by_name, after.names[key]) is Some);
    }
    assert forall|known: Seq<char>| #[trigger]
        ordered_map::has(after.links_by_name, known) implies exists|key: usize|
        after.names.contains_key(key) && #[trigger] after.names[key] == known by {
        ordered_map::law_insert(session.links_by_name, name, relay, known);
        assert(ordered_map::value_of(after.links_by_name, known) is Some);
        if known == name {
            assert(after.names[session.next_handle] == known);
        } else {
            assert(ordered_map::has(session.links_by_name, known));
            let key = choose|key: usize|
                session.names.contains_key(key) && #[trigger] session.names[key] == known;
            assert(after.names[key] == known);
        }
    }
}

/// Deallocating a link keeps the names in order. Its handle comes next, and its name is free: a
/// link of the same name can be allocated again.
pub proof fn law_deallocation_frees_handle_and_name(session: SessionView, handle: OutputHandle)
    requires
        names_consistent(session),
        session.names.contains_key(handle.0 as usize),
    ensures
        ({
            let after = session_links::after_deallocation(session, handle);
            let name = session.names[handle.0 as usize];
            &&& names_consistent(after)
            &&& after.next_handle == handle.0
            &&& !ordered_map::has(after.links_by_name, name)
        }),
{
    let gone = handle.0 as usize;
    let name = session.names[gone];
    let after = session_links::after_deallocation(session, handle);
    ordered_map::law_remove(session.links_by_name, name, name);
    assert(ordered_map::value_of(after.links_by_name, name) is None);
    assert forall|one: usize, other: usize|
        after.names.contains_key(one) && after.names.contains_key(other) && one
            != other implies #[trigger] after.names[one] != #[trigger] after.names[other] by {
        assert(session.names[one] != session.names[other]);
    }
    assert forall|key: usize| after.names.contains_key(key) implies ordered_map::has(
        after.links_by_name,
        #[trigger] after.names[key],
    ) by {
        assert(session.names[key] != session.names[gone]);
        ordered_map::law_remove(session.links_by_name, name, session.names[key]);
        assert(ordered_map::has(session.links_by_name, session.names[key]));
        assert(ordered_map::value_of(session.links_by_name, session.names[key]) is Some);
        assert(ordered_map::value_of(after.links_by_name, after.names[key]) is Some);
    }
    assert forall|known: Seq<char>| #[trigger]
        ordered_map::has(after.links_by_name, known) implies exists|key: usize|
        after.names.contains_key(key) && #[trigger] after.names[key] == known by {
        ordered_map::law_remove(session.links_by_name, name, known);
        assert(ordered_map::value_of(after.links_by_name, known) is Some);
        assert(ordered_map::has(session.links_by_name, known));
        let key = choose|key: usize|
            session.names.contains_key(key) && #[trigger] session.names[key] == known;
        assert(after.names[key] == known);
    }
}

/// Attaching a link keeps the names in order: its name stays taken.
pub proof fn law_attaching_keeps_names_consistent(session: SessionView, name: Seq<char>)
    requires
        names_consistent(session),
    ensures
        names_consistent(
            SessionView {
                links_by_name: ordered_map::replaced(session.links_by_name, name, None),
                ..session
            },
        ),
{
    let after = SessionView {
        links_by_name: ordered_map::replaced(session.links_by_name, name, None),
        ..session
    };
    ordered_map::law_replace(session.links_by_name, name, None, name);
    assert forall|one: usize, other: usize|
        after.names.contains_key(one) && after.names.contains_key(other) && one
            != other implies #[trigger] after.names[one] != #[trigger] after.names[other] by {
        assert(session.names[one] != session.names[other]);
    }
    assert forall|key: usize| after.names.contains_key(key) implies ordered_map::has(
        after.links_by_name,
        #[trigger] after.names[key],
    ) by {
        ordered_map::law_replace(session.links_by_name, name, None, session.names[key]);
        assert(ordered_map::has(session.links_by_name, session.names[key]));
    }
    assert forall|known: Seq<char>| #[trigger]
        ordered_map::has(after.links_by_name, known) implies exists|key: usize|
        after.names.contains_key(key) && #[trigger] after.names[key] == known by {
        ordered_map::law_replace(session.links_by_name, name, None, known);
        assert(ordered_map::has(session.links_by_name, known));
        let key = choose|key: usize|
            session.names.contains_key(key) && #[trigger] session.names[key] == known;
        assert(after.names[key] == known);
    }
}

} // verus!
