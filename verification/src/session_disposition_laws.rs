//! What holds of the dispositions that a session takes, for every delivery that they speak of.

use vstd::prelude::*;

use crate::definitions::{self, DeliveryNumber, DeliveryState, InputHandle, Role};
use crate::performatives::Disposition;
use crate::receiver_delivery::ReceiverDelivery;
use crate::relay::{self, RelayView, Settled, UnsettledMessage};
use crate::relay_laws;
use crate::session::SessionView;
use crate::session_dispositions::{self, Round};
use crate::session_laws;
use crate::unsettled_store;

verus! {

/// Whether a disposition speaks of a number: it is its first one, or comes after that no later
/// than its last one. Numbers wrap.
pub open spec fn speaks_of(disposition: Disposition, id: DeliveryNumber) -> bool {
    let last = if disposition.last is Some {
        disposition.last->0
    } else {
        disposition.first
    };
    (id - disposition.first) % 0x1_0000_0000 <= (last - disposition.first) % 0x1_0000_0000
}

/// The numbers that a disposition speaks of are those of its interval, both ends among them.
pub proof fn law_intervals_have_both_ends(disposition: Disposition, id: DeliveryNumber)
    ensures
        session_dispositions::distance_from(disposition.first, id)
            < session_dispositions::interval_length(disposition) <==> speaks_of(disposition, id),
        speaks_of(disposition, disposition.first),
        disposition.last is Some ==> speaks_of(disposition, disposition.last->0),
        disposition.last is None ==> (speaks_of(disposition, id) <==> id == disposition.first),
        session_dispositions::interval_length(disposition) <= 0x1_0000_0000,
{
}

/// The deliveries that a disposition takes up are those that its sender speaks of, are known and
/// lie in its interval, and no others; each once, and in the order of their numbers from the first
/// one on.
pub proof fn law_live_deliveries_are_taken_up(
    session: SessionView,
    disposition: Disposition,
    id: DeliveryNumber,
)
    ensures
        ({
            let named = session_dispositions::deliveries_named(session, disposition.role);
            let ids = taken_up(session, disposition);
            &&& ids.contains(id) <==> named.contains_key(id) && speaks_of(disposition, id)
            &&& ids.no_duplicates()
            &&& forall|i: int, j: int|
                0 <= i < j < ids.len() ==> (#[trigger] ids[i] - disposition.first) % 0x1_0000_0000
                    < (#[trigger] ids[j] - disposition.first) % 0x1_0000_0000
        }),
        disposition.role is Sender ==> session_dispositions::deliveries_named(
            session,
            disposition.role,
        ) == session.incoming_deliveries,
        disposition.role is Receiver ==> session_dispositions::deliveries_named(
            session,
            disposition.role,
        ) == session.outgoing_deliveries,
{
    let named = session_dispositions::deliveries_named(session, disposition.role);
    let ids = taken_up(session, disposition);
    law_intervals_have_both_ends(disposition, id);
    session_dispositions::lemma_live_ids(
        named.dom(),
        disposition.first,
        session_dispositions::interval_length(disposition),
    );
    assert forall|i: int, j: int| 0 <= i < j < ids.len() implies (#[trigger] ids[i]
        - disposition.first) % 0x1_0000_0000 < (#[trigger] ids[j] - disposition.first)
        % 0x1_0000_0000 by {
        assert(session_dispositions::distance_from(disposition.first, ids[i])
            < session_dispositions::distance_from(disposition.first, ids[j]));
    }
}

/// The deliveries that a disposition takes up.
pub open spec fn taken_up(session: SessionView, disposition: Disposition) -> Seq<DeliveryNumber> {
    session_dispositions::live_ids(
        session_dispositions::deliveries_named(session, disposition.role).dom(),
        disposition.first,
        session_dispositions::interval_length(disposition),
    )
}

/// What a sender knows of a delivery.
pub open spec fn sent_under(
    relay: RelayView<definitions::OutputHandle>,
    tag: Seq<u8>,
) -> Option<UnsettledMessage> {
    match relay {
        RelayView::Sender { unsettled, .. } => unsettled_store::held(unsettled.entries, tag),
        RelayView::Receiver { .. } => None,
    }
}

/// What a receiver knows of a delivery.
pub open spec fn received_under(
    relay: RelayView<definitions::OutputHandle>,
    tag: Seq<u8>,
) -> Option<ReceiverDelivery> {
    match relay {
        RelayView::Sender { .. } => None,
        RelayView::Receiver { unsettled, .. } => unsettled_store::held(unsettled.entries, tag),
    }
}

/// No link of a session holds a delivery twice.
pub open spec fn links_distinct(session: SessionView) -> bool {
    forall|key: u32| #[trigger]
        session.links.contains_key(key) ==> relay_laws::relay_distinct(session.links[key])
}

/// No two of these deliveries are the same one of the same link.
pub open spec fn deliveries_apart(
    named: Map<DeliveryNumber, (InputHandle, Seq<u8>)>,
    ids: Seq<DeliveryNumber>,
) -> bool {
    forall|one: DeliveryNumber, other: DeliveryNumber|
        ids.contains(one) && ids.contains(other) && one != other ==> #[trigger] named[one]
            != #[trigger] named[other]
}

/// The outcomes that deliveries bring, each as if the others were not there.
pub open spec fn outcomes_apart(
    session: SessionView,
    role: Role,
    ids: Seq<DeliveryNumber>,
    settled: bool,
    state: Option<DeliveryState>,
) -> Seq<Settled>
    decreases ids.len(),
{
    if ids.len() == 0 {
        seq![]
    } else {
        let before = outcomes_apart(session, role, ids.drop_last(), settled, state);
        let (handle, tag) = session_dispositions::deliveries_named(session, role)[ids.last()];
        let message = sent_under(session.links[handle.0], tag);
        if session.links.contains_key(handle.0) && message is Some && (settled
            || definitions::settled_outcome(state)) {
            before.push(Settled { reply: message->0.reply, state })
        } else {
            before
        }
    }
}

proof fn lemma_disposed(
    relay: RelayView<definitions::OutputHandle>,
    settled: bool,
    state: Option<DeliveryState>,
    tag: Seq<u8>,
    other: Seq<u8>,
)
    requires
        relay_laws::relay_distinct(relay),
    ensures
        ({
            let after = relay::disposed(relay, settled, state, tag);
            &&& relay_laws::relay_distinct(after)
            &&& after is Sender == relay is Sender
            &&& other != tag ==> sent_under(after, other) == sent_under(relay, other)
            &&& other != tag ==> received_under(after, other) == received_under(relay, other)
        }),
{
    relay_laws::law_dispositions_add_nothing(relay, settled, state, tag, other);
    match relay {
        RelayView::Sender { output_handle, unsettled, receiver_settle_mode } => {
            relay_laws::law_ended_deliveries_report_their_outcome(
                output_handle,
                unsettled,
                receiver_settle_mode,
                settled,
                state,
                tag,
                other,
            );
        },
        RelayView::Receiver {
            output_handle,
            unsettled,
            receiver_settle_mode,
            more,
            current_tag,
        } => {
            relay_laws::law_receivers_take_dispositions_down(
                output_handle,
                unsettled,
                receiver_settle_mode,
                more,
                current_tag,
                settled,
                state,
                tag,
                other,
            );
        },
    }
}

/// Whether some of these deliveries is the one of a link under a tag.
pub open spec fn among(
    named: Map<DeliveryNumber, (InputHandle, Seq<u8>)>,
    ids: Seq<DeliveryNumber>,
    key: u32,
    tag: Seq<u8>,
) -> bool {
    exists|id: DeliveryNumber|
        #[trigger] ids.contains(id) && named[id] == (InputHandle(key), tag)
}

/// Whether a link knows of a delivery what it would if the disposition were taken down for this
/// one alone, and what it knew if it is not among those taken up.
pub open spec fn taken_alone(
    session: SessionView,
    after: SessionView,
    role: Role,
    ids: Seq<DeliveryNumber>,
    settled: bool,
    state: Option<DeliveryState>,
    key: u32,
    tag: Seq<u8>,
) -> bool {
    let named = session_dispositions::deliveries_named(session, role);
    let once = relay::disposed(session.links[key], settled, state, tag);
    let expected = if among(named, ids, key, tag) {
        once
    } else {
        session.links[key]
    };
    &&& after.links[key] is Sender == session.links[key] is Sender
    &&& sent_under(after.links[key], tag) == sent_under(expected, tag)
    &&& received_under(after.links[key], tag) == received_under(expected, tag)
}

/// What stays of a session when a disposition is taken down for some deliveries, and what becomes
/// of these.
proof fn lemma_rounds_kept(
    session: SessionView,
    role: Role,
    ids: Seq<DeliveryNumber>,
    settled: bool,
    state: Option<DeliveryState>,
)
    requires
        links_distinct(session),
        ids.no_duplicates(),
        deliveries_apart(session_dispositions::deliveries_named(session, role), ids),
        forall|id: DeliveryNumber| #[trigger]
            ids.contains(id) ==> session_dispositions::deliveries_named(
                session,
                role,
            ).contains_key(id),
    ensures
        links_distinct(session_dispositions::rounds(session, role, ids, settled, state).session),
        session_dispositions::rounds(session, role, ids, settled, state).session.links.dom()
            == session.links.dom(),
        session_dispositions::rounds(session, role, ids, settled, state).reported
            == outcomes_apart(session, role, ids, settled, state),
        forall|id: DeliveryNumber| #[trigger]
            session_dispositions::deliveries_named(
                session_dispositions::rounds(session, role, ids, settled, state).session,
                role,
            ).contains_key(id) ==> session_dispositions::deliveries_named(
                session_dispositions::rounds(session, role, ids, settled, state).session,
                role,
            )[id] == session_dispositions::deliveries_named(session, role)[id],
        forall|key: u32, tag: Seq<u8>|
            session.links.contains_key(key) ==> #[trigger] taken_alone(
                session,
                session_dispositions::rounds(session, role, ids, settled, state).session,
                role,
                ids,
                settled,
                state,
                key,
                tag,
            ),
    decreases ids.len(),
{
    let named = session_dispositions::deliveries_named(session, role);
    let round = session_dispositions::rounds(session, role, ids, settled, state);
    if ids.len() == 0 {
        assert forall|key: u32, tag: Seq<u8>| session.links.contains_key(key) implies #[trigger]
            taken_alone(session, round.session, role, ids, settled, state, key, tag) by {
            assert(!among(named, ids, key, tag));
        }
    } else {
        let rest = ids.drop_last();
        let last = ids.last();
        let (handle, tag) = named[last];
        let before = session_dispositions::rounds(session, role, rest, settled, state);
        let known = session_dispositions::deliveries_named(before.session, role);
        assert forall|id: DeliveryNumber| #[trigger] rest.contains(id) implies ids.contains(id)
            && id != last by {
            let i = choose|i: int| 0 <= i < rest.len() && rest[i] == id;
            assert(ids[i] == id);
            assert(ids[ids.len() - 1] == last);
        }
        assert forall|id: DeliveryNumber| #[trigger] ids.contains(id) implies rest.contains(id)
            || id == last by {
            let i = choose|i: int| 0 <= i < ids.len() && ids[i] == id;
            if i < rest.len() {
                assert(rest[i] == id);
            }
        }
        assert(ids[ids.len() - 1] == last);
        assert(ids.contains(last));
        assert(named.contains_key(last));
        lemma_rounds_kept(session, role, rest, settled, state);
        session_laws::lemma_rounds(session, role, rest, settled, state);
        assert(known.contains_key(last));
        lemma_last_round(session, before, role, last, settled, state);
        assert(!among(named, rest, handle.0, tag)) by {
            if among(named, rest, handle.0, tag) {
                let id = choose|id: DeliveryNumber|
                    #[trigger] rest.contains(id) && named[id] == (InputHandle(handle.0), tag);
                assert(named[id] != named[last]);
            }
        }
        if session.links.contains_key(handle.0) {
            assert(taken_alone(
                session,
                before.session,
                role,
                rest,
                settled,
                state,
                handle.0,
                tag,
            ));
        }
        assert(round.reported =~= outcomes_apart(session, role, ids, settled, state));
        assert forall|key: u32, other: Seq<u8>| session.links.contains_key(key) implies #[trigger]
            taken_alone(session, round.session, role, ids, settled, state, key, other) by {
            assert(taken_alone(
                session,
                before.session,
                role,
                rest,
                settled,
                state,
                key,
                other,
            ));
            if among(named, rest, key, other) {
                let id = choose|id: DeliveryNumber|
                    #[trigger] rest.contains(id) && named[id] == (InputHandle(key), other);
                assert(ids.contains(id));
            } else if among(named, ids, key, other) {
                let id = choose|id: DeliveryNumber|
                    #[trigger] ids.contains(id) && named[id] == (InputHandle(key), other);
                assert(id == last);
            }
            if key == handle.0 {
                let link = before.session.links[key];
                lemma_disposed(link, settled, state, tag, other);
                lemma_disposal_is_pointwise(link, session.links[key], settled, state, tag);
            }
        }
    }
}

/// One more delivery leaves the links as they are, but for what they hold.
proof fn lemma_last_round(
    session: SessionView,
    before: Round,
    role: Role,
    last: DeliveryNumber,
    settled: bool,
    state: Option<DeliveryState>,
)
    requires
        links_distinct(before.session),
        before.session.links.dom() == session.links.dom(),
        session_dispositions::deliveries_named(before.session, role).contains_key(last),
        session_dispositions::deliveries_named(before.session, role)[last]
            == session_dispositions::deliveries_named(session, role)[last],
    ensures
        ({
            let after = session_dispositions::next_round(before, role, last, settled, state);
            &&& links_distinct(after.session)
            &&& after.session.links.dom() == session.links.dom()
        }),
{
    let (handle, tag) = session_dispositions::deliveries_named(session, role)[last];
    let after = session_dispositions::next_round(before, role, last, settled, state);
    assert(after.session.links.dom() =~= before.session.links.dom());
    assert forall|key: u32| #[trigger]
        after.session.links.contains_key(key) implies relay_laws::relay_distinct(
        after.session.links[key],
    ) by {
        assert(before.session.links.contains_key(key));
        if key == handle.0 {
            lemma_disposed(before.session.links[key], settled, state, tag, tag);
        }
    }
}

/// What a disposition makes of a delivery depends on that delivery alone.
proof fn lemma_disposal_is_pointwise(
    one: RelayView<definitions::OutputHandle>,
    other: RelayView<definitions::OutputHandle>,
    settled: bool,
    state: Option<DeliveryState>,
    tag: Seq<u8>,
)
    requires
        relay_laws::relay_distinct(one),
        relay_laws::relay_distinct(other),
        one is Sender == other is Sender,
    ensures
        sent_under(one, tag) == sent_under(other, tag) ==> sent_under(
            relay::disposed(one, settled, state, tag),
            tag,
        ) == sent_under(relay::disposed(other, settled, state, tag), tag),
        received_under(one, tag) == received_under(other, tag) ==> received_under(
            relay::disposed(one, settled, state, tag),
            tag,
        ) == received_under(relay::disposed(other, settled, state, tag), tag),
{
    lemma_disposed_alone(one, settled, state, tag);
    lemma_disposed_alone(other, settled, state, tag);
}

proof fn lemma_disposed_alone(
    relay: RelayView<definitions::OutputHandle>,
    settled: bool,
    state: Option<DeliveryState>,
    tag: Seq<u8>,
)
    requires
        relay_laws::relay_distinct(relay),
    ensures
        sent_under(relay::disposed(relay, settled, state, tag), tag) == (match sent_under(
            relay,
            tag,
        ) {
            None => None,
            Some(message) => if settled || definitions::settled_outcome(state) {
                None
            } else {
                Some(UnsettledMessage { state, ..message })
            },
        }),
        received_under(relay::disposed(relay, settled, state, tag), tag) == (match received_under(
            relay,
            tag,
        ) {
            None => None,
            Some(delivery) => if settled {
                None
            } else {
                Some(delivery.after_remote_state(state))
            },
        }),
{
    match relay {
        RelayView::Sender { unsettled, .. } => {
            unsettled_store::law_without(unsettled.entries, tag, tag);
            if let Some(message) = unsettled_store::held(unsettled.entries, tag) {
                let now = UnsettledMessage { state, ..message };
                unsettled_store::law_changed(unsettled.entries, tag, now, tag);
            }
        },
        RelayView::Receiver { unsettled, .. } => {
            unsettled_store::law_without(unsettled.entries, tag, tag);
            if let Some(delivery) = unsettled_store::held(unsettled.entries, tag) {
                let now = delivery.after_remote_state(state);
                unsettled_store::law_changed(unsettled.entries, tag, now, tag);
            }
        },
    }
}

/// No two numbers that a peer of this role speaks of stand for the same delivery.
pub open spec fn numbers_apart(session: SessionView, role: Role) -> bool {
    let named = session_dispositions::deliveries_named(session, role);
    forall|one: DeliveryNumber, other: DeliveryNumber|
        named.contains_key(one) && named.contains_key(other) && one != other ==> #[trigger]
            named[one] != #[trigger] named[other]
}

proof fn lemma_taken_up(session: SessionView, disposition: Disposition)
    requires
        numbers_apart(session, disposition.role),
    ensures
        ({
            let named = session_dispositions::deliveries_named(session, disposition.role);
            let ids = taken_up(session, disposition);
            &&& ids.no_duplicates()
            &&& deliveries_apart(named, ids)
            &&& forall|id: DeliveryNumber| #[trigger]
                ids.contains(id) <==> named.contains_key(id) && speaks_of(disposition, id)
        }),
{
    let named = session_dispositions::deliveries_named(session, disposition.role);
    let ids = taken_up(session, disposition);
    law_live_deliveries_are_taken_up(session, disposition, 0);
    assert forall|id: DeliveryNumber| #[trigger] ids.contains(id) <==> named.contains_key(id)
        && speaks_of(disposition, id) by {
        law_live_deliveries_are_taken_up(session, disposition, id);
    }
}

/// A disposition reaches every delivery that it speaks of, and no other. A sender's message is
/// over if the disposition settles or tells an outcome, and else has its state. A receiver's
/// delivery is over if it settles, and else has its state as that of the peer, unless the peer had
/// told an outcome before.
pub proof fn law_dispositions_reach_every_delivery(
    session: SessionView,
    disposition: Disposition,
    id: DeliveryNumber,
)
    requires
        links_distinct(session),
        numbers_apart(session, disposition.role),
        session_dispositions::deliveries_named(session, disposition.role).contains_key(id),
        ({
            let (handle, _) = session_dispositions::deliveries_named(session, disposition.role)[id];
            session.links.contains_key(handle.0)
        }),
    ensures
        ({
            let (handle, tag) = session_dispositions::deliveries_named(
                session,
                disposition.role,
            )[id];
            let before = session.links[handle.0];
            let after = session_dispositions::disposition_taken(
                session,
                disposition,
            ).session.links[handle.0];
            let message = sent_under(before, tag);
            let delivery = received_under(before, tag);
            let outcome = definitions::settled_outcome(disposition.state);
            &&& after is Sender == before is Sender
            &&& !speaks_of(disposition, id) ==> {
                &&& sent_under(after, tag) == message
                &&& received_under(after, tag) == delivery
            }
            &&& speaks_of(disposition, id) && (disposition.settled || outcome) ==> sent_under(
                after,
                tag,
            ) is None
            &&& speaks_of(disposition, id) && disposition.settled ==> received_under(after, tag)
                is None
            &&& speaks_of(disposition, id) && !disposition.settled && !outcome && message is Some
                ==> {
                &&& sent_under(after, tag) is Some
                &&& sent_under(after, tag)->0.state == disposition.state
                &&& sent_under(after, tag)->0.reply == message->0.reply
                &&& sent_under(after, tag)->0.payload == message->0.payload
            }
            &&& speaks_of(disposition, id) && !disposition.settled && delivery is Some ==> {
                &&& received_under(after, tag) is Some
                &&& received_under(after, tag)->0.local == delivery->0.local
                &&& received_under(after, tag)->0.received == delivery->0.received
                &&& !definitions::settled_outcome(delivery->0.remote) ==> received_under(
                    after,
                    tag,
                )->0.remote == disposition.state
            }
        }),
{
    let role = disposition.role;
    let named = session_dispositions::deliveries_named(session, role);
    let ids = taken_up(session, disposition);
    let (handle, tag) = named[id];
    lemma_taken_up(session, disposition);
    lemma_rounds_kept(session, role, ids, disposition.settled, disposition.state);
    lemma_disposed_alone(session.links[handle.0], disposition.settled, disposition.state, tag);
    let after = session_dispositions::disposition_taken(session, disposition).session;
    assert(taken_alone(
        session,
        after,
        role,
        ids,
        disposition.settled,
        disposition.state,
        handle.0,
        tag,
    ));
    if speaks_of(disposition, id) {
        assert(ids.contains(id) && named[id] == (InputHandle(handle.0), tag));
    } else if among(named, ids, handle.0, tag) {
        let other = choose|other: DeliveryNumber|
            #[trigger] ids.contains(other) && named[other] == (InputHandle(handle.0), tag);
        assert(named[other] == named[id]);
    }
}

/// Whether a sender of the session waits for the outcome of a delivery that a disposition ends.
pub open spec fn ends_message(
    session: SessionView,
    disposition: Disposition,
    id: DeliveryNumber,
) -> bool {
    let (handle, tag) = session_dispositions::deliveries_named(session, disposition.role)[id];
    &&& session.links.contains_key(handle.0)
    &&& sent_under(session.links[handle.0], tag) is Some
    &&& disposition.settled || definitions::settled_outcome(disposition.state)
}

/// The outcome of a message that a disposition ends: for the one who waits for this message, and
/// with the state that the disposition tells.
pub open spec fn outcome_of(
    session: SessionView,
    disposition: Disposition,
    id: DeliveryNumber,
) -> Settled {
    let (handle, tag) = session_dispositions::deliveries_named(session, disposition.role)[id];
    Settled {
        reply: sent_under(session.links[handle.0], tag)->0.reply,
        state: disposition.state,
    }
}

proof fn lemma_outcomes_apart(
    session: SessionView,
    disposition: Disposition,
    ids: Seq<DeliveryNumber>,
)
    ensures
        outcomes_apart(session, disposition.role, ids, disposition.settled, disposition.state)
            == ids.filter(|id: DeliveryNumber| ends_message(session, disposition, id)).map_values(
            |id: DeliveryNumber| outcome_of(session, disposition, id),
        ),
    decreases ids.len(),
{
    reveal(Seq::filter);
    let ends = |id: DeliveryNumber| ends_message(session, disposition, id);
    let outcome = |id: DeliveryNumber| outcome_of(session, disposition, id);
    if ids.len() > 0 {
        lemma_outcomes_apart(session, disposition, ids.drop_last());
    }
    assert(outcomes_apart(session, disposition.role, ids, disposition.settled, disposition.state)
        =~= ids.filter(ends).map_values(outcome));
}

/// Every message that a disposition ends has its outcome reported, exactly once and in the order
/// of the numbers: to the one who waits for it, with the state that the disposition tells. Nothing
/// else is reported.
pub proof fn law_every_outcome_is_reported_once(session: SessionView, disposition: Disposition)
    requires
        links_distinct(session),
        numbers_apart(session, disposition.role),
    ensures
        session_dispositions::disposition_taken(session, disposition).reported == taken_up(
            session,
            disposition,
        ).filter(|id: DeliveryNumber| ends_message(session, disposition, id)).map_values(
            |id: DeliveryNumber| outcome_of(session, disposition, id),
        ),
{
    let ids = taken_up(session, disposition);
    lemma_taken_up(session, disposition);
    lemma_rounds_kept(
        session,
        disposition.role,
        ids,
        disposition.settled,
        disposition.state,
    );
    lemma_outcomes_apart(session, disposition, ids);
}

proof fn lemma_rounds_leave_the_rest(
    session: SessionView,
    role: Role,
    ids: Seq<DeliveryNumber>,
    settled: bool,
    state: Option<DeliveryState>,
)
    ensures
        ({
            let after = session_dispositions::rounds(session, role, ids, settled, state).session;
            &&& after == (SessionView {
                links: after.links,
                outgoing_deliveries: after.outgoing_deliveries,
                incoming_deliveries: after.incoming_deliveries,
                ..session
            })
        }),
    decreases ids.len(),
{
    if ids.len() > 0 {
        lemma_rounds_leave_the_rest(session, role, ids.drop_last(), settled, state);
    }
}

/// A disposition changes what links and session know of deliveries, and nothing else.
pub proof fn law_dispositions_concern_deliveries_only(
    session: SessionView,
    disposition: Disposition,
)
    ensures
        ({
            let after = session_dispositions::disposition_taken(session, disposition).session;
            after == (SessionView {
                links: after.links,
                outgoing_deliveries: after.outgoing_deliveries,
                incoming_deliveries: after.incoming_deliveries,
                ..session
            })
        }),
{
    lemma_rounds_leave_the_rest(
        session,
        disposition.role,
        taken_up(session, disposition),
        disposition.settled,
        disposition.state,
    );
}

/// An answer settles as the sender, tells the state that it answers, and cannot wait.
pub proof fn law_answers_settle(
    ids: Seq<DeliveryNumber>,
    state: Option<DeliveryState>,
    run: int,
)
    requires
        0 <= run < session_dispositions::answers(ids, state).len(),
    ensures
        ({
            let answer = session_dispositions::answers(ids, state)[run];
            &&& answer.settled
            &&& answer.role is Sender
            &&& answer.state == state
            &&& answer.last is Some
            &&& !answer.batchable
        }),
{
}

} // verus!
