//! How a session takes the dispositions of its peer: whom they concern, and which are answered.

use std::collections::HashMap;

use vstd::prelude::*;

use crate::chunks;
use crate::definitions::{share_state, DeliveryNumber, DeliveryState, InputHandle, Role};
use crate::errors::SessionInnerError;
use crate::performatives::Disposition;
use crate::relay::{self, Settled};
use crate::session::{self, consecutive_chunk_indices, Session, SessionView, TagByLink};

verus! {

/// How far a number lies after the first of an interval. Numbers wrap.
pub open spec fn distance_from(first: DeliveryNumber, id: DeliveryNumber) -> nat {
    ((id - first) % 0x1_0000_0000) as nat
}

/// How far a number lies after the first of an interval.
fn distance(first: DeliveryNumber, id: DeliveryNumber) -> (distance: u32)
    ensures
        distance == distance_from(first, id),
{
    id.wrapping_sub(first)
}

/// The known numbers among the `count` that begin with `first`, in this order. Numbers wrap.
pub open spec fn live_ids(known: Set<DeliveryNumber>, first: DeliveryNumber, count: nat) -> Seq<
    DeliveryNumber,
>
    decreases count,
{
    if count == 0 {
        seq![]
    } else {
        let before = live_ids(known, first, (count - 1) as nat);
        let id = ((first + count - 1) % 0x1_0000_0000) as u32;
        if known.contains(id) {
            before.push(id)
        } else {
            before
        }
    }
}

/// The deliveries that a peer of this role speaks of.
pub open spec fn deliveries_named(session: SessionView, role: Role) -> Map<
    DeliveryNumber,
    (InputHandle, Seq<u8>),
> {
    match role {
        Role::Sender => session.incoming_deliveries,
        Role::Receiver => session.outgoing_deliveries,
    }
}

/// A session with other deliveries that a peer of this role speaks of.
pub open spec fn with_deliveries(
    session: SessionView,
    role: Role,
    deliveries: Map<DeliveryNumber, (InputHandle, Seq<u8>)>,
) -> SessionView {
    match role {
        Role::Sender => SessionView { incoming_deliveries: deliveries, ..session },
        Role::Receiver => SessionView { outgoing_deliveries: deliveries, ..session },
    }
}

/// How many numbers a disposition speaks of.
pub open spec fn interval_length(disposition: Disposition) -> nat {
    match disposition.last {
        None => 1,
        Some(last) => distance_from(disposition.first, last) + 1,
    }
}

/// What taking a disposition down for some deliveries leads to.
pub struct Round {
    /// The session then.
    pub session: SessionView,
    /// The outcomes to be reported, in order.
    pub reported: Seq<Settled>,
    /// The deliveries that are to be answered, in order.
    pub echoed: Seq<DeliveryNumber>,
}

/// What taking a disposition down for one more delivery leads to. A settled delivery is forgotten
/// whether its link is still there or not.
pub open spec fn next_round(
    before: Round,
    role: Role,
    id: DeliveryNumber,
    settled: bool,
    state: Option<DeliveryState>,
) -> Round {
    let deliveries = deliveries_named(before.session, role);
    if deliveries.contains_key(id) {
        let (handle, tag) = deliveries[id];
        let kept = if settled {
            with_deliveries(before.session, role, deliveries.remove(id))
        } else {
            before.session
        };
        if kept.links.contains_key(handle.0) {
            let link = kept.links[handle.0];
            Round {
                session: SessionView {
                    links: kept.links.insert(handle.0, relay::disposed(link, settled, state, tag)),
                    ..kept
                },
                reported: match relay::outcome(link, settled, state, tag) {
                    None => before.reported,
                    Some(outcome) => before.reported.push(outcome),
                },
                echoed: if relay::echo_due(link, settled, state) {
                    before.echoed.push(id)
                } else {
                    before.echoed
                },
            }
        } else {
            Round { session: kept, ..before }
        }
    } else {
        before
    }
}

/// What taking a disposition down for deliveries, one after the other, leads to.
pub open spec fn rounds(
    session: SessionView,
    role: Role,
    ids: Seq<DeliveryNumber>,
    settled: bool,
    state: Option<DeliveryState>,
) -> Round
    decreases ids.len(),
{
    if ids.len() == 0 {
        Round { session, reported: seq![], echoed: seq![] }
    } else {
        next_round(
            rounds(session, role, ids.drop_last(), settled, state),
            role,
            ids.last(),
            settled,
            state,
        )
    }
}

/// What taking a disposition down leads to.
pub open spec fn disposition_taken(session: SessionView, disposition: Disposition) -> Round {
    rounds(
        session,
        disposition.role,
        live_ids(
            deliveries_named(session, disposition.role).dom(),
            disposition.first,
            interval_length(disposition),
        ),
        disposition.settled,
        disposition.state,
    )
}

/// Numbers in ascending order.
pub open spec fn ascending(ids: Seq<DeliveryNumber>) -> Seq<DeliveryNumber> {
    ids.sort_by(|one: DeliveryNumber, other: DeliveryNumber| one <= other)
}

/// The starts of the runs of consecutive numbers, the first aside.
pub open spec fn id_run_starts(ids: Seq<DeliveryNumber>) -> Seq<usize> {
    chunks::run_starts(
        ids,
        |left: DeliveryNumber, right: DeliveryNumber| chunks::follows(left, right),
        ids.len(),
    )
}

/// The answer to one run of numbers.
pub open spec fn answer(
    ids: Seq<DeliveryNumber>,
    run: int,
    state: Option<DeliveryState>,
) -> Disposition {
    let starts = id_run_starts(ids);
    Disposition {
        role: Role::Sender,
        first: ids[chunks::run_start(starts, run)],
        last: Some(ids[chunks::run_end(starts, ids.len(), run) - 1]),
        settled: true,
        state,
        batchable: false,
    }
}

/// How many runs of consecutive numbers there are.
pub open spec fn run_count(ids: Seq<DeliveryNumber>) -> nat {
    if ids.len() == 0 {
        0
    } else {
        id_run_starts(ids).len() + 1
    }
}

/// The answers to runs of numbers: one for each run, in order.
pub open spec fn answers(ids: Seq<DeliveryNumber>, state: Option<DeliveryState>) -> Seq<
    Disposition,
> {
    Seq::new(run_count(ids), |run: int| answer(ids, run, state))
}

/// What a session does about a disposition.
#[derive(Debug)]
pub struct DispositionReply {
    /// The dispositions that answer one that does not settle.
    pub dispositions: Option<Vec<Disposition>>,
    /// The outcomes to be reported.
    pub settled: Vec<Settled>,
}

/// Sorts numbers by distance with `slice::sort_unstable_by_key`, which documents its result as the
/// same numbers, sorted by the key.
#[verifier::external_body]
fn sort_by_distance(ids: &mut Vec<DeliveryNumber>, first: DeliveryNumber)
    ensures
        final(ids)@.to_multiset() == old(ids)@.to_multiset(),
        forall|i: int, j: int|
            0 <= i < j < final(ids)@.len() ==> distance_from(first, #[trigger] final(ids)@[i])
                <= distance_from(first, #[trigger] final(ids)@[j]),
{
    ids.sort_unstable_by_key(|id| distance(first, *id));
}

/// Sorts numbers with `slice::sort_unstable`, which documents its result as the same numbers in
/// ascending order.
#[verifier::external_body]
fn sort_ascending(ids: &mut Vec<DeliveryNumber>)
    ensures
        final(ids)@.to_multiset() == old(ids)@.to_multiset(),
        forall|i: int, j: int|
            0 <= i < j < final(ids)@.len() ==> #[trigger] final(ids)@[i] <= #[trigger] final(
                ids)@[j],
{
    ids.sort_unstable();
}

proof fn lemma_distance(first: DeliveryNumber, id: DeliveryNumber, steps: nat)
    requires
        steps < 0x1_0000_0000,
    ensures
        distance_from(first, ((first + steps) % 0x1_0000_0000) as u32) == steps,
        distance_from(first, id) < 0x1_0000_0000,
        ((first + distance_from(first, id)) % 0x1_0000_0000) as u32 == id,
{
}

/// What live numbers are: all that are known and lie in the interval, each once, in the order of
/// their distance.
pub proof fn lemma_live_ids(known: Set<DeliveryNumber>, first: DeliveryNumber, count: nat)
    requires
        count <= 0x1_0000_0000,
    ensures
        ({
            let ids = live_ids(known, first, count);
            &&& forall|id: DeliveryNumber| #[trigger]
                ids.contains(id) <==> known.contains(id) && distance_from(first, id) < count
            &&& forall|i: int, j: int|
                0 <= i < j < ids.len() ==> distance_from(first, #[trigger] ids[i]) < distance_from(
                    first,
                    #[trigger] ids[j],
                )
        }),
    decreases count,
{
    if count > 0 {
        let before = live_ids(known, first, (count - 1) as nat);
        let ids = live_ids(known, first, count);
        let last = ((first + count - 1) % 0x1_0000_0000) as u32;
        lemma_live_ids(known, first, (count - 1) as nat);
        lemma_distance(first, last, (count - 1) as nat);
        assert forall|id: DeliveryNumber| #[trigger]
            ids.contains(id) <==> known.contains(id) && distance_from(first, id) < count by {
            lemma_distance(first, id, (count - 1) as nat);
            if ids.contains(id) {
                let i = choose|i: int| 0 <= i < ids.len() && ids[i] == id;
                if i < before.len() {
                    assert(before[i] == id);
                    assert(before.contains(id));
                }
            }
            if known.contains(id) && distance_from(first, id) < count {
                if distance_from(first, id) < count - 1 {
                    assert(before.contains(id));
                    let i = choose|i: int| 0 <= i < before.len() && before[i] == id;
                    assert(ids[i] == id);
                } else {
                    assert(id == last);
                    assert(ids[ids.len() - 1] == id);
                }
            }
        }
        assert forall|i: int, j: int| 0 <= i < j < ids.len() implies distance_from(
            first,
            #[trigger] ids[i],
        ) < distance_from(first, #[trigger] ids[j]) by {
            if j == before.len() {
                assert(before[i] == ids[i]);
                assert(before.contains(ids[i]));
            } else {
                assert(before[i] == ids[i] && before[j] == ids[j]);
            }
        }
    } else {
        assert forall|id: DeliveryNumber| !(#[trigger] live_ids(known, first, count).contains(
            id,
        )) by {}
    }
}

proof fn lemma_same_multiset(one: Seq<DeliveryNumber>, other: Seq<DeliveryNumber>)
    requires
        one.no_duplicates(),
        other.no_duplicates(),
        forall|id: DeliveryNumber| one.contains(id) <==> other.contains(id),
    ensures
        one.to_multiset() == other.to_multiset(),
{
    broadcast use vstd::seq_lib::group_to_multiset_ensures;

    one.lemma_multiset_has_no_duplicates();
    other.lemma_multiset_has_no_duplicates();
    assert forall|id: DeliveryNumber| one.to_multiset().count(id) == other.to_multiset().count(
        id,
    ) by {
        assert(one.contains(id) <==> one.to_multiset().contains(id));
        assert(other.contains(id) <==> other.to_multiset().contains(id));
    }
    assert(one.to_multiset() =~= other.to_multiset());
}

/// Numbers that were sorted by distance are the live ones.
proof fn lemma_sorted_are_live(
    sorted: Seq<DeliveryNumber>,
    found: Seq<DeliveryNumber>,
    known: Set<DeliveryNumber>,
    first: DeliveryNumber,
    count: nat,
)
    requires
        count <= 0x1_0000_0000,
        found.no_duplicates(),
        forall|id: DeliveryNumber| #[trigger]
            found.contains(id) <==> known.contains(id) && distance_from(first, id) < count,
        sorted.to_multiset() == found.to_multiset(),
        forall|i: int, j: int|
            0 <= i < j < sorted.len() ==> distance_from(first, #[trigger] sorted[i])
                <= distance_from(first, #[trigger] sorted[j]),
    ensures
        sorted == live_ids(known, first, count),
{
    let live = live_ids(known, first, count);
    let leq = |one: DeliveryNumber, other: DeliveryNumber|
        distance_from(first, one) <= distance_from(first, other);
    lemma_live_ids(known, first, count);
    assert(live.no_duplicates());
    lemma_same_multiset(found, live);
    assert forall|one: DeliveryNumber, other: DeliveryNumber| #[trigger]
        leq(one, other) && #[trigger] leq(other, one) implies one == other by {
        lemma_distance(first, one, 0);
        lemma_distance(first, other, 0);
    }
    assert(vstd::relations::total_ordering(leq));
    assert(vstd::relations::sorted_by(sorted, leq));
    assert(vstd::relations::sorted_by(live, leq));
    vstd::seq_lib::lemma_sorted_unique(sorted, live, leq);
}

/// The known numbers that lie in an interval, in the order of their distance.
fn matching_ids(
    deliveries: &HashMap<u32, TagByLink>,
    first: DeliveryNumber,
    width: u32,
) -> (ids: Vec<DeliveryNumber>)
    ensures
        ids@ == live_ids(deliveries@.dom(), first, (width + 1) as nat),
{
    broadcast use vstd::std_specs::hash::group_hash_axioms;

    let ghost known = deliveries@.dom();
    let mut ids: Vec<DeliveryNumber> = Vec::new();
    let keys = deliveries.keys();
    let ghost all = vstd::std_specs::iter::IteratorSpec::remaining(&keys);
    for key in iter: keys
        invariant
            iter.seq() == all,
            ids@.no_duplicates(),
            all.no_duplicates(),
            forall|id: DeliveryNumber| #[trigger]
                ids@.contains(id) <==> distance_from(first, id) <= width && exists|i: int|
                    0 <= i < iter.index() && *(#[trigger] all[i]) == id,
    {
        let ghost before = ids@;
        let ghost at = iter.index();
        assert(*all[at] == *key);
        assert(!before.contains(*key)) by {
            if before.contains(*key) {
                let i = choose|i: int| 0 <= i < at && *(#[trigger] all[i]) == *key;
                assert(all[i] == all[at]);
            }
        }
        if distance(first, *key) <= width {
            ids.push(*key);
            assert forall|id: DeliveryNumber| #[trigger]
                ids@.contains(id) <==> (before.contains(id) || id == *key) by {
                if before.contains(id) {
                    let k = choose|k: int| 0 <= k < before.len() && before[k] == id;
                    assert(ids@[k] == id);
                }
                assert(ids@[before.len() as int] == *key);
            }
        }
        assert forall|id: DeliveryNumber| #[trigger]
            ids@.contains(id) <==> distance_from(first, id) <= width && exists|i: int|
                0 <= i < at + 1 && *(#[trigger] all[i]) == id by {
            if before.contains(id) {
                let i = choose|i: int| 0 <= i < at && *(#[trigger] all[i]) == id;
                assert(*all[i] == id);
            }
        }
    }
    let ghost found = ids@;
    assert forall|id: DeliveryNumber| #[trigger]
        found.contains(id) <==> known.contains(id) && distance_from(first, id) < width + 1 by {
        let plain = all.unref();
        assert(plain.to_set() == known);
        if known.contains(id) {
            assert(plain.contains(id));
            let i = choose|i: int| 0 <= i < plain.len() && plain[i] == id;
            assert(*all[i] == id);
        }
        if found.contains(id) {
            let i = choose|i: int| 0 <= i < all.len() && *(#[trigger] all[i]) == id;
            assert(plain[i] == id);
            assert(plain.to_set().contains(id));
        }
    }
    sort_by_distance(&mut ids, first);
    proof {
        lemma_sorted_are_live(ids@, found, known, first, (width + 1) as nat);
    }
    ids
}

/// Numbers that were sorted are those in ascending order.
proof fn lemma_sorted_are_ascending(sorted: Seq<DeliveryNumber>, ids: Seq<DeliveryNumber>)
    requires
        sorted.to_multiset() == ids.to_multiset(),
        forall|i: int, j: int|
            0 <= i < j < sorted.len() ==> #[trigger] sorted[i] <= #[trigger] sorted[j],
    ensures
        sorted == ascending(ids),
{
    let leq = |one: DeliveryNumber, other: DeliveryNumber| one <= other;
    assert(vstd::relations::total_ordering(leq));
    assert(vstd::relations::sorted_by(sorted, leq));
    ids.lemma_sort_by_ensures(leq);
    vstd::seq_lib::lemma_sorted_unique(sorted, ids.sort_by(leq), leq);
}

/// The answers to runs of numbers.
fn answer_runs(ids: &Vec<DeliveryNumber>, state: &Option<DeliveryState>) -> (dispositions: Vec<
    Disposition,
>)
    ensures
        dispositions@ == answers(ids@, *state),
{
    if ids.len() == 0 {
        let none: Vec<Disposition> = Vec::new();
        assert(none@ =~= answers(ids@, *state));
        return none;
    }
    let starts = consecutive_chunk_indices(ids.as_slice());
    let ghost joined = |left: DeliveryNumber, right: DeliveryNumber| chunks::follows(left, right);
    proof {
        assert(ids@.len() == ids.len());
        chunks::lemma_run_starts(ids@, joined, ids@.len());
    }
    let mut dispositions: Vec<Disposition> = Vec::new();
    let mut i: usize = 0;
    let mut previous: usize = 0;
    while i < starts.len()
        invariant
            i <= starts@.len(),
            starts@ == id_run_starts(ids@),
            dispositions@.len() == i,
            previous == chunks::run_start(starts@, i as int),
            previous < ids@.len(),
            i < starts@.len() ==> previous < starts@[i as int],
            forall|k: int| 0 <= k < starts@.len() ==> 1 <= #[trigger] starts@[k] < ids@.len(),
            forall|k: int, l: int|
                0 <= k < l < starts@.len() ==> #[trigger] starts@[k] < #[trigger] starts@[l],
            forall|run: int|
                0 <= run < i ==> #[trigger] dispositions@[run] == answer(ids@, run, *state),
        decreases starts@.len() - i,
    {
        let next = starts[i];
        dispositions.push(
            Disposition {
                role: Role::Sender,
                first: ids[previous],
                last: Some(ids[next - 1]),
                settled: true,
                state: share_state(state),
                batchable: false,
            },
        );
        previous = next;
        i += 1;
    }
    dispositions.push(
        Disposition {
            role: Role::Sender,
            first: ids[previous],
            last: Some(ids[ids.len() - 1]),
            settled: true,
            state: share_state(state),
            batchable: false,
        },
    );
    assert(dispositions@ =~= answers(ids@, *state));
    dispositions
}

impl Session {
    /// Takes a disposition down for one delivery.
    fn dispose_delivery(
        &mut self,
        role: Role,
        id: DeliveryNumber,
        settled: bool,
        state: &Option<DeliveryState>,
        reported: &mut Vec<Settled>,
        echoed: &mut Vec<DeliveryNumber>,
    )
        ensures
            ({
                let after = next_round(
                    Round {
                        session: old(self)@,
                        reported: old(reported)@,
                        echoed: old(echoed)@,
                    },
                    role,
                    id,
                    settled,
                    *state,
                );
                &&& final(self)@ == after.session
                &&& final(reported)@ == after.reported
                &&& final(echoed)@ == after.echoed
            }),
    {
        broadcast use vstd::std_specs::hash::group_hash_axioms;

        let ghost start = self@;
        let ghost outgoing = self.outgoing_deliveries@;
        let ghost incoming = self.incoming_deliveries@;
        let found = match (role, settled) {
            (Role::Sender, true) => self.incoming_deliveries.remove(&id),
            (Role::Receiver, true) => self.outgoing_deliveries.remove(&id),
            (Role::Sender, false) => match self.incoming_deliveries.get(&id) {
                None => None,
                Some(delivery) => Some((delivery.0, delivery.1.clone())),
            },
            (Role::Receiver, false) => match self.outgoing_deliveries.get(&id) {
                None => None,
                Some(delivery) => Some((delivery.0, delivery.1.clone())),
            },
        };
        let (handle, tag) = match found {
            None => {
                assert(self@.outgoing_deliveries =~= start.outgoing_deliveries);
                assert(self@.incoming_deliveries =~= start.incoming_deliveries);
                return;
            },
            Some(delivery) => delivery,
        };
        proof {
            session::lemma_delivery_views(outgoing, id, (handle, tag));
            session::lemma_delivery_views(incoming, id, (handle, tag));
            assert(deliveries_named(start, role)[id] == (handle, tag@));
        }
        let ghost kept = self@;
        assert(kept == (if settled {
            with_deliveries(start, role, deliveries_named(start, role).remove(id))
        } else {
            start
        }));
        let ghost links = self.link_by_input_handle@;
        let mut link = match self.link_by_input_handle.remove(&handle.0) {
            None => {
                assert(self@.links =~= kept.links);
                return;
            },
            Some(link) => link,
        };
        let disposed = link.on_incoming_disposition(role, settled, share_state(state), tag);
        proof {
            session::lemma_relay_views(links, handle.0, link);
            assert(links.remove(handle.0).insert(handle.0, link) =~= links.insert(handle.0, link));
        }
        self.link_by_input_handle.insert(handle.0, link);
        if let Some(outcome) = disposed.settled {
            reported.push(outcome);
        }
        if disposed.echo {
            echoed.push(id);
        }
    }

    /// Takes a disposition of the peer down.
    ///
    /// The peer chooses a serial-number interval, not a loop bound: work is proportional to the
    /// deliveries that are actually unsettled, across wraparound too. Where a receiver that settles
    /// second tells an outcome, an answer is due to the delivery. The deliveries to be answered
    /// fall into runs of consecutive numbers, which never span the wraparound, and each run gets
    /// one answer.
    pub fn on_incoming_disposition(&mut self, disposition: Disposition) -> (result: Result<
        DispositionReply,
        SessionInnerError,
    >)
        ensures
            ({
                let taken = disposition_taken(old(self)@, disposition);
                &&& final(self)@ == taken.session
                &&& result matches Ok(reply)
                &&& reply.settled@ == taken.reported
                &&& if disposition.settled {
                    reply.dispositions is None
                } else {
                    &&& reply.dispositions matches Some(dispositions)
                    &&& dispositions@ == answers(ascending(taken.echoed), disposition.state)
                }
            }),
    {
        let first = disposition.first;
        let last = match disposition.last {
            None => first,
            Some(last) => last,
        };
        let width = distance(first, last);
        let ids = match disposition.role {
            Role::Sender => matching_ids(&self.incoming_deliveries, first, width),
            Role::Receiver => matching_ids(&self.outgoing_deliveries, first, width),
        };
        let ghost start = self@;
        proof {
            assert(self.incoming_deliveries@.dom() =~= start.incoming_deliveries.dom());
            assert(self.outgoing_deliveries@.dom() =~= start.outgoing_deliveries.dom());
            assert(interval_length(disposition) == width + 1);
        }
        let mut reported: Vec<Settled> = Vec::new();
        let mut echoed: Vec<DeliveryNumber> = Vec::new();
        let mut i: usize = 0;
        while i < ids.len()
            invariant
                i <= ids@.len(),
                ({
                    let round = rounds(
                        start,
                        disposition.role,
                        ids@.take(i as int),
                        disposition.settled,
                        disposition.state,
                    );
                    &&& self@ == round.session
                    &&& reported@ == round.reported
                    &&& echoed@ == round.echoed
                }),
            decreases ids@.len() - i,
        {
            self.dispose_delivery(
                disposition.role,
                ids[i],
                disposition.settled,
                &disposition.state,
                &mut reported,
                &mut echoed,
            );
            i += 1;
            assert(ids@.take(i as int).drop_last() =~= ids@.take(i - 1));
        }
        assert(ids@.take(i as int) =~= ids@);
        if disposition.settled {
            return Ok(DispositionReply { dispositions: None, settled: reported });
        }
        let ghost unordered = echoed@;
        sort_ascending(&mut echoed);
        proof {
            lemma_sorted_are_ascending(echoed@, unordered);
        }
        let dispositions = answer_runs(&echoed, &disposition.state);
        Ok(DispositionReply { dispositions: Some(dispositions), settled: reported })
    }
}

} // verus!
