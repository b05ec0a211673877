//! What holds of the receiving end of a link, whatever comes in.

use vstd::prelude::*;

use crate::chunks;
use crate::codec;
use crate::definitions::{self, DeliveryState, Handle, OutputHandle, Received, ReceiverSettleMode};
use crate::flow_state::LinkFlowState;
use crate::link::{Link, LinkState};
use crate::ordered_map;
use crate::performatives::Transfer;
use crate::receiver_delivery::{DeliveryInfo, ReceiverDelivery};
use crate::receiver_link::{self, Admitted, Entries, ReceiverLink};
use crate::unsettled_store::{self, StoreView};

verus! {

/// A message that is decoded late never brings its delivery back: what was settled before the
/// application read it stays settled, and no other delivery is touched.
pub proof fn law_decoding_recreates_nothing(
    store: StoreView<ReceiverDelivery>,
    admitted: Admitted,
    section_number: u32,
    section_offset: u64,
    decoded: bool,
    tag: Seq<u8>,
)
    requires
        unsettled_store::distinct(store.entries),
    ensures
        ({
            let after = receiver_link::store_after_receipt(
                store,
                admitted,
                section_number,
                section_offset,
                decoded,
            );
            &&& unsettled_store::distinct(after.entries)
            &&& unsettled_store::holds(after.entries, tag) == unsettled_store::holds(
                store.entries,
                tag,
            )
            &&& tag != admitted.delivery_tag@ ==> unsettled_store::held(after.entries, tag)
                == unsettled_store::held(store.entries, tag)
        }),
{
    if !admitted.settled {
        if let Some(delivery) = unsettled_store::held(store.entries, admitted.delivery_tag@) {
            unsettled_store::law_changed(
                store.entries,
                admitted.delivery_tag@,
                ReceiverDelivery {
                    info: Some(receiver_link::info_of(admitted)),
                    ..delivery.after_received(
                        DeliveryState::Received(Received { section_number, section_offset }),
                        decoded,
                    )
                },
                tag,
            );
        }
    }
}

/// Progress on one delivery touches no other and adds none.
pub proof fn law_progress_is_local(
    entries: Entries,
    tag: Seq<u8>,
    section_number: u32,
    section_offset: u64,
    other: Seq<u8>,
)
    requires
        unsettled_store::distinct(entries),
    ensures
        ({
            let after = receiver_link::with_progress(entries, tag, section_number, section_offset);
            &&& unsettled_store::distinct(after)
            &&& unsettled_store::holds(after, other) == unsettled_store::holds(entries, other)
            &&& other != tag ==> unsettled_store::held(after, other) == unsettled_store::held(
                entries,
                other,
            )
        }),
{
    if let Some(delivery) = unsettled_store::held(entries, tag) {
        unsettled_store::law_changed(
            entries,
            tag,
            delivery.after_received(
                DeliveryState::Received(Received { section_number, section_offset }),
                false,
            ),
            other,
        );
    }
}

/// A delivery that is disposed of settled is gone; one that is not keeps its place with the state
/// that it was given, unless it had an outcome before. Other deliveries stay as they are.
pub proof fn law_disposal_is_local(
    entries: Entries,
    tag: Seq<u8>,
    settled: bool,
    state: DeliveryState,
    other: Seq<u8>,
)
    requires
        unsettled_store::distinct(entries),
    ensures
        ({
            let after = receiver_link::with_disposal(entries, tag, settled, state);
            &&& unsettled_store::distinct(after)
            &&& unsettled_store::held(after, other) == (if other != tag {
                unsettled_store::held(entries, other)
            } else if settled {
                None
            } else {
                match unsettled_store::held(entries, tag) {
                    None => None,
                    Some(delivery) => Some(delivery.after_local_state(state)),
                }
            })
        }),
{
    if settled {
        unsettled_store::law_without(entries, tag, other);
    } else if let Some(delivery) = unsettled_store::held(entries, tag) {
        unsettled_store::law_changed(entries, tag, delivery.after_local_state(state), other);
    }
}

/// Whether one of the deliveries has a tag.
pub open spec fn names(infos: Seq<DeliveryInfo>, tag: Seq<u8>) -> bool {
    exists|i: int| 0 <= i < infos.len() && (#[trigger] infos[i]).delivery_tag@ == tag
}

/// What becomes of a delivery that is disposed of together with others does not depend on the
/// others: it is gone if settled, and else has the state it was given, unless it had an outcome
/// before. Deliveries that are not among them stay as they are.
pub proof fn law_disposals_reach_every_delivery(
    entries: Entries,
    infos: Seq<DeliveryInfo>,
    settled: bool,
    state: DeliveryState,
    tag: Seq<u8>,
)
    requires
        unsettled_store::distinct(entries),
    ensures
        unsettled_store::held(
            receiver_link::with_disposals(entries, infos, settled, state),
            tag,
        ) == (if !names(infos, tag) {
            unsettled_store::held(entries, tag)
        } else if settled {
            None
        } else {
            match unsettled_store::held(entries, tag) {
                None => None,
                Some(delivery) => Some(delivery.after_local_state(state)),
            }
        }),
    decreases infos.len(),
{
    if infos.len() > 0 {
        let rest = infos.drop_last();
        let last = infos.last().delivery_tag@;
        law_disposals_reach_every_delivery(entries, rest, settled, state, tag);
        lemma_disposals_distinct(entries, rest, settled, state);
        law_disposal_is_local(
            receiver_link::with_disposals(entries, rest, settled, state),
            last,
            settled,
            state,
            tag,
        );
        assert(names(infos, tag) == (names(rest, tag) || last == tag)) by {
            assert(infos[infos.len() - 1].delivery_tag@ == last);
            if names(rest, tag) {
                let i = choose|i: int|
                    0 <= i < rest.len() && (#[trigger] rest[i]).delivery_tag@ == tag;
                assert(infos[i] == rest[i]);
            }
            if names(infos, tag) && last != tag {
                let i = choose|i: int|
                    0 <= i < infos.len() && (#[trigger] infos[i]).delivery_tag@ == tag;
                assert(rest[i] == infos[i]);
            }
        }
    }
}

proof fn lemma_disposals_distinct(
    entries: Entries,
    infos: Seq<DeliveryInfo>,
    settled: bool,
    state: DeliveryState,
)
    requires
        unsettled_store::distinct(entries),
    ensures
        unsettled_store::distinct(
            receiver_link::with_disposals(entries, infos, settled, state),
        ),
    decreases infos.len(),
{
    if infos.len() > 0 {
        lemma_disposals_distinct(entries, infos.drop_last(), settled, state);
        law_disposal_is_local(
            receiver_link::with_disposals(entries, infos.drop_last(), settled, state),
            infos.last().delivery_tag@,
            settled,
            state,
            infos.last().delivery_tag@,
        );
    }
}

/// Credit is used for whole messages, one each: what the sender may still send, counted from its
/// first delivery, does not change by a message that was sent.
pub proof fn law_credit_limit_is_kept(flow: LinkFlowState)
    requires
        flow.link_credit >= 1,
    ensures
        flow.consumed(1).link_credit == flow.link_credit - 1,
        (flow.consumed(1).delivery_count + flow.consumed(1).link_credit) % 0x1_0000_0000 == (
        flow.delivery_count + flow.link_credit) % 0x1_0000_0000,
{
}

proof fn lemma_reconciled(
    local: Seq<(Seq<u8>, ReceiverDelivery)>,
    remote: Option<Seq<(Seq<u8>, Option<DeliveryState>)>>,
    remote_incomplete: bool,
)
    requires
        ordered_map::unique(local),
    ensures
        ({
            let after = receiver_link::reconciled(local, remote, remote_incomplete);
            &&& ordered_map::unique(after)
            &&& forall|i: int|
                0 <= i < after.len() ==> exists|j: int|
                    0 <= j < local.len() && (#[trigger] after[i]).0 == (#[trigger] local[j]).0
            &&& forall|tag: Seq<u8>| #[trigger]
                ordered_map::value_of(after, tag) == (match ordered_map::value_of(local, tag) {
                    None => None,
                    Some(delivery) => match unsettled_store::held(remote, tag) {
                        Some(state) => Some(delivery.after_remote_state(state)),
                        None => if remote_incomplete {
                            Some(delivery)
                        } else {
                            None
                        },
                    },
                })
        }),
    decreases local.len(),
{
    if local.len() > 0 {
        let rest = local.drop_last();
        let (last, delivery) = local.last();
        lemma_reconciled(rest, remote, remote_incomplete);
        let before = receiver_link::reconciled(rest, remote, remote_incomplete);
        let after = receiver_link::reconciled(local, remote, remote_incomplete);
        assert forall|i: int| 0 <= i < before.len() implies (#[trigger] before[i]).0 != last by {
            let j = choose|j: int| 0 <= j < rest.len() && before[i].0 == (#[trigger] rest[j]).0;
            assert(local[j].0 == rest[j].0);
            assert(local[local.len() - 1].0 == last);
        }
        assert forall|i: int| 0 <= i < after.len() implies exists|j: int|
            0 <= j < local.len() && (#[trigger] after[i]).0 == (#[trigger] local[j]).0 by {
            if i < before.len() {
                let j = choose|j: int| 0 <= j < rest.len() && before[i].0 == (#[trigger] rest[j]).0;
                assert(after[i] == before[i]);
                assert(local[j].0 == rest[j].0);
            } else {
                assert(local[local.len() - 1].0 == last);
            }
        }
        assert forall|tag: Seq<u8>| #[trigger] ordered_map::value_of(after, tag) == (
        match ordered_map::value_of(local, tag) {
            None => None,
            Some(delivery) => match unsettled_store::held(remote, tag) {
                Some(state) => Some(delivery.after_remote_state(state)),
                None => if remote_incomplete {
                    Some(delivery)
                } else {
                    None
                },
            },
        }) by {
            lemma_last(local, tag);
            if after.len() > before.len() {
                lemma_last(after, tag);
                assert(after.drop_last() =~= before);
            }
            ordered_map::lemma_find(before, tag);
            ordered_map::lemma_find(rest, tag);
            assert(ordered_map::value_of(before, tag) is Some ==> ordered_map::value_of(rest, tag)
                is Some);
        }
    } else {
        let after = receiver_link::reconciled(local, remote, remote_incomplete);
        assert forall|tag: Seq<u8>| #[trigger]
            ordered_map::value_of(after, tag) is None && ordered_map::value_of(
            local,
            tag,
        ) is None by {
            ordered_map::lemma_find(after, tag);
            ordered_map::lemma_find(local, tag);
        }
    }
}

proof fn lemma_last<V>(entries: Seq<(Seq<u8>, V)>, tag: Seq<u8>)
    requires
        entries.len() > 0,
        ordered_map::unique(entries),
    ensures
        ordered_map::unique(entries.drop_last()),
        ordered_map::value_of(entries, tag) == (if entries.last().0 == tag {
            Some(entries.last().1)
        } else {
            ordered_map::value_of(entries.drop_last(), tag)
        }),
{
    let rest = entries.drop_last();
    assert forall|i: int, j: int| 0 <= i < j < rest.len() implies (#[trigger] rest[i]).0 != (
    #[trigger] rest[j]).0 by {
        assert(entries[i].0 != entries[j].0);
    }
    ordered_map::lemma_find(rest, tag);
    ordered_map::lemma_find(entries, tag);
    if entries.last().0 == tag {
        if let Some(i) = ordered_map::find(rest, tag) {
            assert(entries[i as int].0 != entries[entries.len() - 1].0);
        }
    }
}

/// Recovery settles only what a complete map of the peer does not know, adds nothing that is
/// unknown here, and takes the peer's states down.
pub proof fn law_recovery_reconciles_complete_maps_only(
    local: Seq<(Seq<u8>, ReceiverDelivery)>,
    remote: Option<Seq<(Seq<u8>, Option<DeliveryState>)>>,
    remote_incomplete: bool,
    tag: Seq<u8>,
)
    requires
        ordered_map::unique(local),
    ensures
        ({
            let after = receiver_link::reconciled(local, remote, remote_incomplete);
            &&& ordered_map::unique(after)
            &&& ordered_map::has(after, tag) == (ordered_map::has(local, tag) && (remote_incomplete
                || unsettled_store::holds(remote, tag)))
        }),
{
    lemma_reconciled(local, remote, remote_incomplete);
    let after = receiver_link::reconciled(local, remote, remote_incomplete);
    assert(ordered_map::value_of(after, tag) is Some == ordered_map::has(after, tag));
}

/// Recovery preserves local progress: what was received here, and the outcome that it was given,
/// stay as they are.
pub proof fn law_recovery_preserves_local_progress(
    local: Seq<(Seq<u8>, ReceiverDelivery)>,
    remote: Option<Seq<(Seq<u8>, Option<DeliveryState>)>>,
    remote_incomplete: bool,
    tag: Seq<u8>,
)
    requires
        ordered_map::unique(local),
        ordered_map::has(receiver_link::reconciled(local, remote, remote_incomplete), tag),
    ensures
        ({
            let before = ordered_map::value_of(local, tag)->0;
            let after = ordered_map::value_of(
                receiver_link::reconciled(local, remote, remote_incomplete),
                tag,
            )->0;
            &&& ordered_map::has(local, tag)
            &&& after.local == before.local
            &&& after.received == before.received
            &&& after.info == before.info
        }),
{
    lemma_reconciled(local, remote, remote_incomplete);
    let reconciled = receiver_link::reconciled(local, remote, remote_incomplete);
    assert(ordered_map::value_of(reconciled, tag) is Some);
}

/// Every delivery of a run can be spoken of by one disposition: numbers go up by one, and all are
/// settled alike.
pub proof fn law_runs_are_consecutive(infos: Seq<DeliveryInfo>, run: int, at: int)
    requires
        infos.len() <= usize::MAX,
        ({
            let starts = chunks::run_starts(
                infos,
                |left: DeliveryInfo, right: DeliveryInfo| chunks::joins(left, right),
                infos.len(),
            );
            &&& 0 <= run <= starts.len()
            &&& chunks::run_start(starts, run) < at < chunks::run_end(
                starts,
                infos.len(),
                run,
            )
        }),
    ensures
        chunks::joins(infos[at - 1], infos[at]),
{
    let joined = |left: DeliveryInfo, right: DeliveryInfo| chunks::joins(left, right);
    let starts = chunks::run_starts(infos, joined, infos.len());
    chunks::lemma_run_starts(infos, joined, infos.len());
    if !joined(infos[at - 1], infos[at]) {
        assert(starts.contains(at as usize));
        let k = choose|k: int| 0 <= k < starts.len() && starts[k] == at as usize;
        if k < run - 1 {
            assert(starts[k] < starts[run - 1]);
        } else if k > run {
            assert(starts[run] < starts[k]);
        }
    }
}

/// The states of a link in which an attach with an incomplete map of unsettled deliveries was sent
/// or came in.
pub open spec fn told_incompletely(state: LinkState) -> bool {
    ||| state is IncompleteAttachSent
    ||| state is IncompleteAttachReceived
    ||| state is IncompleteAttachExchanged
}

/// An exchange of attaches is incomplete exactly if either end told an incomplete map. Otherwise
/// it is complete exactly if the peer has nothing unsettled, and for every entry that the peer
/// tells, whatever its tag and its state, the link resumes.
pub proof fn law_exchanges_are_told_apart(
    state: LinkState,
    remote: Option<Seq<(Seq<u8>, Option<DeliveryState>)>>,
    remote_incomplete: bool,
)
    ensures
        ({
            let exchange = receiver_link::exchange_outcome(state, remote, remote_incomplete);
            let incomplete = remote_incomplete || told_incompletely(state);
            let nothing = forall|tag: Seq<u8>| !#[trigger] unsettled_store::holds(remote, tag);
            &&& exchange is IncompleteUnsettled <==> incomplete
            &&& exchange is Complete <==> !incomplete && nothing
            &&& exchange is Resume <==> !incomplete && !nothing
        }),
{
    if let Some(entries) = remote {
        if entries.len() > 0 {
            ordered_map::lemma_find(entries, entries[0].0);
            assert(unsettled_store::holds(remote, entries[0].0));
        } else {
            assert forall|tag: Seq<u8>| !#[trigger] unsettled_store::holds(remote, tag) by {
                ordered_map::lemma_find(entries, tag);
            }
        }
    }
}

/// One more entry in the map of the peer never makes an exchange complete, and an exchange with a
/// complete map is complete for no map but the empty one.
pub proof fn law_unsettled_entries_are_resumed(
    state: LinkState,
    entries: Seq<(Seq<u8>, Option<DeliveryState>)>,
    entry: (Seq<u8>, Option<DeliveryState>),
)
    requires
        !told_incompletely(state),
    ensures
        receiver_link::exchange_outcome(state, Some(entries.push(entry)), false) is Resume,
        receiver_link::exchange_outcome(state, Some(entries), false) is Complete <==> entries.len()
            == 0,
        receiver_link::exchange_outcome(state, None, false) is Complete,
{
}

/// What recovery leaves of a delivery: all that was known of it here, with the state that the peer
/// tells of it, unless the peer had told an outcome before.
pub proof fn law_recovery_takes_the_peers_states(
    local: Seq<(Seq<u8>, ReceiverDelivery)>,
    remote: Option<Seq<(Seq<u8>, Option<DeliveryState>)>>,
    remote_incomplete: bool,
    tag: Seq<u8>,
)
    requires
        ordered_map::unique(local),
    ensures
        ({
            let before = ordered_map::value_of(local, tag);
            let told = unsettled_store::held(remote, tag);
            let after = ordered_map::value_of(
                receiver_link::reconciled(local, remote, remote_incomplete),
                tag,
            );
            &&& after is Some <==> before is Some && (told is Some || remote_incomplete)
            &&& after is Some ==> {
                &&& after->0.local == before->0.local
                &&& after->0.received == before->0.received
                &&& after->0.info == before->0.info
                &&& after->0.remote == (if told is None || definitions::settled_outcome(
                    before->0.remote,
                ) {
                    before->0.remote
                } else {
                    told->0
                })
            }
        }),
{
    lemma_reconciled(local, remote, remote_incomplete);
}

/// Recovery with an incomplete map that tells nothing changes nothing, and recovery with a
/// complete one that tells nothing settles everything.
pub proof fn law_recovery_without_entries(local: Seq<(Seq<u8>, ReceiverDelivery)>)
    ensures
        receiver_link::reconciled(local, None, true) == local,
        receiver_link::reconciled(local, None, false).len() == 0,
    decreases local.len(),
{
    if local.len() > 0 {
        law_recovery_without_entries(local.drop_last());
        assert(local.drop_last().push(local.last()) =~= local);
    } else {
        assert(receiver_link::reconciled(local, None, true) =~= local);
    }
}

/// Progress is taken down as a received state, unless the delivery has an outcome here already. It
/// says neither that the delivery was received whole nor anything of the peer.
pub proof fn law_progress_is_taken_down(
    entries: Entries,
    tag: Seq<u8>,
    section_number: u32,
    section_offset: u64,
)
    requires
        unsettled_store::distinct(entries),
    ensures
        ({
            let before = unsettled_store::held(entries, tag);
            let after = unsettled_store::held(
                receiver_link::with_progress(entries, tag, section_number, section_offset),
                tag,
            );
            &&& after is Some == before is Some
            &&& after is Some ==> {
                &&& after->0.remote == before->0.remote
                &&& after->0.received == before->0.received
                &&& after->0.info == before->0.info
                &&& definitions::settled_outcome(before->0.local) ==> after->0.local
                    == before->0.local
                &&& !definitions::settled_outcome(before->0.local) ==> after->0.local == Some(
                    DeliveryState::Received(Received { section_number, section_offset }),
                )
            }
        }),
{
    if let Some(delivery) = unsettled_store::held(entries, tag) {
        unsettled_store::law_changed(
            entries,
            tag,
            delivery.after_received(
                DeliveryState::Received(Received { section_number, section_offset }),
                false,
            ),
            tag,
        );
    }
}

/// What the sender says of a delivery without sending any of it is taken down as its state, unless
/// it told an outcome before. Nothing else of the delivery changes, and no other delivery.
pub proof fn law_told_states_are_taken_down(
    entries: Entries,
    tag: Seq<u8>,
    state: Option<DeliveryState>,
    other: Seq<u8>,
)
    requires
        unsettled_store::distinct(entries),
    ensures
        ({
            let after = receiver_link::with_remote_state(entries, tag, state);
            let before = unsettled_store::held(entries, tag);
            let now = unsettled_store::held(after, tag);
            &&& unsettled_store::distinct(after)
            &&& other != tag ==> unsettled_store::held(after, other) == unsettled_store::held(
                entries,
                other,
            )
            &&& now is Some == before is Some
            &&& now is Some ==> {
                &&& now->0.local == before->0.local
                &&& now->0.received == before->0.received
                &&& now->0.info == before->0.info
                &&& definitions::settled_outcome(before->0.remote) ==> now->0.remote
                    == before->0.remote
                &&& !definitions::settled_outcome(before->0.remote) ==> now->0.remote == state
            }
        }),
{
    if let Some(delivery) = unsettled_store::held(entries, tag) {
        unsettled_store::law_changed(entries, tag, delivery.after_remote_state(state), tag);
        unsettled_store::law_changed(entries, tag, delivery.after_remote_state(state), other);
    }
}

/// A store that is opened holds what was written, and its observers see it.
pub proof fn law_opened_stores_are_observed(
    store: StoreView<ReceiverDelivery>,
    entries: Entries,
)
    ensures
        receiver_link::opened(store, entries).entries == entries,
        receiver_link::opened(store, entries).revision == unsettled_store::next_revision(
            store.revision,
        ),
        receiver_link::or_empty(None).len() == 0,
        entries is Some ==> receiver_link::or_empty(entries) == entries->0,
{
}

/// A message that was received whole is taken down exactly if its delivery is not settled: with
/// its number, its tag and its own mode, as received if it was decoded, and with its progress
/// unless it has an outcome already. If it is settled, nothing is taken down.
pub proof fn law_receipt_is_taken_down(
    store: StoreView<ReceiverDelivery>,
    admitted: Admitted,
    section_number: u32,
    section_offset: u64,
    decoded: bool,
)
    requires
        unsettled_store::distinct(store.entries),
    ensures
        ({
            let after = receiver_link::store_after_receipt(
                store,
                admitted,
                section_number,
                section_offset,
                decoded,
            );
            let tag = admitted.delivery_tag@;
            let before = unsettled_store::held(store.entries, tag);
            let now = unsettled_store::held(after.entries, tag);
            &&& admitted.settled ==> after == store
            &&& !admitted.settled ==> after.revision == unsettled_store::next_revision(
                store.revision,
            )
            &&& !admitted.settled && before is Some ==> {
                &&& now is Some
                &&& now->0.received == (before->0.received || decoded)
                &&& now->0.remote == before->0.remote
                &&& now->0.info is Some
                &&& now->0.info->0.delivery_id == admitted.delivery_id
                &&& now->0.info->0.delivery_tag == admitted.delivery_tag
                &&& now->0.info->0.rcv_settle_mode == admitted.mode
                &&& definitions::settled_outcome(before->0.local) ==> now->0.local
                    == before->0.local
                &&& !definitions::settled_outcome(before->0.local) ==> now->0.local == Some(
                    DeliveryState::Received(Received { section_number, section_offset }),
                )
            }
        }),
{
    let tag = admitted.delivery_tag@;
    if let Some(delivery) = unsettled_store::held(store.entries, tag) {
        unsettled_store::law_changed(
            store.entries,
            tag,
            ReceiverDelivery {
                info: Some(receiver_link::info_of(admitted)),
                ..delivery.after_received(
                    DeliveryState::Received(Received { section_number, section_offset }),
                    decoded,
                )
            },
            tag,
        );
    }
}

/// A message is admitted exactly if the link is attached or its own detach waits for the answer,
/// has credit, the delivery has a number and a tag, and does not ask for a later settlement than
/// the link allows while it is unsettled.
pub proof fn law_messages_are_admitted_exactly(
    link: ReceiverLink,
    transfer: Transfer,
    entries: Entries,
)
    ensures
        ({
            let unsettled = transfer.settled != Some(true) && transfer.delivery_tag is Some
                && unsettled_store::holds(entries, transfer.delivery_tag->0@);
            let open = link.local_state is Attached || link.local_state
                is IncompleteAttachExchanged || link.local_state is DetachSent;
            let credit = link.flow_state.link_credit > 0;
            let too_late = unsettled && link.rcv_settle_mode is First && transfer.rcv_settle_mode
                == Some(ReceiverSettleMode::Second);
            let admission = receiver_link::admission_of(link, transfer, entries);
            &&& admission is Ok <==> open && credit && transfer.delivery_id is Some
                && transfer.delivery_tag is Some && !too_late
            &&& !open ==> admission is Err && admission->Err_0 is IllegalState
            &&& open && !credit ==> admission is Err && admission->Err_0 is TransferLimitExceeded
            &&& open && credit && transfer.delivery_id is None ==> admission is Err
                && admission->Err_0 is DeliveryIdIsNone
            &&& open && credit && transfer.delivery_id is Some && transfer.delivery_tag is None
                ==> admission is Err && admission->Err_0 is DeliveryTagIsNone
            &&& open && credit && transfer.delivery_id is Some && too_late ==> admission is Err
                && admission->Err_0 is IllegalRcvSettleModeInTransfer
            &&& admission is Ok ==> {
                let admitted = admission->Ok_0;
                &&& Some(admitted.delivery_id) == transfer.delivery_id
                &&& Some(admitted.delivery_tag) == transfer.delivery_tag
                &&& admitted.message_format == transfer.message_format
                &&& admitted.settled == !unsettled
                &&& unsettled ==> admitted.mode == transfer.rcv_settle_mode
                &&& !unsettled ==> admitted.mode is None
            }
        }),
{
}

/// A message uses one credit of a link that may take it and has credit, whatever else is wrong
/// with it, and none of any other link. Nothing else of the link changes.
pub proof fn law_messages_use_credit(link: ReceiverLink)
    ensures
        ({
            let after = receiver_link::link_after_message(link);
            let open = link.local_state is Attached || link.local_state
                is IncompleteAttachExchanged || link.local_state is DetachSent;
            &&& open && link.flow_state.link_credit > 0 ==> {
                &&& after.flow_state.link_credit == link.flow_state.link_credit - 1
                &&& after.flow_state.delivery_count == (link.flow_state.delivery_count + 1)
                    % 0x1_0000_0000
            }
            &&& !(open && link.flow_state.link_credit > 0) ==> after == link
            &&& after == (Link {
                flow_state: LinkFlowState {
                    link_credit: after.flow_state.link_credit,
                    delivery_count: after.flow_state.delivery_count,
                    ..link.flow_state
                },
                ..link
            })
        }),
{
}

/// A decoded message is handed on with what its transfers said of it and the handle of its link;
/// one that could not be decoded is reported with what identifies its delivery.
pub proof fn law_messages_are_handed_on<T>(
    link: ReceiverLink,
    admitted: Admitted,
    decoded: Result<T, codec::Error>,
)
    ensures
        ({
            let result = receiver_link::delivered(link, admitted, decoded);
            &&& result is Ok <==> decoded is Ok && link.output_handle is Some
            &&& result is Ok ==> {
                let delivery = result->Ok_0;
                &&& delivery.message == decoded->Ok_0
                &&& Some(OutputHandle(delivery.link_output_handle.0)) == link.output_handle
                &&& delivery.delivery_id == admitted.delivery_id
                &&& delivery.delivery_tag == admitted.delivery_tag
                &&& delivery.message_format == admitted.message_format
                &&& delivery.rcv_settle_mode == admitted.mode
            }
            &&& decoded is Ok && link.output_handle is None ==> result->Err_0 is IllegalState
            &&& decoded is Err ==> {
                &&& result->Err_0 is MessageDecode
                &&& result->Err_0->MessageDecode_0.source == decoded->Err_0
                &&& result->Err_0->MessageDecode_0.info.delivery_id == admitted.delivery_id
                &&& result->Err_0->MessageDecode_0.info.delivery_tag == admitted.delivery_tag
                &&& result->Err_0->MessageDecode_0.info.rcv_settle_mode == admitted.mode
            }
        }),
{
}

/// A disposition settles if it is asked to and does not if it is asked not to. Where nothing is
/// asked, it settles exactly if the receiver settles first, on this delivery or else on the link.
pub proof fn law_dispositions_settle_by_mode(
    settled: bool,
    info: DeliveryInfo,
    link_mode: ReceiverSettleMode,
)
    ensures
        receiver_link::settles(Some(settled), info, link_mode) == settled,
        info.rcv_settle_mode is Some ==> receiver_link::settles(None, info, link_mode) == (
        info.rcv_settle_mode->0 is First),
        info.rcv_settle_mode is None ==> receiver_link::settles(None, info, link_mode) == (
        link_mode is First),
{
}

/// New credit and a new drain mode replace the old ones where they are given. Nothing else of the
/// flow state changes.
pub proof fn law_flow_state_is_updated(
    flow: LinkFlowState,
    link_credit: u32,
    drain: bool,
)
    ensures
        receiver_link::flow_after(flow, None, None) == flow,
        receiver_link::flow_after(flow, Some(link_credit), None).link_credit == link_credit,
        receiver_link::flow_after(flow, Some(link_credit), None).drain == flow.drain,
        receiver_link::flow_after(flow, None, Some(drain)).drain == drain,
        receiver_link::flow_after(flow, None, Some(drain)).link_credit == flow.link_credit,
        receiver_link::flow_after(flow, Some(link_credit), Some(drain)) == (LinkFlowState {
            link_credit,
            drain,
            ..flow
        }),
        receiver_link::flow_after(
            receiver_link::flow_after(flow, Some(link_credit), None),
            None,
            Some(drain),
        ) == receiver_link::flow_after(flow, Some(link_credit), Some(drain)),
        receiver_link::flow_after(flow, Some(link_credit), None).delivery_count
            == flow.delivery_count,
        receiver_link::flow_after(flow, None, Some(drain)).delivery_count == flow.delivery_count,
{
}

/// A receiver tells its credit, its drain mode and the delivery count that it knows, as they are.
/// Its properties it tells if asked to, and of what waits at the sender nothing.
pub proof fn law_flow_state_is_told(
    flow: LinkFlowState,
    handle: Handle,
    echo: bool,
    include_properties: bool,
)
    ensures
        ({
            let told = receiver_link::flow_of(flow, handle, echo, include_properties);
            &&& told.handle == handle
            &&& told.link_credit == Some(flow.link_credit)
            &&& told.delivery_count == Some(flow.delivery_count)
            &&& told.drain == flow.drain
            &&& told.echo == echo
            &&& told.available is None
            &&& include_properties ==> told.properties == flow.properties
            &&& !include_properties ==> told.properties is None
        }),
{
}

/// Deliveries that are to be disposed of stay in order, and exactly those stay that are unsettled.
pub proof fn law_settled_deliveries_are_left_out(
    infos: Seq<DeliveryInfo>,
    entries: Entries,
    info: DeliveryInfo,
)
    ensures
        receiver_link::still_unsettled(infos, entries).contains(info) <==> infos.contains(info)
            && unsettled_store::holds(entries, info.delivery_tag@),
        receiver_link::still_unsettled(infos.push(info), entries) == (if unsettled_store::holds(
            entries,
            info.delivery_tag@,
        ) {
            receiver_link::still_unsettled(infos, entries).push(info)
        } else {
            receiver_link::still_unsettled(infos, entries)
        }),
{
    let unsettled = |info: DeliveryInfo| unsettled_store::holds(entries, info.delivery_tag@);
    let kept = receiver_link::still_unsettled(infos, entries);
    if infos.contains(info) && unsettled(info) {
        let i = choose|i: int| 0 <= i < infos.len() && infos[i] == info;
        infos.lemma_filter_contains(unsettled, i);
    }
    if kept.contains(info) {
        infos.lemma_filter_contains_rev(unsettled, info);
        let i = choose|i: int| 0 <= i < kept.len() && kept[i] == info;
        infos.lemma_filter_pred(unsettled, i);
    }
    reveal(Seq::filter);
    assert(infos.push(info).drop_last() =~= infos);
}

/// The runs of deliveries are all of them in order: each run ends where the next begins, the first
/// begins with the first delivery and the last ends with the last. Two neighbours stand in one run
/// exactly if one disposition can speak of both.
pub proof fn law_runs_are_all_deliveries(
    runs: Seq<Vec<DeliveryInfo>>,
    infos: Seq<DeliveryInfo>,
    at: int,
)
    requires
        receiver_link::runs_of(runs, infos),
        0 <= at < infos.len() <= usize::MAX,
    ensures
        ({
            let starts = chunks::run_starts(
                infos,
                |left: DeliveryInfo, right: DeliveryInfo| chunks::joins(left, right),
                infos.len(),
            );
            &&& chunks::run_start(starts, 0) == 0
            &&& chunks::run_end(starts, infos.len(), runs.len() - 1) == infos.len()
            &&& forall|run: int|
                0 <= run < runs.len() - 1 ==> #[trigger] chunks::run_end(starts, infos.len(), run)
                    == chunks::run_start(starts, run + 1)
            &&& at > 0 ==> (starts.contains(at as usize) <==> !(infos[at].delivery_id == infos[at
                - 1].delivery_id + 1 && infos[at].rcv_settle_mode == infos[at
                - 1].rcv_settle_mode))
            &&& exists|run: int, within: int|
                0 <= run < runs.len() && 0 <= within < runs[run]@.len() && #[trigger] runs[run]@[within]
                    == infos[at]
        }),
{
    let joined = |left: DeliveryInfo, right: DeliveryInfo| chunks::joins(left, right);
    let starts = chunks::run_starts(infos, joined, infos.len());
    chunks::lemma_run_starts(infos, joined, infos.len());
    if at > 0 && starts.contains(at as usize) {
        let k = choose|k: int| 0 <= k < starts.len() && starts[k] == at as usize;
        assert(!joined(infos[at - 1], infos[at]));
    }
    let run = run_around(starts, infos.len(), at, starts.len() as int);
    let within = at - chunks::run_start(starts, run);
    assert(runs[run]@ == infos.subrange(
        chunks::run_start(starts, run),
        chunks::run_end(starts, infos.len(), run),
    ));
    if run < starts.len() {
        assert(starts[run] <= infos.len());
    }
    if run > 0 {
        assert(starts[run - 1] >= 1);
    }
    assert(runs[run]@[within] == infos[at]);
}

/// The run that holds a place.
proof fn run_around(starts: Seq<usize>, length: nat, at: int, last: int) -> (run: int)
    requires
        0 <= last <= starts.len(),
        0 <= at < chunks::run_end(starts, length, last),
    ensures
        0 <= run <= last,
        chunks::run_start(starts, run) <= at < chunks::run_end(starts, length, run),
    decreases last,
{
    if last == 0 || starts[last - 1] <= at {
        last
    } else {
        run_around(starts, length, at, last - 1)
    }
}

} // verus!
