//! What holds of the session's end of a link, whatever frames come in.

use vstd::prelude::*;

use crate::definitions::{
    self, DeliveryNumber, DeliveryState, DeliveryTag, ReceiverSettleMode,
};
use crate::errors::LinkRelayError;
use crate::frame::LinkFrame;
use crate::link;
use crate::ordered_map;
use crate::performatives::{LinkFlow, Transfer};
use crate::receiver_delivery::ReceiverDelivery;
use crate::relay::{self, RelayView, UnsettledMessage};
use crate::unsettled_store::{self, StoreView};

verus! {

/// No delivery of a relay is held twice.
pub open spec fn relay_distinct<O>(relay: RelayView<O>) -> bool {
    match relay {
        RelayView::Sender { unsettled, .. } => unsettled_store::distinct(unsettled.entries),
        RelayView::Receiver { unsettled, .. } => unsettled_store::distinct(unsettled.entries),
    }
}

/// Whether a relay holds a delivery.
pub open spec fn relay_holds<O>(relay: RelayView<O>, tag: Seq<u8>) -> bool {
    match relay {
        RelayView::Sender { unsettled, .. } => unsettled_store::holds(unsettled.entries, tag),
        RelayView::Receiver { unsettled, .. } => unsettled_store::holds(unsettled.entries, tag),
    }
}

/// A settled disposition ends its delivery, and touches no other delivery.
pub proof fn law_settlement_ends_the_delivery<O>(
    relay: RelayView<O>,
    state: Option<DeliveryState>,
    tag: Seq<u8>,
    other: Seq<u8>,
)
    requires
        relay_distinct(relay),
    ensures
        relay_distinct(relay::disposed(relay, true, state, tag)),
        !relay_holds(relay::disposed(relay, true, state, tag), tag),
        other != tag ==> relay_holds(relay::disposed(relay, true, state, tag), other)
            == relay_holds(relay, other),
{
    match relay {
        RelayView::Sender { unsettled, .. } => {
            unsettled_store::law_without(unsettled.entries, tag, tag);
            unsettled_store::law_without(unsettled.entries, tag, other);
        },
        RelayView::Receiver { unsettled, .. } => {
            unsettled_store::law_without(unsettled.entries, tag, tag);
            unsettled_store::law_without(unsettled.entries, tag, other);
        },
    }
}

/// A sender whose receiver settles second waits for a terminal outcome of the peer: until then the
/// delivery is kept, nothing is reported and nothing is answered.
pub proof fn law_second_settlement_waits_for_an_outcome<O>(
    output_handle: O,
    unsettled: StoreView<UnsettledMessage>,
    state: Option<DeliveryState>,
    tag: Seq<u8>,
)
    requires
        unsettled_store::distinct(unsettled.entries),
    ensures
        ({
            let sender = RelayView::Sender {
                output_handle,
                unsettled,
                receiver_settle_mode: ReceiverSettleMode::Second,
            };
            let after = relay::disposed(sender, false, state, tag);
            if definitions::settled_outcome(state) {
                &&& relay::echo_due(sender, false, state)
                &&& !relay_holds(after, tag)
                &&& relay::outcome(sender, false, state, tag) is Some == relay_holds(sender, tag)
            } else {
                &&& !relay::echo_due(sender, false, state)
                &&& relay_holds(after, tag) == relay_holds(sender, tag)
                &&& relay::outcome(sender, false, state, tag) is None
            }
        }),
{
    unsettled_store::law_without(unsettled.entries, tag, tag);
    if let Some(message) = unsettled_store::held(unsettled.entries, tag) {
        unsettled_store::law_changed(unsettled.entries, tag, UnsettledMessage { state, ..message }, tag);
    }
}

/// Only a sender answers dispositions, and never one that settles.
pub proof fn law_only_senders_answer<O>(
    relay: RelayView<O>,
    settled: bool,
    state: Option<DeliveryState>,
)
    requires
        relay::echo_due(relay, settled, state),
    ensures
        relay is Sender,
        !settled,
        definitions::settled_outcome(state),
{
}

/// A disposition never adds a delivery, and keeps the deliveries distinct.
pub proof fn law_dispositions_add_nothing<O>(
    relay: RelayView<O>,
    settled: bool,
    state: Option<DeliveryState>,
    tag: Seq<u8>,
    other: Seq<u8>,
)
    requires
        relay_distinct(relay),
    ensures
        relay_distinct(relay::disposed(relay, settled, state, tag)),
        relay_holds(relay::disposed(relay, settled, state, tag), other) ==> relay_holds(
            relay,
            other,
        ),
        relay::disposed(relay, settled, state, tag).tracks_delivery() == relay.tracks_delivery(),
{
    match relay {
        RelayView::Sender { unsettled, .. } => {
            unsettled_store::law_without(unsettled.entries, tag, other);
            if let Some(message) = unsettled_store::held(unsettled.entries, tag) {
                unsettled_store::law_changed(unsettled.entries, tag, UnsettledMessage { state, ..message }, other);
            }
        },
        RelayView::Receiver { unsettled, .. } => {
            unsettled_store::law_without(unsettled.entries, tag, other);
            if let Some(delivery) = unsettled_store::held(unsettled.entries, tag) {
                unsettled_store::law_changed(unsettled.entries, tag, delivery.after_remote_state(state), other);
            }
        },
    }
}

proof fn lemma_published(
    transfer: Transfer,
    first: bool,
    tag: Seq<u8>,
    entries: Option<Seq<(Seq<u8>, ReceiverDelivery)>>,
    other: Seq<u8>,
)
    requires
        unsettled_store::distinct(entries),
    ensures
        unsettled_store::distinct(relay::published(transfer, first, tag, entries)),
        unsettled_store::holds(relay::published(transfer, first, tag, entries), other) == (
        if transfer.settled == Some(true) || transfer.aborted {
            other != tag && unsettled_store::holds(entries, other)
        } else if first && !transfer.resume {
            other == tag || unsettled_store::holds(entries, other)
        } else {
            unsettled_store::holds(entries, other)
        }),
{
    unsettled_store::law_without(entries, tag, other);
    let known = match entries {
        None => seq![],
        Some(entries) => entries,
    };
    ordered_map::law_insert(
        known,
        tag,
        ReceiverDelivery { local: None, remote: transfer.state, received: false, info: None },
        other,
    );
}

/// Once a delivery was ended, its later transfers do not bring it back: only the first transfer of
/// a new delivery, and no resumed one, makes a delivery unsettled.
pub proof fn law_only_new_deliveries_are_published<O>(
    relay: RelayView<O>,
    transfer: Transfer,
    tag: Seq<u8>,
)
    requires
        relay_distinct(relay),
        !relay_holds(relay, tag),
        relay_holds(relay::transferred(relay, transfer).relay, tag),
    ensures
        relay matches RelayView::Receiver { more, .. } && !more,
        !transfer.resume,
        !transfer.aborted,
        transfer.settled != Some(true),
        transfer.delivery_tag matches Some(given) && given@ == tag,
{
    if let RelayView::Receiver { unsettled, more, current_tag, .. } = relay {
        if let Some(effective) = relay::effective_tag(transfer, current_tag) {
            lemma_published(transfer, !more, effective, unsettled.entries, tag);
        }
    }
}

/// A transfer that is settled or aborted leaves no unsettled delivery under its tag, and its
/// identity is not taken down.
pub proof fn law_settled_transfers_are_not_tracked<O>(relay: RelayView<O>, transfer: Transfer)
    requires
        relay_distinct(relay),
        transfer.settled == Some(true) || transfer.aborted,
        relay::transferred(relay, transfer).result is Ok,
        transfer.delivery_tag is Some,
    ensures
        !relay_holds(relay::transferred(relay, transfer).relay, transfer.delivery_tag->0@),
        relay::transferred(relay, transfer).result->Ok_0 is None,
{
    if let RelayView::Receiver { unsettled, more, .. } = relay {
        let tag = transfer.delivery_tag->0@;
        lemma_published(transfer, !more, tag, unsettled.entries, tag);
    }
}

/// The identity of a delivery that is taken down is that of its first transfer, and the delivery
/// is unsettled by then.
pub proof fn law_identity_is_published_first<O>(relay: RelayView<O>, transfer: Transfer)
    requires
        relay::transferred(relay, transfer).result is Ok,
        relay::transferred(relay, transfer).result->Ok_0 is Some,
    ensures
        ({
            let (delivery_id, delivery_tag) = relay::transferred(relay, transfer).result->Ok_0->0;
            &&& transfer.delivery_id == Some(delivery_id)
            &&& transfer.delivery_tag == Some(delivery_tag)
            &&& relay_holds(relay::transferred(relay, transfer).relay, delivery_tag@)
        }),
        relay matches RelayView::Receiver { more, .. } && !more,
{
}

/// Every unsettled delivery that begins is taken down by its number.
pub proof fn law_new_deliveries_are_identified<O>(relay: RelayView<O>, transfer: Transfer)
    requires
        relay_distinct(relay),
        relay matches RelayView::Receiver { more, .. } && !more,
        relay::transferred(relay, transfer).result is Ok,
        transfer.settled != Some(true),
        !transfer.aborted,
        !transfer.resume,
    ensures
        relay::transferred(relay, transfer).result->Ok_0 == Some(
            (transfer.delivery_id->0, transfer.delivery_tag->0),
        ),
{
    if let RelayView::Receiver { unsettled, .. } = relay {
        let tag = transfer.delivery_tag->0@;
        lemma_published(transfer, true, tag, unsettled.entries, tag);
    }
}

/// Transfers keep the deliveries of a relay distinct, and its current tag in step with whether
/// more transfers follow.
pub proof fn law_transfers_keep_the_relay_consistent<O>(relay: RelayView<O>, transfer: Transfer)
    requires
        relay_distinct(relay),
        relay.tracks_delivery(),
    ensures
        relay_distinct(relay::transferred(relay, transfer).relay),
        relay::transferred(relay, transfer).relay.tracks_delivery(),
        relay::transferred(relay, transfer).relay.handle() == relay.handle(),
{
    if let RelayView::Receiver { unsettled, more, current_tag, .. } = relay {
        if let Some(tag) = relay::effective_tag(transfer, current_tag) {
            lemma_published(transfer, !more, tag, unsettled.entries, tag);
        }
    }
}

/// A transfer that is refused for want of identity changes nothing. One that reuses the tag of an
/// unsettled delivery leaves that delivery as it was.
pub proof fn law_refused_transfers_create_nothing<O>(
    relay: RelayView<O>,
    transfer: Transfer,
    tag: Seq<u8>,
)
    requires
        relay_distinct(relay),
        relay::transferred(relay, transfer).result is Err,
    ensures
        relay_holds(relay::transferred(relay, transfer).relay, tag) == relay_holds(relay, tag),
{
    if let RelayView::Receiver { unsettled, more, current_tag, .. } = relay {
        if let Some(effective) = relay::effective_tag(transfer, current_tag) {
            lemma_published(transfer, !more, effective, unsettled.entries, tag);
        }
    }
}

/// Whenever a disposition ends a delivery that a sender holds, settled or not, exactly one outcome
/// is reported: to the one who waits for that message, and with the state that the disposition
/// tells. It ends the delivery exactly if it settles or tells an outcome; if it does not, the
/// message stays as it was, with that state. Other messages are not touched.
pub proof fn law_ended_deliveries_report_their_outcome<O>(
    output_handle: O,
    unsettled: StoreView<UnsettledMessage>,
    receiver_settle_mode: ReceiverSettleMode,
    settled: bool,
    state: Option<DeliveryState>,
    tag: Seq<u8>,
    other: Seq<u8>,
)
    requires
        unsettled_store::distinct(unsettled.entries),
    ensures
        ({
            let sender = RelayView::Sender { output_handle, unsettled, receiver_settle_mode };
            let message = unsettled_store::held(unsettled.entries, tag);
            let after = relay::disposed(sender, settled, state, tag);
            let kept = unsettled_store::held(after->Sender_unsettled.entries, tag);
            let reported = relay::outcome(sender, settled, state, tag);
            &&& after is Sender
            &&& after->Sender_output_handle == output_handle
            &&& after->Sender_receiver_settle_mode == receiver_settle_mode
            &&& reported is Some <==> message is Some && kept is None
            &&& reported is Some ==> {
                &&& reported->0.reply == message->0.reply
                &&& reported->0.state == state
            }
            &&& message is Some ==> (kept is None <==> settled || definitions::settled_outcome(
                state,
            ))
            &&& kept is Some ==> {
                &&& message is Some
                &&& kept->0.state == state
                &&& kept->0.reply == message->0.reply
                &&& kept->0.payload == message->0.payload
                &&& kept->0.message_format == message->0.message_format
            }
            &&& other != tag ==> unsettled_store::held(after->Sender_unsettled.entries, other)
                == unsettled_store::held(unsettled.entries, other)
            &&& after->Sender_unsettled.entries is Some == unsettled.entries is Some
            &&& after->Sender_unsettled.revision == unsettled_store::next_revision(
                unsettled.revision,
            )
        }),
{
    unsettled_store::law_without(unsettled.entries, tag, tag);
    unsettled_store::law_without(unsettled.entries, tag, other);
    if let Some(message) = unsettled_store::held(unsettled.entries, tag) {
        let now = UnsettledMessage { state, ..message };
        unsettled_store::law_changed(unsettled.entries, tag, now, tag);
        unsettled_store::law_changed(unsettled.entries, tag, now, other);
    }
}

/// A message is ended by a disposition once: the next one for it reports nothing.
pub proof fn law_outcomes_are_reported_once<O>(
    relay: RelayView<O>,
    settled: bool,
    state: Option<DeliveryState>,
    tag: Seq<u8>,
    settled_again: bool,
    state_again: Option<DeliveryState>,
)
    requires
        relay_distinct(relay),
        relay::outcome(relay, settled, state, tag) is Some,
    ensures
        relay::outcome(
            relay::disposed(relay, settled, state, tag),
            settled_again,
            state_again,
            tag,
        ) is None,
{
    if let RelayView::Sender { unsettled, .. } = relay {
        unsettled_store::law_without(unsettled.entries, tag, tag);
    }
}

/// A receiver reports nothing and answers nothing. A disposition that settles ends its delivery,
/// whatever state it tells; any other tells the state of the peer, which leaves what happened here
/// as it is. Nothing else changes.
pub proof fn law_receivers_take_dispositions_down<O>(
    output_handle: O,
    unsettled: StoreView<ReceiverDelivery>,
    receiver_settle_mode: ReceiverSettleMode,
    more: bool,
    current_tag: Option<Seq<u8>>,
    settled: bool,
    state: Option<DeliveryState>,
    tag: Seq<u8>,
    other: Seq<u8>,
)
    requires
        unsettled_store::distinct(unsettled.entries),
    ensures
        ({
            let receiver = RelayView::Receiver {
                output_handle,
                unsettled,
                receiver_settle_mode,
                more,
                current_tag,
            };
            let delivery = unsettled_store::held(unsettled.entries, tag);
            let after = relay::disposed(receiver, settled, state, tag);
            let kept = unsettled_store::held(after->Receiver_unsettled.entries, tag);
            &&& relay::outcome(receiver, settled, state, tag) is None
            &&& !relay::echo_due(receiver, settled, state)
            &&& after is Receiver
            &&& after->Receiver_output_handle == output_handle
            &&& after->Receiver_receiver_settle_mode == receiver_settle_mode
            &&& after->more == more
            &&& after->current_tag == current_tag
            &&& kept is Some <==> delivery is Some && !settled
            &&& kept is Some ==> {
                &&& kept->0.local == delivery->0.local
                &&& kept->0.received == delivery->0.received
                &&& kept->0.info == delivery->0.info
                &&& kept->0.remote == (if definitions::settled_outcome(delivery->0.remote) {
                    delivery->0.remote
                } else {
                    state
                })
            }
            &&& other != tag ==> unsettled_store::held(after->Receiver_unsettled.entries, other)
                == unsettled_store::held(unsettled.entries, other)
            &&& after->Receiver_unsettled.entries is Some == unsettled.entries is Some
            &&& after->Receiver_unsettled.revision == unsettled_store::next_revision(
                unsettled.revision,
            )
        }),
{
    unsettled_store::law_without(unsettled.entries, tag, tag);
    unsettled_store::law_without(unsettled.entries, tag, other);
    if let Some(delivery) = unsettled_store::held(unsettled.entries, tag) {
        let now = delivery.after_remote_state(state);
        unsettled_store::law_changed(unsettled.entries, tag, now, tag);
        unsettled_store::law_changed(unsettled.entries, tag, now, other);
    }
}

/// A disposition is answered exactly where the receiver at the other end settles second and told
/// an outcome without settling, whether the delivery is known or not.
pub proof fn law_answers_are_due_exactly<O>(
    output_handle: O,
    unsettled: StoreView<UnsettledMessage>,
    mode: ReceiverSettleMode,
    settled: bool,
    state: Option<DeliveryState>,
)
    ensures
        relay::echo_due(
            RelayView::Sender { output_handle, unsettled, receiver_settle_mode: mode },
            settled,
            state,
        ) <==> mode == ReceiverSettleMode::Second && !settled && definitions::settled_outcome(
            state,
        ),
{
}

/// Whether a transfer says who its delivery is, which the first one has to.
pub open spec fn names_its_delivery(transfer: Transfer) -> bool {
    transfer.delivery_id is Some && transfer.delivery_tag is Some && transfer.message_format is Some
}

/// A transfer is taken in exactly if it goes to a receiver, begins a delivery that it names in
/// full or goes on with the current one, has no tag longer than thirty-two bytes and none that
/// contradicts the current one, and does not begin a new unsettled delivery under the tag of
/// another. Whether it is settled or says more does not matter otherwise.
pub proof fn law_transfers_are_taken_exactly<O>(relay: RelayView<O>, transfer: Transfer)
    ensures
        relay is Sender ==> relay::transferred(relay, transfer).result == Err::<
            Option<(DeliveryNumber, DeliveryTag)>,
            LinkRelayError,
        >(LinkRelayError::TransferFrameToSender),
        relay is Receiver ==> {
            let first = !relay->more;
            let current = relay->current_tag;
            let entries = relay->Receiver_unsettled.entries;
            let tag = transfer.delivery_tag->0@;
            let begins_new = first && transfer.settled != Some(true) && !transfer.aborted
                && !transfer.resume;
            let taken = {
                &&& first ==> names_its_delivery(transfer)
                &&& transfer.delivery_tag is Some ==> tag.len() <= 32
                &&& transfer.delivery_tag is Some && !first && current is Some ==> current->0
                    == tag
                &&& !(begins_new && unsettled_store::holds(entries, tag))
            };
            &&& relay::transferred(relay, transfer).result is Ok <==> taken
            &&& !taken ==> relay::transferred(relay, transfer).result == Err::<
                Option<(DeliveryNumber, DeliveryTag)>,
                LinkRelayError,
            >(LinkRelayError::InvalidTransfer)
        },
{
}

/// The tag of the delivery that a transfer belongs to: its own, or else that of the delivery that
/// it goes on with.
pub open spec fn tag_of_delivery<O>(relay: RelayView<O>, transfer: Transfer) -> Option<Seq<u8>> {
    match transfer.delivery_tag {
        Some(tag) => Some(tag@),
        None => relay->current_tag,
    }
}

/// After a transfer was taken in, the relay is within a delivery exactly if that transfer says
/// more and is not aborted, and its current tag is that of the delivery exactly as long. A
/// transfer that is refused leaves the relay where it was in its delivery. Nothing else of the
/// link changes.
pub proof fn law_deliveries_go_on<O>(relay: RelayView<O>, transfer: Transfer)
    requires
        relay is Receiver,
    ensures
        ({
            let outcome = relay::transferred(relay, transfer);
            let after = outcome.relay;
            &&& after is Receiver
            &&& after->Receiver_output_handle == relay->Receiver_output_handle
            &&& after->Receiver_receiver_settle_mode == relay->Receiver_receiver_settle_mode
            &&& outcome.result is Ok ==> {
                &&& after->more <==> transfer.more && !transfer.aborted
                &&& after->more ==> after->current_tag == tag_of_delivery(relay, transfer)
                &&& !after->more ==> after->current_tag is None
            }
            &&& outcome.result is Err ==> {
                &&& after->more == relay->more
                &&& after->current_tag == relay->current_tag
            }
        }),
{
}

/// A further transfer of a delivery is taken in whether the delivery is settled or not, and
/// whether it names the delivery again or leaves that out; only another tag is refused. As long as
/// transfers say more, they belong to the delivery that the first one named.
pub proof fn law_continuations_are_taken<O>(relay: RelayView<O>, first: Transfer, next: Transfer)
    requires
        relay is Receiver,
        !relay->more,
        relay::transferred(relay, first).result is Ok,
        first.more,
        !first.aborted,
    ensures
        ({
            let within = relay::transferred(relay, first).relay;
            let outcome = relay::transferred(within, next);
            let tag = first.delivery_tag->0@;
            &&& outcome.result is Ok <==> next.delivery_tag is None || next.delivery_tag->0@ == tag
            &&& outcome.result is Ok ==> outcome.result->Ok_0 is None
            &&& outcome.result is Ok && next.more && !next.aborted ==> {
                &&& outcome.relay->more
                &&& outcome.relay->current_tag == Some(tag)
            }
            &&& outcome.result is Ok && !(next.more && !next.aborted) ==> !outcome.relay->more
        }),
{
}

/// A transfer concerns one delivery. One that is settled or aborted ends it, the first of a new
/// one publishes it with the state that the peer tells and nothing received, and any other leaves
/// it as it is. A transfer that is refused leaves every delivery as it is.
pub proof fn law_transfers_concern_one_delivery<O>(
    relay: RelayView<O>,
    transfer: Transfer,
    tag: Seq<u8>,
)
    requires
        relay is Receiver,
        relay_distinct(relay),
    ensures
        ({
            let outcome = relay::transferred(relay, transfer);
            let before = unsettled_store::held(relay->Receiver_unsettled.entries, tag);
            let after = unsettled_store::held(outcome.relay->Receiver_unsettled.entries, tag);
            let mine = outcome.result is Ok && tag_of_delivery(relay, transfer) == Some(tag);
            let over = transfer.settled == Some(true) || transfer.aborted;
            &&& !mine ==> after == before
            &&& mine && over ==> after is None
            &&& mine && !over && (relay->more || transfer.resume) ==> after == before
            &&& mine && !over && !relay->more && !transfer.resume ==> {
                &&& before is None
                &&& after is Some
                &&& after->0.local is None
                &&& after->0.remote == transfer.state
                &&& !after->0.received
                &&& after->0.info is None
            }
        }),
{
    if let RelayView::Receiver { unsettled, more, current_tag, .. } = relay {
        if let Some(effective) = relay::effective_tag(transfer, current_tag) {
            unsettled_store::law_without(unsettled.entries, effective, tag);
            let known = match unsettled.entries {
                None => seq![],
                Some(entries) => entries,
            };
            ordered_map::lemma_find(known, tag);
            ordered_map::law_insert(
                known,
                effective,
                ReceiverDelivery { local: None, remote: transfer.state, received: false, info: None },
                tag,
            );
        }
    }
}

/// The number and the tag of a delivery are taken down with its first transfer exactly if the
/// delivery is unsettled then: a new one always is, and a resumed one if it still was.
pub proof fn law_identities_are_taken_down_exactly<O>(relay: RelayView<O>, transfer: Transfer)
    requires
        relay is Receiver,
        relay_distinct(relay),
        relay::transferred(relay, transfer).result is Ok,
    ensures
        ({
            let identity = relay::transferred(relay, transfer).result->Ok_0;
            let entries = relay->Receiver_unsettled.entries;
            &&& identity is Some <==> {
                &&& !relay->more
                &&& transfer.settled != Some(true)
                &&& !transfer.aborted
                &&& !transfer.resume || unsettled_store::holds(
                    entries,
                    transfer.delivery_tag->0@,
                )
            }
            &&& identity is Some ==> identity == Some(
                (transfer.delivery_id->0, transfer.delivery_tag->0),
            )
        }),
{
    if let RelayView::Receiver { unsettled, more, .. } = relay {
        if !more {
            let tag = transfer.delivery_tag->0@;
            lemma_published(transfer, true, tag, unsettled.entries, tag);
        }
    }
}

/// Observers see every transfer that concerns a delivery, and a new delivery stands last.
pub proof fn law_transfers_are_observed<O>(relay: RelayView<O>, transfer: Transfer)
    requires
        relay is Receiver,
        relay::transferred(relay, transfer).result is Ok,
    ensures
        ({
            let before = relay->Receiver_unsettled;
            let after = relay::transferred(relay, transfer).relay->Receiver_unsettled;
            let begins_new = !relay->more && transfer.settled != Some(true) && !transfer.aborted
                && !transfer.resume;
            &&& tag_of_delivery(relay, transfer) is Some ==> after.revision
                == unsettled_store::next_revision(before.revision)
            &&& tag_of_delivery(relay, transfer) is None ==> after == before
            &&& begins_new ==> {
                let known = if before.entries is Some {
                    before.entries->0
                } else {
                    seq![]
                };
                &&& after.entries is Some
                &&& after.entries->0.len() == known.len() + 1
                &&& after.entries->0.drop_last() == known
                &&& after.entries->0.last().0 == transfer.delivery_tag->0@
            }
        }),
{
    let before = relay->Receiver_unsettled;
    let after = relay::transferred(relay, transfer).relay->Receiver_unsettled;
    if !relay->more && transfer.settled != Some(true) && !transfer.aborted && !transfer.resume {
        let known = if before.entries is Some {
            before.entries->0
        } else {
            seq![]
        };
        ordered_map::lemma_find(known, transfer.delivery_tag->0@);
        assert(after.entries->0.drop_last() =~= known);
    }
}

/// A sender is told of a transaction exactly if a flow names one: under the property `txn-id`,
/// with a binary value. A receiver never is.
pub proof fn law_transactions_are_acquired<O>(relay: RelayView<O>, flow: LinkFlow, at: int)
    requires
        flow.properties matches Some(fields) && 0 <= at < fields@.len() && fields@[at].0
            == vstd::utf8::encode_utf8("txn-id"@) && ordered_map::unique(fields@),
    ensures
        ({
            let value = flow.properties->0@[at].1;
            &&& relay is Sender && value is Binary ==> relay::acquisition_due(relay, flow) == Some(
                LinkFrame::Acquisition(value->Binary_0),
            )
            &&& relay is Receiver || value is Encoded ==> relay::acquisition_due(relay, flow)
                is None
        }),
{
    let fields = flow.properties->0@;
    assert forall|j: int| 0 <= j < at implies (#[trigger] fields[j]).0 != fields[at].0 by {}
    ordered_map::lemma_found(fields, fields[at].0, at);
}

/// A flow that names no transaction has nobody told of one.
pub proof fn law_plain_flows_acquire_nothing<O>(relay: RelayView<O>, flow: LinkFlow)
    requires
        flow.properties matches Some(fields) ==> forall|i: int|
            0 <= i < fields@.len() ==> (#[trigger] fields@[i]).0 != vstd::utf8::encode_utf8(
                "txn-id"@,
            ),
    ensures
        relay::acquisition_due(relay, flow) is None,
{
    if let Some(fields) = flow.properties {
        ordered_map::lemma_find(fields@, relay::txn_id_key());
    }
}

/// A relay that is given its handle is the same relay under that handle.
pub proof fn law_naming_changes_the_handle_only<O, P>(relay: RelayView<O>, handle: P)
    ensures
        relay.named(handle).handle() == handle,
        relay is Sender ==> {
            let named = relay.named(handle);
            &&& named is Sender
            &&& named->Sender_unsettled == relay->Sender_unsettled
            &&& named->Sender_receiver_settle_mode == relay->Sender_receiver_settle_mode
        },
        relay is Receiver ==> {
            let named = relay.named(handle);
            &&& named is Receiver
            &&& named->Receiver_unsettled == relay->Receiver_unsettled
            &&& named->Receiver_receiver_settle_mode == relay->Receiver_receiver_settle_mode
            &&& named->more == relay->more
            &&& named->current_tag == relay->current_tag
        },
{
}

/// What a sender tells of a delivery when it attaches again is the state that the peer last told:
/// that of the last disposition, where it did not end the delivery.
pub proof fn law_senders_tell_what_they_were_told<O>(
    output_handle: O,
    unsettled: StoreView<UnsettledMessage>,
    receiver_settle_mode: ReceiverSettleMode,
    state: Option<DeliveryState>,
    tag: Seq<u8>,
)
    requires
        unsettled_store::distinct(unsettled.entries),
        unsettled_store::held(unsettled.entries, tag) is Some,
        !definitions::settled_outcome(state),
    ensures
        ({
            let sender = RelayView::Sender { output_handle, unsettled, receiver_settle_mode };
            let after = relay::disposed(sender, false, state, tag)->Sender_unsettled.entries;
            let at = ordered_map::find(after->0, tag);
            &&& after is Some
            &&& at is Some
            &&& at == ordered_map::find(unsettled.entries->0, tag)
            &&& link::told(after->0, after->0.len())[at->0 as int] == (tag, state)
        }),
{
    let before = unsettled.entries->0;
    let message = unsettled_store::held(unsettled.entries, tag)->0;
    let now = UnsettledMessage { state, ..message };
    let at = ordered_map::find(before, tag)->0;
    ordered_map::lemma_find(before, tag);
    ordered_map::lemma_found(ordered_map::replaced(before, tag, now), tag, at as int);
}

} // verus!
