//! What identifies a delivery on the transfers that carry it: number, tag and format. Later
//! transfers may leave them out, and must not contradict the first.

use vstd::prelude::*;

use crate::definitions::{share_binary, Binary};
use crate::ordered_map::MapKey;
use crate::performatives::Transfer;

verus! {

/// Whether two transfers may give a delivery these numbers.
pub open spec fn numbers_agree(one: Option<u32>, other: Option<u32>) -> bool {
    one is Some && other is Some ==> one == other
}

/// Whether two transfers may give a delivery these tags.
pub open spec fn tags_agree(one: Option<Binary>, other: Option<Binary>) -> bool {
    one is Some && other is Some ==> one->0@ == other->0@
}

/// A field, or the other where it was left out.
pub open spec fn given_or<T>(given: Option<T>, other: Option<T>) -> Option<T> {
    if given is Some {
        given
    } else {
        other
    }
}

/// A transfer whose identity was filled in from the first one, as far as the two agree: number,
/// tag and format are compared and filled in this order.
pub open spec fn identified(transfer: Transfer, first: Transfer) -> Transfer {
    if !numbers_agree(transfer.delivery_id, first.delivery_id) {
        transfer
    } else {
        let numbered = Transfer {
            delivery_id: given_or(transfer.delivery_id, first.delivery_id),
            ..transfer
        };
        if !tags_agree(transfer.delivery_tag, first.delivery_tag) {
            numbered
        } else {
            let tagged = Transfer {
                delivery_tag: given_or(transfer.delivery_tag, first.delivery_tag),
                ..numbered
            };
            if !numbers_agree(transfer.message_format, first.message_format) {
                tagged
            } else {
                Transfer {
                    message_format: given_or(transfer.message_format, first.message_format),
                    ..tagged
                }
            }
        }
    }
}

/// Whether two transfers agree on number, tag and format of their delivery.
pub open spec fn same_identity(transfer: Transfer, first: Transfer) -> bool {
    &&& numbers_agree(transfer.delivery_id, first.delivery_id)
    &&& tags_agree(transfer.delivery_tag, first.delivery_tag)
    &&& numbers_agree(transfer.message_format, first.message_format)
}

fn numbers_differ(one: Option<u32>, other: Option<u32>) -> (differ: bool)
    ensures
        differ == !numbers_agree(one, other),
{
    match (one, other) {
        (Some(one), Some(other)) => one != other,
        _ => false,
    }
}

fn tags_differ(one: &Option<Binary>, other: &Option<Binary>) -> (differ: bool)
    ensures
        differ == !tags_agree(*one, *other),
{
    match (one, other) {
        (Some(one), Some(other)) => !one.same(other),
        _ => false,
    }
}

/// Fills the identity that a transfer leaves out in from another of the same delivery. Says
/// whether the two agree; where they do not, what stands before the contradiction is filled in.
pub fn fill_identity(transfer: &mut Transfer, first: &Transfer) -> (agree: bool)
    ensures
        agree == same_identity(*old(transfer), *first),
        *final(transfer) == identified(*old(transfer), *first),
{
    if numbers_differ(transfer.delivery_id, first.delivery_id) {
        return false;
    }
    if transfer.delivery_id.is_none() {
        transfer.delivery_id = first.delivery_id;
    }
    if tags_differ(&transfer.delivery_tag, &first.delivery_tag) {
        return false;
    }
    if transfer.delivery_tag.is_none() {
        transfer.delivery_tag = share_binary(&first.delivery_tag);
    }
    if numbers_differ(transfer.message_format, first.message_format) {
        return false;
    }
    if transfer.message_format.is_none() {
        transfer.message_format = first.message_format;
    }
    true
}

/// Two transfers disagree exactly if both say something of the number, the tag or the format and
/// not the same. It does not matter which of them comes first.
pub proof fn law_contradictions_are_found(transfer: Transfer, first: Transfer)
    ensures
        same_identity(transfer, first) <==> {
            &&& transfer.delivery_id is None || first.delivery_id is None
                || transfer.delivery_id->0 == first.delivery_id->0
            &&& transfer.delivery_tag is None || first.delivery_tag is None
                || transfer.delivery_tag->0@ == first.delivery_tag->0@
            &&& transfer.message_format is None || first.message_format is None
                || transfer.message_format->0 == first.message_format->0
        },
        same_identity(transfer, first) == same_identity(first, transfer),
{
}

/// What a transfer says of its identity is never altered; what it leaves out is filled in from
/// the other, up to a contradiction. Nothing else of it changes.
pub proof fn law_identity_is_filled_in(transfer: Transfer, first: Transfer)
    ensures
        ({
            let after = identified(transfer, first);
            &&& transfer.delivery_id is Some ==> after.delivery_id == transfer.delivery_id
            &&& transfer.delivery_tag is Some ==> after.delivery_tag == transfer.delivery_tag
            &&& transfer.message_format is Some ==> after.message_format
                == transfer.message_format
            &&& transfer.delivery_id is None ==> after.delivery_id == first.delivery_id
            &&& same_identity(transfer, first) && transfer.delivery_tag is None
                ==> after.delivery_tag == first.delivery_tag
            &&& same_identity(transfer, first) && transfer.message_format is None
                ==> after.message_format == first.message_format
            &&& after.handle == transfer.handle
            &&& after.settled == transfer.settled
            &&& after.more == transfer.more
            &&& after.rcv_settle_mode == transfer.rcv_settle_mode
            &&& after.state == transfer.state
            &&& after.resume == transfer.resume
            &&& after.aborted == transfer.aborted
            &&& after.batchable == transfer.batchable
        }),
{
}

/// A contradiction stops the filling in where it stands: after that nothing is filled in.
pub proof fn law_contradictions_stop_the_filling_in(transfer: Transfer, first: Transfer)
    ensures
        ({
            let after = identified(transfer, first);
            let numbers_differ = transfer.delivery_id is Some && first.delivery_id is Some
                && transfer.delivery_id->0 != first.delivery_id->0;
            let tags_differ = transfer.delivery_tag is Some && first.delivery_tag is Some
                && transfer.delivery_tag->0@ != first.delivery_tag->0@;
            &&& numbers_differ ==> after == transfer
            &&& tags_differ ==> after.message_format == transfer.message_format
            &&& !numbers_differ && transfer.delivery_tag is None ==> after.delivery_tag
                == first.delivery_tag
        }),
{
}

} // verus!
