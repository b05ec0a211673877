//! A delivery of which only some transfers have come in, and the storage that its bytes take.

use vstd::prelude::*;

use crate::codec;
use crate::definitions::{self, is_settled_outcome, DeliveryState, Payload};
use crate::delivery_identity;
use crate::errors::ReceiverTransferError;
use crate::message;
use crate::message_laws;
use crate::performatives::Transfer;
use crate::receive_budget::{ReceiveBudget, Reservation};
use crate::receiver_delivery::ReceiverDelivery;
use crate::unsettled_store::{self, Store};

verus! {

/// The part of a delivery that has come in so far.
#[derive(Debug)]
pub struct IncompleteTransfer {
    /// The storage that the bytes take.
    pub storage: Reservation,
    /// What the transfers say together.
    pub performative: Transfer,
    /// The bytes that they carried.
    pub buffer: Vec<u8>,
    /// The section at which the bytes end.
    pub section_number: Option<u32>,
    /// The byte within that section.
    pub section_offset: u64,
}

/// Whether a delivery is settled once a further transfer says `later`. If unset, what was said
/// before holds; once true it stays true.
pub open spec fn settled_by(earlier: Option<bool>, later: Option<bool>) -> Option<bool> {
    match earlier {
        None => later,
        Some(settled) => if settled || later is None {
            earlier
        } else {
            later
        },
    }
}

/// The state of a delivery once a further transfer says `later`. A terminal state is never
/// altered.
pub open spec fn state_by(
    earlier: Option<DeliveryState>,
    later: Option<DeliveryState>,
) -> Option<DeliveryState> {
    if later is None || definitions::settled_outcome(earlier) {
        earlier
    } else {
        later
    }
}

/// What two transfers of one delivery say together.
pub open spec fn merged(earlier: Transfer, later: Transfer) -> Transfer {
    Transfer {
        settled: settled_by(earlier.settled, later.settled),
        state: state_by(earlier.state, later.state),
        ..delivery_identity::identified(earlier, later)
    }
}

/// Copies two strings of bytes into storage that is no larger than they need.
fn joined(one: &[u8], other: &[u8], size: usize) -> (bytes: Vec<u8>)
    requires
        size == one@.len() + other@.len(),
    ensures
        bytes@ == one@ + other@,
{
    let mut bytes: Vec<u8> = Vec::with_capacity(size);
    bytes.extend_from_slice(one);
    bytes.extend_from_slice(other);
    assert(bytes@ =~= one@ + other@);
    bytes
}

impl IncompleteTransfer {
    /// The bytes that are reserved for the buffer.
    pub open spec fn reserved(&self) -> nat {
        self.storage.held()
    }

    /// The storage is exactly that of the retained bytes.
    pub open spec fn stored(&self) -> bool {
        self.reserved() == self.buffer@.len()
    }

    /// The recorded position is that of the retained bytes.
    pub open spec fn positioned(&self) -> bool {
        self.section_number is Some && message::position(self.buffer@) == Ok::<
            (nat, nat),
            codec::Error,
        >((self.section_number->0 as nat, self.section_offset as nat))
    }

    /// Retains the payload of the first transfer of a delivery, where it fits the budget and is
    /// the beginning of a message.
    pub fn new(transfer: Transfer, partial_payload: Payload, budget: &mut ReceiveBudget) -> (result:
        Result<Self, ReceiverTransferError>)
        ensures
            final(budget).limit() == old(budget).limit(),
            match result {
                Ok(part) => {
                    &&& old(budget).used() + partial_payload@.len() <= old(budget).limit()
                    &&& part.stored()
                    &&& part.positioned()
                    &&& part.performative == transfer
                    &&& part.buffer@ == partial_payload@
                    &&& final(budget).used() == old(budget).used() + partial_payload@.len()
                },
                Err(error) => {
                    &&& final(budget).used() == old(budget).used()
                    &&& if old(budget).used() + partial_payload@.len() > old(budget).limit() {
                        error == ReceiverTransferError::MessageSizeExceeded
                    } else {
                        message::position(partial_payload@) matches Err(source) && error
                            == ReceiverTransferError::InvalidMessageEncoding(source)
                    }
                },
            },
    {
        let storage = match budget.reserve(partial_payload.len()) {
            Ok(storage) => storage,
            Err(error) => return Err(error),
        };
        match message::prefix_position(partial_payload.as_slice()) {
            Ok((number, offset)) => {
                let empty: Vec<u8> = Vec::new();
                let buffer = joined(
                    partial_payload.as_slice(),
                    empty.as_slice(),
                    partial_payload.len(),
                );
                assert(buffer@ =~= partial_payload@);
                Ok(
                    IncompleteTransfer {
                        storage,
                        performative: transfer,
                        buffer,
                        section_number: Some(number),
                        section_offset: offset,
                    },
                )
            },
            Err(source) => {
                storage.release(budget);
                Err(ReceiverTransferError::InvalidMessageEncoding(source))
            },
        }
    }

    /// Like the `|=` operator but works on the field level.
    ///
    /// A contradiction in number, tag or format is an error. What stands before it is taken down.
    pub fn or_assign(&mut self, other: Transfer) -> (result: Result<(), ReceiverTransferError>)
        ensures
            final(self).buffer == old(self).buffer,
            final(self).section_number == old(self).section_number,
            final(self).section_offset == old(self).section_offset,
            final(self).reserved() == old(self).reserved(),
            delivery_identity::same_identity(old(self).performative, other) ==> {
                &&& result == Ok::<(), ReceiverTransferError>(())
                &&& final(self).performative == merged(old(self).performative, other)
            },
            !delivery_identity::same_identity(old(self).performative, other) ==> {
                &&& result == Err::<(), ReceiverTransferError>(
                    ReceiverTransferError::InconsistentFieldInMultiFrameDelivery,
                )
                &&& final(self).performative == delivery_identity::identified(
                    old(self).performative,
                    other,
                )
            },
    {
        if !delivery_identity::fill_identity(&mut self.performative, &other) {
            return Err(ReceiverTransferError::InconsistentFieldInMultiFrameDelivery);
        }
        match self.performative.settled {
            Some(settled) => {
                if other.settled.is_some() && !settled {
                    self.performative.settled = other.settled;
                }
            },
            None => {
                self.performative.settled = other.settled;
            },
        }
        if other.state.is_some() && !is_settled_outcome(&self.performative.state) {
            self.performative.state = other.state;
        }
        Ok(())
    }

    /// Appends a payload and takes down where the retained bytes end now.
    ///
    /// A payload that does not fit the budget changes nothing. One that makes the bytes no
    /// beginning of a message is retained, with the position left as it was.
    pub fn append(&mut self, other: Payload, budget: &mut ReceiveBudget) -> (result: Result<
        (),
        ReceiverTransferError,
    >)
        requires
            old(self).stored(),
            old(self).reserved() <= old(budget).used(),
        ensures
            final(self).stored(),
            final(self).performative == old(self).performative,
            final(budget).limit() == old(budget).limit(),
            final(budget).used() == old(budget).used() - old(self).reserved() + final(self).reserved(),
            ({
                let bytes = old(self).buffer@ + other@;
                let fits = other@.len() == 0 || old(budget).used() + other@.len() <= old(budget).limit();
                match result {
                    Ok(()) => {
                        &&& fits
                        &&& final(self).buffer@ == bytes
                        &&& final(self).positioned()
                    },
                    Err(error) => {
                        &&& final(self).section_number == old(self).section_number
                        &&& final(self).section_offset == old(self).section_offset
                        &&& if fits {
                            &&& final(self).buffer@ == bytes
                            &&& message::position(bytes) matches Err(source)
                            &&& error == ReceiverTransferError::InvalidMessageEncoding(source)
                        } else {
                            &&& final(self).buffer@ == old(self).buffer@
                            &&& error == ReceiverTransferError::MessageSizeExceeded
                        }
                    },
                }
            }),
    {
        let size = match self.buffer.len().checked_add(other.len()) {
            Some(size) => size,
            None => return Err(ReceiverTransferError::MessageSizeExceeded),
        };
        if let Err(error) = self.storage.resize(budget, size) {
            return Err(error);
        }
        let ghost before = self.buffer@;
        if other.len() > 0 {
            self.buffer = joined(self.buffer.as_slice(), other.as_slice(), size);
        }
        assert(self.buffer@ =~= before + other@);
        match message::prefix_position(self.buffer.as_slice()) {
            Ok((number, offset)) => {
                self.section_number = Some(number);
                self.section_offset = offset;
                Ok(())
            },
            Err(source) => Err(ReceiverTransferError::InvalidMessageEncoding(source)),
        }
    }

    /// Cuts the retained bytes at a resumption point and gives the rest of the storage back.
    ///
    /// A point that lies outside the retained bytes or outside its section changes nothing.
    pub fn keep_buffer_till_section_number_and_offset(
        &mut self,
        number: u32,
        offset: u64,
        budget: &mut ReceiveBudget,
    ) -> (result: Result<(), ReceiverTransferError>)
        requires
            old(self).stored(),
            old(self).reserved() <= old(budget).used(),
        ensures
            final(self).stored(),
            final(self).performative == old(self).performative,
            final(budget).limit() == old(budget).limit(),
            final(budget).used() == old(budget).used() - old(self).reserved() + final(self).reserved(),
            match message::place(old(self).buffer@, number as nat, offset as nat) {
                Err(source) => {
                    &&& result == Err::<(), ReceiverTransferError>(
                        ReceiverTransferError::InvalidMessageEncoding(source),
                    )
                    &&& *final(self) == *old(self)
                },
                Ok(index) => {
                    &&& final(self).buffer@ == old(self).buffer@.take(index as int)
                    &&& match message::position(old(self).buffer@.take(index as int)) {
                        Ok(_) => result == Ok::<(), ReceiverTransferError>(()) && final(self).positioned(),
                        Err(source) => {
                            &&& result == Err::<(), ReceiverTransferError>(
                                ReceiverTransferError::InvalidMessageEncoding(source),
                            )
                            &&& final(self).section_number == old(self).section_number
                            &&& final(self).section_offset == old(self).section_offset
                        },
                    }
                },
            },
    {
        let index = match message::prefix_offset(self.buffer.as_slice(), number, offset) {
            Ok(index) => index,
            Err(source) => return Err(ReceiverTransferError::InvalidMessageEncoding(source)),
        };
        let ghost before = self.buffer@;
        if index < self.buffer.len() {
            let empty: Vec<u8> = Vec::new();
            let kept = &self.buffer.as_slice()[0..index];
            self.buffer = joined(kept, empty.as_slice(), index);
        }
        assert(self.buffer@ =~= before.take(index as int));
        if let Err(error) = self.storage.resize(budget, index) {
            return Err(error);
        }
        match message::prefix_position(self.buffer.as_slice()) {
            Ok((number, offset)) => {
                self.section_number = Some(number);
                self.section_offset = offset;
                Ok(())
            },
            Err(source) => Err(ReceiverTransferError::InvalidMessageEncoding(source)),
        }
    }

    /// Gives the storage of an aborted or completed delivery back, and hands its bytes out.
    pub fn into_parts(self, budget: &mut ReceiveBudget) -> (parts: (Transfer, Vec<u8>))
        requires
            self.reserved() <= old(budget).used(),
        ensures
            parts.0 == self.performative,
            parts.1 == self.buffer,
            final(budget).limit() == old(budget).limit(),
            final(budget).used() == old(budget).used() - self.reserved(),
    {
        self.storage.release(budget);
        (self.performative, self.buffer)
    }
}

/// After a successful attach, what was buffered of a delivery is kept only while the delivery is
/// still unsettled. Otherwise its bytes are dropped and their storage is given back, so that they
/// are never put before a redelivery.
pub fn retain_unsettled(
    part: Option<IncompleteTransfer>,
    unsettled: &Store<ReceiverDelivery>,
    budget: &mut ReceiveBudget,
) -> (kept: Option<IncompleteTransfer>)
    requires
        part matches Some(part) ==> part.reserved() <= old(budget).used(),
    ensures
        final(budget).limit() == old(budget).limit(),
        match part {
            None => kept is None && final(budget).used() == old(budget).used(),
            Some(part) => if part.performative.delivery_tag is Some && unsettled_store::holds(
                unsettled@.entries,
                part.performative.delivery_tag->0@,
            ) {
                kept == Some(part) && final(budget).used() == old(budget).used()
            } else {
                kept is None && final(budget).used() == old(budget).used() - part.reserved()
            },
        },
{
    match part {
        None => None,
        Some(part) => {
            let known = match &part.performative.delivery_tag {
                None => false,
                Some(tag) => unsettled.contains(tag),
            };
            if known {
                Some(part)
            } else {
                let _ = part.into_parts(budget);
                None
            }
        },
    }
}

/// A delivery that was sent settled stays so, and its terminal state is never altered, whatever
/// later transfers say.
pub proof fn law_settlement_and_outcome_are_kept(earlier: Transfer, later: Transfer)
    ensures
        earlier.settled == Some(true) ==> merged(earlier, later).settled == Some(true),
        definitions::settled_outcome(earlier.state) ==> merged(earlier, later).state
            == earlier.state,
{
}

/// Wherever a valid message is cut in two, the first part can be retained, and the second
/// completes it to the whole message.
pub proof fn law_fragments_restore_the_message(bytes: Seq<u8>, split: int)
    requires
        message::valid_message(bytes),
        0 <= split <= bytes.len(),
    ensures
        message::position(bytes.take(split)) is Ok,
        bytes.take(split) + bytes.skip(split) == bytes,
        message::position(bytes) == Ok::<(nat, nat), codec::Error>(
            (message_laws::section_codes(bytes, 0).len(), 0),
        ),
{
    message_laws::law_valid_messages_may_be_cut_anywhere(bytes, split);
    message_laws::law_valid_message_ends_on_a_boundary(bytes);
    assert(bytes.take(split) + bytes.skip(split) =~= bytes);
}

/// A valid message that is cut back to any of its resumption points can be retained, and what
/// stood after that point completes it to the whole message again.
pub proof fn law_recovery_restores_the_message(bytes: Seq<u8>, number: nat, offset: nat)
    requires
        message::valid_message(bytes),
        message::place(bytes, number, offset) is Ok,
    ensures
        ({
            let index = message::place(bytes, number, offset)->Ok_0 as int;
            &&& message::position(bytes.take(index)) is Ok
            &&& bytes.take(index) + bytes.skip(index) == bytes
        }),
{
    message_laws::law_places_are_retained(bytes, number, offset);
    law_fragments_restore_the_message(bytes, message::place(bytes, number, offset)->Ok_0 as int);
}

/// What two transfers of a delivery say together. It is settled if either says so, and nothing is
/// known of that only if neither says anything. The later state holds where there is one, unless
/// the earlier is an outcome. All else is what the earlier one says, its identity filled in.
pub proof fn law_transfers_are_merged(earlier: Transfer, later: Transfer)
    ensures
        ({
            let both = merged(earlier, later);
            &&& both.settled == Some(true) <==> earlier.settled == Some(true) || later.settled
                == Some(true)
            &&& both.settled is None <==> earlier.settled is None && later.settled is None
            &&& later.state is None || definitions::settled_outcome(earlier.state) ==> both.state
                == earlier.state
            &&& later.state is Some && !definitions::settled_outcome(earlier.state) ==> both.state
                == later.state
            &&& both.handle == earlier.handle
            &&& both.more == earlier.more
            &&& both.rcv_settle_mode == earlier.rcv_settle_mode
            &&& both.resume == earlier.resume
            &&& both.aborted == earlier.aborted
            &&& both.batchable == earlier.batchable
            &&& earlier.delivery_id is Some ==> both.delivery_id == earlier.delivery_id
            &&& earlier.delivery_tag is Some ==> both.delivery_tag == earlier.delivery_tag
            &&& earlier.message_format is Some ==> both.message_format == earlier.message_format
            &&& delivery_identity::same_identity(earlier, later) ==> {
                &&& earlier.delivery_id is None ==> both.delivery_id == later.delivery_id
                &&& earlier.delivery_tag is None ==> both.delivery_tag == later.delivery_tag
                &&& earlier.message_format is None ==> both.message_format
                    == later.message_format
            }
        }),
{
}

/// A transfer that says nothing changes nothing of what was said before.
pub proof fn law_silent_transfers_change_nothing(earlier: Transfer, later: Transfer)
    requires
        later.delivery_id is None,
        later.delivery_tag is None,
        later.message_format is None,
        later.settled is None,
        later.state is None,
    ensures
        delivery_identity::same_identity(earlier, later),
        merged(earlier, later) == earlier,
{
}

} // verus!
