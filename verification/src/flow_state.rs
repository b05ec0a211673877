//! The credit of a link.

use vstd::prelude::*;

use crate::definitions::{Fields, SequenceNo};
use crate::errors::ReceiverTransferError;

verus! {

/// The flow state of one end of a link.
#[derive(Debug)]
pub struct LinkFlowState {
    /// The delivery count with which the sender started.
    pub initial_delivery_count: SequenceNo,
    /// How many deliveries were sent. It wraps.
    pub delivery_count: SequenceNo,
    /// How many more deliveries may be sent.
    pub link_credit: u32,
    /// How many deliveries wait at the sender.
    pub available: u32,
    /// Whether credit is to be used up.
    pub drain: bool,
    /// Link state properties.
    pub properties: Option<Fields>,
}

/// A sequence number `count` further on. Sequence numbers wrap.
pub open spec fn advanced(number: SequenceNo, count: u32) -> SequenceNo {
    ((number + count) % 0x1_0000_0000) as u32
}

impl LinkFlowState {
    /// The flow state once `count` deliveries came in.
    pub open spec fn consumed(self, count: u32) -> Self {
        LinkFlowState {
            delivery_count: advanced(self.delivery_count, count),
            link_credit: (self.link_credit - count) as u32,
            ..self
        }
    }

    /// Counts deliveries that came in. There must be credit for them.
    pub fn consume(&mut self, count: u32) -> (result: Result<(), ReceiverTransferError>)
        ensures
            old(self).link_credit >= count ==> {
                &&& result == Ok::<(), ReceiverTransferError>(())
                &&& *final(self) == old(self).consumed(count)
            },
            old(self).link_credit < count ==> {
                &&& result == Err::<(), ReceiverTransferError>(
                    ReceiverTransferError::TransferLimitExceeded,
                )
                &&& *final(self) == *old(self)
            },
    {
        if self.link_credit < count {
            return Err(ReceiverTransferError::TransferLimitExceeded);
        }
        self.delivery_count = self.delivery_count.wrapping_add(count);
        self.link_credit = self.link_credit - count;
        Ok(())
    }
}

/// Numbers wrap: going on by two counts is going on by their sum, a number goes on by one to the
/// next, and the greatest one to zero.
pub proof fn law_numbers_go_on(number: SequenceNo, one: u32, other: u32)
    requires
        one + other <= u32::MAX,
    ensures
        advanced(number, 0) == number,
        number < u32::MAX ==> advanced(number, 1) == number + 1,
        advanced(u32::MAX, 1) == 0,
        advanced(advanced(number, one), other) == advanced(number, (one + other) as u32),
        one > 0 ==> advanced(number, one) != number,
        number + one <= u32::MAX ==> advanced(number, one) == number + one,
        number + one > u32::MAX ==> advanced(number, one) == number + one - 0x1_0000_0000,
{
}

/// Deliveries that came in are counted, and use up as much credit. Nothing else of the flow state
/// changes.
pub proof fn law_deliveries_use_credit(flow: LinkFlowState, count: u32)
    requires
        flow.link_credit >= count,
    ensures
        ({
            let after = flow.consumed(count);
            &&& after.link_credit + count == flow.link_credit
            &&& (after.delivery_count - flow.delivery_count) % 0x1_0000_0000 == count
            &&& after.initial_delivery_count == flow.initial_delivery_count
            &&& after.available == flow.available
            &&& after.drain == flow.drain
            &&& after.properties == flow.properties
        }),
{
}

} // verus!
