//! Per-link resumed-transfer identity; an unknown resume never turns into a new delivery.

use vstd::prelude::*;

use crate::delivery_identity;
use crate::errors::RecvError;
use crate::performatives::Transfer;

verus! {

/// What is done with the transfers of a resumed delivery.
#[derive(Clone, Copy, Debug, PartialEq, Eq, Structural)]
pub enum Kind {
    /// They are ignored.
    Ignore,
    /// Their state is taken.
    StateOnly,
    /// Their payload is taken.
    Payload,
}

/// The resumed delivery whose transfers are still coming in.
#[derive(Debug)]
pub struct IncomingRecovery {
    /// Its first transfer, and what is done with it.
    pub active: Option<(Transfer, Kind)>,
}

/// Whether a transfer is the last of its delivery.
pub open spec fn ends_delivery(transfer: Transfer) -> bool {
    !transfer.more || transfer.aborted
}

impl Default for IncomingRecovery {
    fn default() -> (recovery: Self)
        ensures
            recovery.active is None,
    {
        IncomingRecovery { active: None }
    }
}

impl IncomingRecovery {
    /// Forgets the resumed delivery.
    pub fn reset(&mut self)
        ensures
            final(self).active is None,
    {
        self.active = None;
    }

    /// Recognises a further transfer of the resumed delivery and fills in the identity that it
    /// leaves out. The last transfer ends the recovery.
    ///
    /// A transfer that contradicts the identity is an error, and the recovery goes on. What stands
    /// before the contradiction is filled in by then.
    pub fn continuation(&mut self, transfer: &mut Transfer) -> (result: Result<
        Option<Kind>,
        RecvError,
    >)
        ensures
            match old(self).active {
                None => {
                    &&& result == Ok::<Option<Kind>, RecvError>(None)
                    &&& *final(self) == *old(self)
                    &&& *final(transfer) == *old(transfer)
                },
                Some((first, kind)) => {
                    &&& *final(transfer) == delivery_identity::identified(*old(transfer), first)
                    &&& delivery_identity::same_identity(*old(transfer), first) ==> {
                        &&& result == Ok::<Option<Kind>, RecvError>(Some(kind))
                        &&& final(self).active == (if ends_delivery(*old(transfer)) {
                            None
                        } else {
                            old(self).active
                        })
                    }
                    &&& !delivery_identity::same_identity(*old(transfer), first) ==> {
                        &&& result == Err::<Option<Kind>, RecvError>(
                            RecvError::InconsistentFieldInMultiFrameDelivery,
                        )
                        &&& *final(self) == *old(self)
                    }
                },
            },
    {
        let kind = match &self.active {
            None => {
                return Ok(None);
            },
            Some((first, kind)) => {
                if !delivery_identity::fill_identity(transfer, first) {
                    return Err(RecvError::InconsistentFieldInMultiFrameDelivery);
                }
                *kind
            },
        };
        if !transfer.more || transfer.aborted {
            self.active = None;
        }
        Ok(Some(kind))
    }

    /// Takes down a resumed delivery of which more transfers follow.
    pub fn start(&mut self, transfer: &Transfer, kind: Kind)
        ensures
            final(self).active == (if ends_delivery(*transfer) {
                old(self).active
            } else {
                Some((*transfer, kind))
            }),
    {
        if transfer.more && !transfer.aborted {
            self.active = Some((transfer.clone(), kind));
        }
    }
}

/// Every transfer of a resumed delivery is recognised, whatever its own resume flag says, until
/// the last one; that one ends the recovery, and transfers after it are strangers again.
pub proof fn law_recovery_covers_the_delivery(first: Transfer, next: Transfer)
    requires
        delivery_identity::same_identity(next, first),
    ensures
        delivery_identity::same_identity((Transfer { resume: !next.resume, ..next }), first),
        delivery_identity::identified((Transfer { resume: !next.resume, ..next }), first) == (Transfer {
            resume: !next.resume,
            ..delivery_identity::identified(next, first)
        }),
        ends_delivery((Transfer { resume: !next.resume, ..next })) == ends_delivery(next),
{
}

/// A recognised transfer carries the identity of the resumed delivery in full.
pub proof fn law_continuations_carry_the_identity(first: Transfer, next: Transfer)
    requires
        delivery_identity::same_identity(next, first),
    ensures
        first.delivery_id is Some ==> delivery_identity::identified(next, first).delivery_id == first.delivery_id,
        first.delivery_tag is Some ==> {
            &&& delivery_identity::identified(next, first).delivery_tag is Some
            &&& delivery_identity::identified(next, first).delivery_tag->0@ == first.delivery_tag->0@
        },
        first.message_format is Some ==> delivery_identity::identified(next, first).message_format
            == first.message_format,
        delivery_identity::same_identity(delivery_identity::identified(next, first), first),
{
}

/// A delivery is over with its last transfer: the one that no more follow, or that gives it up.
pub proof fn law_last_transfers_end_the_delivery(transfer: Transfer)
    ensures
        ends_delivery(transfer) <==> !(transfer.more && !transfer.aborted),
{
}

} // verus!
