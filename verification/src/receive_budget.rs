//! Shared native storage bound for incomplete messages across receiving links.

use vstd::prelude::*;

use crate::errors::ReceiverTransferError;

verus! {

/// A bound on simultaneously retained message fragments, not on total traffic.
///
/// One budget is shared by all receivers that belong to the same connection.
#[derive(Debug)]
pub struct ReceiveBudget {
    maximum: usize,
    used: usize,
}

/// Bytes that are retained on a budget. They are to be released on the budget they are taken from.
#[derive(Debug)]
pub struct Reservation {
    size: usize,
}

impl ReceiveBudget {
    #[verifier::type_invariant]
    spec fn bounded(self) -> bool {
        self.used <= self.maximum
    }

    /// The greatest number of bytes that may be retained.
    pub closed spec fn limit(&self) -> usize {
        self.maximum
    }

    /// The number of bytes that are retained.
    pub closed spec fn used(&self) -> usize {
        self.used
    }

    /// Create a native fragment-storage budget.
    pub fn new(maximum: usize) -> (budget: Self)
        ensures
            budget.limit() == maximum,
            budget.used() == 0,
    {
        ReceiveBudget { maximum, used: 0 }
    }

    /// Current retained encoded bytes.
    pub fn retained_bytes(&self) -> (bytes: usize)
        ensures
            bytes == self.used(),
            bytes <= self.limit(),
    {
        proof {
            use_type_invariant(self);
        }
        self.used
    }

    /// Reserves `size` bytes, where they still fit.
    pub fn reserve(&mut self, size: usize) -> (result: Result<Reservation, ReceiverTransferError>)
        ensures
            final(self).limit() == old(self).limit(),
            match result {
                Ok(reservation) => {
                    &&& old(self).used() + size <= old(self).limit()
                    &&& reservation.held() == size
                    &&& final(self).used() == old(self).used() + size
                },
                Err(error) => {
                    &&& old(self).used() + size > old(self).limit()
                    &&& error == ReceiverTransferError::MessageSizeExceeded
                    &&& final(self).used() == old(self).used()
                },
            },
    {
        let mut reservation = Reservation { size: 0 };
        proof {
            use_type_invariant(&*self);
        }
        match reservation.resize(self, size) {
            Ok(()) => Ok(reservation),
            Err(error) => Err(error),
        }
    }
}

impl Reservation {
    /// How many bytes are reserved.
    pub closed spec fn held(&self) -> nat {
        self.size as nat
    }

    /// How many bytes are reserved.
    pub fn size(&self) -> (size: usize)
        ensures
            size == self.held(),
    {
        self.size
    }

    /// Grows or shrinks the reservation. Growth that does not fit changes nothing.
    pub fn resize(&mut self, budget: &mut ReceiveBudget, size: usize) -> (result: Result<
        (),
        ReceiverTransferError,
    >)
        requires
            old(self).held() <= old(budget).used(),
        ensures
            final(budget).limit() == old(budget).limit(),
            match result {
                Ok(()) => {
                    &&& size <= old(self).held() || old(budget).used() - old(self).held() + size
                        <= old(budget).limit()
                    &&& final(self).held() == size
                    &&& final(budget).used() == old(budget).used() - old(self).held() + size
                },
                Err(error) => {
                    &&& size > old(self).held()
                    &&& old(budget).used() - old(self).held() + size > old(budget).limit()
                    &&& error == ReceiverTransferError::MessageSizeExceeded
                    &&& *final(self) == *old(self)
                    &&& final(budget).used() == old(budget).used()
                },
            },
    {
        proof {
            use_type_invariant(&*budget);
        }
        if size > self.size {
            let extra = size - self.size;
            match budget.used.checked_add(extra) {
                Some(next) => {
                    if next > budget.maximum {
                        return Err(ReceiverTransferError::MessageSizeExceeded);
                    }
                    budget.used = next;
                },
                None => {
                    return Err(ReceiverTransferError::MessageSizeExceeded);
                },
            }
        } else {
            budget.used = budget.used - (self.size - size);
        }
        self.size = size;
        Ok(())
    }

    /// Gives the reserved bytes back.
    pub fn release(self, budget: &mut ReceiveBudget)
        requires
            self.held() <= old(budget).used(),
        ensures
            final(budget).limit() == old(budget).limit(),
            final(budget).used() == old(budget).used() - self.held(),
    {
        proof {
            use_type_invariant(&*budget);
        }
        budget.used = budget.used - self.size;
    }
}

/// The bytes that reservations hold together.
pub open spec fn total(reservations: Seq<Reservation>) -> nat
    decreases reservations.len(),
{
    if reservations.len() == 0 {
        0
    } else {
        total(reservations.drop_last()) + reservations.last().held()
    }
}

/// A budget whose used bytes are those of its reservations, no more and no less.
pub open spec fn accounts_for(budget: ReceiveBudget, reservations: Seq<Reservation>) -> bool {
    budget.used() == total(reservations)
}

proof fn lemma_total_update(reservations: Seq<Reservation>, at: int, now: Reservation)
    requires
        0 <= at < reservations.len(),
    ensures
        total(reservations.update(at, now)) == total(reservations) - reservations[at].held()
            + now.held(),
        reservations[at].held() <= total(reservations),
    decreases reservations.len(),
{
    let after = reservations.update(at, now);
    if at == reservations.len() - 1 {
        assert(after.drop_last() =~= reservations.drop_last());
    } else {
        lemma_total_update(reservations.drop_last(), at, now);
        assert(after.drop_last() =~= reservations.drop_last().update(at, now));
    }
}

/// Every reservation lies within what its budget has used, so that it can be resized or released.
pub proof fn law_reservations_are_covered(
    budget: ReceiveBudget,
    reservations: Seq<Reservation>,
    at: int,
)
    requires
        accounts_for(budget, reservations),
        0 <= at < reservations.len(),
    ensures
        reservations[at].held() <= budget.used(),
{
    lemma_total_update(reservations, at, reservations[at]);
}

/// Bytes that are reserved are accounted for: the budget goes on to account for its reservations
/// and the one that was obtained.
pub proof fn law_reserve_conserves(
    before: ReceiveBudget,
    after: ReceiveBudget,
    reservations: Seq<Reservation>,
    obtained: Reservation,
)
    requires
        accounts_for(before, reservations),
        after.used() == before.used() + obtained.held(),
    ensures
        accounts_for(after, reservations.push(obtained)),
{
    assert(reservations.push(obtained).drop_last() =~= reservations);
}

/// Capacity is neither lost nor leaked by a resize: whatever it changes, the budget goes on to
/// account for all of its reservations.
pub proof fn law_resize_conserves(
    before: ReceiveBudget,
    after: ReceiveBudget,
    reservations: Seq<Reservation>,
    at: int,
    now: Reservation,
)
    requires
        accounts_for(before, reservations),
        0 <= at < reservations.len(),
        after.used() == before.used() - reservations[at].held() + now.held(),
    ensures
        accounts_for(after, reservations.update(at, now)),
{
    lemma_total_update(reservations, at, now);
}

/// Released bytes are available again: the budget goes on to account for the others.
pub proof fn law_release_conserves(
    before: ReceiveBudget,
    after: ReceiveBudget,
    reservations: Seq<Reservation>,
    at: int,
)
    requires
        accounts_for(before, reservations),
        0 <= at < reservations.len(),
        after.used() == before.used() - reservations[at].held(),
    ensures
        accounts_for(after, reservations.remove(at)),
{
    lemma_total_remove(reservations, at);
}

proof fn lemma_total_remove(reservations: Seq<Reservation>, at: int)
    requires
        0 <= at < reservations.len(),
    ensures
        total(reservations.remove(at)) == total(reservations) - reservations[at].held(),
    decreases reservations.len(),
{
    let after = reservations.remove(at);
    if at == reservations.len() - 1 {
        assert(after =~= reservations.drop_last());
    } else {
        lemma_total_remove(reservations.drop_last(), at);
        assert(after.drop_last() =~= reservations.drop_last().remove(at));
        assert(after.last() == reservations.last());
    }
}

/// A budget without reservations has nothing in use.
pub proof fn law_all_released_is_empty(budget: ReceiveBudget)
    requires
        accounts_for(budget, seq![]),
    ensures
        budget.used() == 0,
{
}

} // verus!
