//! An owned transaction: commit and rollback are explicit, and happen at most once.

use vstd::prelude::*;

use crate::definitions::{Declared, OutputHandle, TransactionId};
use crate::errors::ControllerSendError;

verus! {

/// The sending end of a control link. One that still has its handle detaches when it is dropped.
#[derive(Debug)]
pub struct ControlLink {
    /// What names the link here.
    pub output_handle: Option<OutputHandle>,
}

impl ControlLink {
    /// Whether dropping the link sends a detach.
    pub fn detaches_on_drop(&self) -> (detaches: bool)
        ensures
            detaches == (self.output_handle is Some),
    {
        self.output_handle.is_some()
    }
}

/// The message that ends a transaction.
#[derive(Debug)]
pub struct Discharge {
    /// The transaction.
    pub txn_id: TransactionId,
    /// Whether it is rolled back.
    pub fail: bool,
}

/// An owned transaction that has exclusive access to its own control link.
///
/// Dropping a transaction performs no discharge, detach, retry, or network I/O. Commit and
/// rollback are explicit operations. An interrupted discharge retains an unknown outcome and
/// cannot be implicitly repeated.
#[derive(Debug)]
pub struct OwnedTransaction {
    /// The control link.
    pub inner: ControlLink,
    /// The transaction.
    pub declared: Declared,
    /// Whether the discharge was confirmed.
    pub is_discharged: bool,
    /// Whether a discharge was started.
    pub discharge_started: bool,
}

/// A control link on which a transaction is being declared. It never detaches by itself, even if
/// the declaration is given up after it was sent.
#[derive(Debug)]
pub struct DeclaringLink {
    /// The link, until the transaction has it.
    pub inner: Option<ControlLink>,
}

impl DeclaringLink {
    /// Prepares the link to be dropped: where it is still here, it will not detach.
    pub fn abandon(&mut self)
        ensures
            final(self).inner == (match old(self).inner {
                None => None,
                Some(_) => Some(ControlLink { output_handle: None }),
            }),
    {
        if self.inner.is_some() {
            self.inner = Some(ControlLink { output_handle: None });
        }
    }
}

impl OwnedTransaction {
    /// The transaction that was declared on a control link. If none was, the link is handed back
    /// as it is to be dropped.
    pub fn declare_with_controller<E>(controller: ControlLink, declared: Result<Declared, E>) -> (
    result: Result<OwnedTransaction, (E, DeclaringLink)>)
        ensures
            match declared {
                Ok(declared) => result == Ok::<OwnedTransaction, (E, DeclaringLink)>(
                    OwnedTransaction {
                        inner: controller,
                        declared,
                        is_discharged: false,
                        discharge_started: false,
                    },
                ),
                Err(error) => result == Err::<OwnedTransaction, (E, DeclaringLink)>(
                    (
                        error,
                        DeclaringLink { inner: Some(ControlLink { output_handle: None }) },
                    ),
                ),
            },
    {
        match declared {
            Ok(declared) => Ok(
                OwnedTransaction {
                    inner: controller,
                    declared,
                    is_discharged: false,
                    discharge_started: false,
                },
            ),
            Err(error) => {
                let mut pending = DeclaringLink { inner: Some(controller) };
                pending.abandon();
                Err((error, pending))
            },
        }
    }

    /// The transaction.
    pub fn txn_id(&self) -> (txn_id: &TransactionId)
        ensures
            *txn_id == self.declared.txn_id,
    {
        &self.declared.txn_id
    }

    /// Whether the discharge was confirmed.
    pub fn is_discharged(&self) -> (discharged: bool)
        ensures
            discharged == self.is_discharged,
    {
        self.is_discharged
    }

    /// True when the one explicit discharge has no confirmed result.
    pub fn discharge_outcome_unknown(&self) -> (unknown: bool)
        ensures
            unknown == (self.discharge_started && !self.is_discharged),
    {
        self.discharge_started && !self.is_discharged
    }

    /// Starts the discharge of the transaction. One that was discharged needs none, and one whose
    /// discharge was started before is not discharged again: its outcome is unknown.
    pub fn discharge(&mut self, fail: bool) -> (result: Result<
        Option<Discharge>,
        ControllerSendError,
    >)
        ensures
            *final(self) == discharge_begun(*old(self)),
            result == (if old(self).is_discharged {
                Ok::<Option<Discharge>, ControllerSendError>(None)
            } else if old(self).discharge_started {
                Err(ControllerSendError::DischargeOutcomeUnknown)
            } else {
                Ok(Some(Discharge { txn_id: old(self).declared.txn_id, fail }))
            }),
    {
        if self.is_discharged {
            return Ok(None);
        }
        if self.discharge_started {
            return Err(ControllerSendError::DischargeOutcomeUnknown);
        }
        self.discharge_started = true;
        Ok(Some(Discharge { txn_id: self.declared.txn_id.clone(), fail }))
    }

    /// Takes the result of the discharge. Without one, or with an error, the outcome stays unknown.
    pub fn discharged<E>(&mut self, result: Result<(), E>) -> (reported: Result<(), E>)
        ensures
            reported == result,
            *final(self) == discharge_answered(*old(self), result is Ok),
    {
        if result.is_ok() {
            self.is_discharged = true;
        }
        result
    }

    /// Starts to roll the transaction back.
    pub fn rollback(&mut self) -> (result: Result<Option<Discharge>, ControllerSendError>)
        ensures
            *final(self) == discharge_begun(*old(self)),
            result == (if old(self).is_discharged {
                Ok::<Option<Discharge>, ControllerSendError>(None)
            } else if old(self).discharge_started {
                Err(ControllerSendError::DischargeOutcomeUnknown)
            } else {
                Ok(Some(Discharge { txn_id: old(self).declared.txn_id, fail: true }))
            }),
    {
        self.discharge(true)
    }

    /// Starts to commit the transaction.
    pub fn commit(&mut self) -> (result: Result<Option<Discharge>, ControllerSendError>)
        ensures
            *final(self) == discharge_begun(*old(self)),
            result == (if old(self).is_discharged {
                Ok::<Option<Discharge>, ControllerSendError>(None)
            } else if old(self).discharge_started {
                Err(ControllerSendError::DischargeOutcomeUnknown)
            } else {
                Ok(Some(Discharge { txn_id: old(self).declared.txn_id, fail: false }))
            }),
    {
        self.discharge(false)
    }

    /// True when the one explicit discharge has no confirmed result.
    pub open spec fn discharge_outcome_is_unknown(self) -> bool {
        self.discharge_started && !self.is_discharged
    }

    /// Prepares the transaction to be dropped: its control link will not detach, so that the
    /// transaction at the peer is not closed as an implicit cleanup.
    pub fn abandon(&mut self)
        ensures
            *final(self) == (OwnedTransaction {
                inner: ControlLink { output_handle: None },
                ..*old(self)
            }),
    {
        self.inner.output_handle = None;
    }
}

/// A transaction once its discharge was started, where it may be.
pub open spec fn discharge_begun(transaction: OwnedTransaction) -> OwnedTransaction {
    if transaction.is_discharged || transaction.discharge_started {
        transaction
    } else {
        OwnedTransaction { discharge_started: true, ..transaction }
    }
}

/// A transaction once the result of its discharge came, where it did.
pub open spec fn discharge_answered(transaction: OwnedTransaction, confirmed: bool) -> OwnedTransaction {
    if confirmed {
        OwnedTransaction { is_discharged: true, ..transaction }
    } else {
        transaction
    }
}

/// A transaction is discharged at most once: once a discharge was started, none is sent again,
/// whether its result came or not, and without a result the outcome stays unknown.
pub proof fn law_discharge_is_never_repeated(transaction: OwnedTransaction, confirmed: bool)
    ensures
        ({
            let begun = discharge_begun(transaction);
            let answered = discharge_answered(begun, confirmed);
            &&& discharge_begun(begun) == begun
            &&& discharge_begun(answered) == answered
            &&& !transaction.is_discharged && !confirmed ==> answered.discharge_outcome_is_unknown()
            &&& confirmed ==> !answered.discharge_outcome_is_unknown()
        }),
{
}

/// A discharge is started exactly if none was before and none was confirmed, and starting it
/// changes nothing else; nor does its confirmation, without which nothing changes.
pub proof fn law_discharges_are_taken_down(transaction: OwnedTransaction)
    ensures
        ({
            let begun = discharge_begun(transaction);
            &&& begun.discharge_started == (transaction.discharge_started
                || !transaction.is_discharged)
            &&& begun.is_discharged == transaction.is_discharged
            &&& begun.inner == transaction.inner
            &&& begun.declared == transaction.declared
        }),
        ({
            let answered = discharge_answered(transaction, true);
            &&& answered.is_discharged
            &&& answered.discharge_started == transaction.discharge_started
            &&& answered.inner == transaction.inner
            &&& answered.declared == transaction.declared
        }),
        discharge_answered(transaction, false) == transaction,
        transaction.discharge_outcome_is_unknown() <==> transaction.discharge_started
            && !transaction.is_discharged,
{
}

} // verus!
