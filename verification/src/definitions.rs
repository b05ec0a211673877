//! The plain values that the protocol engine reads and hands on.

use std::sync::Arc;

use vstd::prelude::*;

use crate::ordered_map::{MapKey, OrderedMap};

verus! {

/// A string of bytes that is cheap to share: a delivery tag, a transaction id or a symbol.
#[derive(Debug)]
pub struct Binary {
    bytes: Arc<Vec<u8>>,
}

impl View for Binary {
    type V = Seq<u8>;

    closed spec fn view(&self) -> Seq<u8> {
        self.bytes@
    }
}

impl Binary {
    /// Holds `bytes`.
    pub fn new(bytes: Vec<u8>) -> (binary: Self)
        ensures
            binary@ == bytes@,
    {
        Binary { bytes: Arc::new(bytes) }
    }

    /// The UTF-8 bytes of a text.
    pub fn from_text(text: &str) -> (binary: Self)
        ensures
            binary@ == vstd::utf8::encode_utf8(text@),
    {
        let mut bytes: Vec<u8> = Vec::new();
        bytes.extend_from_slice(text.as_bytes());
        assert(bytes@ =~= vstd::utf8::encode_utf8(text@));
        Binary::new(bytes)
    }

    /// How many bytes are held.
    pub fn len(&self) -> (len: usize)
        ensures
            len == self@.len(),
    {
        self.bytes.len()
    }

    /// The bytes held.
    pub fn as_slice(&self) -> (bytes: &[u8])
        ensures
            bytes@ == self@,
    {
        self.bytes.as_slice()
    }
}

impl MapKey for Binary {
    fn same(&self, other: &Self) -> (same: bool) {
        let length = self.bytes.len();
        if length != other.bytes.len() {
            return false;
        }
        let mut i: usize = 0;
        while i < length
            invariant
                i <= length == self@.len() == other@.len(),
                forall|j: int| 0 <= j < i ==> self@[j] == other@[j],
            decreases length - i,
        {
            if self.bytes[i] != other.bytes[i] {
                return false;
            }
            i += 1;
        }
        assert(self@ =~= other@);
        true
    }
}

impl Clone for Binary {
    fn clone(&self) -> (copy: Self)
        ensures
            copy == *self,
    {
        Binary { bytes: Arc::clone(&self.bytes) }
    }
}

impl PartialEq for Binary {
    fn eq(&self, other: &Self) -> (same: bool) {
        self.same(other)
    }
}

impl vstd::std_specs::cmp::PartialEqSpecImpl for Binary {
    open spec fn obeys_eq_spec() -> bool {
        true
    }

    open spec fn eq_spec(&self, other: &Self) -> bool {
        self@ == other@
    }
}

/// What a sender calls a delivery.
pub type DeliveryTag = Binary;

/// What a coordinator calls a transaction.
pub type TransactionId = Binary;

/// A symbolic name.
pub type Symbol = Binary;

/// What a session calls a delivery. It counts up and wraps.
pub type DeliveryNumber = u32;

/// What a session calls a transfer. It counts up and wraps.
pub type TransferNumber = u32;

/// A number that counts up and wraps.
pub type SequenceNo = u32;

/// The message bytes that one transfer carries.
pub type Payload = Vec<u8>;

/// A property value. Only binary values are read; others are kept as they are encoded.
#[derive(Debug)]
pub enum Value {
    /// A binary value.
    Binary(Binary),
    /// The encoding of a value of any other type.
    Encoded(Binary),
}

impl Clone for Value {
    fn clone(&self) -> (copy: Self)
        ensures
            copy == *self,
    {
        match self {
            Value::Binary(bytes) => Value::Binary(bytes.clone()),
            Value::Encoded(bytes) => Value::Encoded(bytes.clone()),
        }
    }
}

/// Properties by name, shared.
pub type Fields = Arc<OrderedMap<Symbol, Value>>;

/// The same properties once more.
pub fn share_fields(fields: &Option<Fields>) -> (copy: Option<Fields>)
    ensures
        copy == *fields,
{
    match fields {
        None => None,
        Some(fields) => Some(Arc::clone(fields)),
    }
}

/// The same bytes once more.
pub fn share_binary(binary: &Option<Binary>) -> (copy: Option<Binary>)
    ensures
        copy == *binary,
{
    match binary {
        None => None,
        Some(binary) => Some(binary.clone()),
    }
}

/// Which end of a link.
#[derive(Debug, Clone, Copy, PartialEq, Eq, Structural)]
pub enum Role {
    /// The sending end.
    Sender,
    /// The receiving end.
    Receiver,
}

/// Whether a sender settles its deliveries.
#[derive(Debug, Clone, Copy, PartialEq, Eq, Structural)]
pub enum SenderSettleMode {
    /// All deliveries are sent unsettled.
    Unsettled,
    /// All deliveries are sent settled.
    Settled,
    /// Either.
    Mixed,
}

/// When a receiver settles its deliveries.
#[derive(Debug, Clone, Copy, PartialEq, Eq, Structural)]
pub enum ReceiverSettleMode {
    /// As soon as they arrive.
    First,
    /// Once the sender has settled.
    Second,
}

/// What names a link at either end.
#[derive(Debug, Clone, Copy, PartialEq, Eq, Structural)]
pub struct Handle(pub u32);

/// What names a link at the local end.
#[derive(Debug, Clone, Copy, PartialEq, Eq, Structural)]
pub struct OutputHandle(pub u32);

/// What names a link at the remote end.
#[derive(Debug, Clone, Copy, PartialEq, Eq, Structural)]
pub struct InputHandle(pub u32);

/// The channel on which a session sends.
#[derive(Debug, Clone, Copy, PartialEq, Eq, Structural)]
pub struct OutgoingChannel(pub u16);

/// The channel on which the peer of a session sends.
#[derive(Debug, Clone, Copy, PartialEq, Eq, Structural)]
pub struct IncomingChannel(pub u16);

/// Why an endpoint was ended, as it stands on the wire.
#[derive(Debug)]
pub struct Error {
    /// The symbolic condition.
    pub condition: Symbol,
    /// More about it.
    pub description: Option<String>,
    /// Supplementary information.
    pub info: Option<Fields>,
}

/// How far a delivery was received.
#[derive(Debug, Clone, Copy, PartialEq, Eq, Structural)]
pub struct Received {
    /// The section at which the received bytes end.
    pub section_number: u32,
    /// The byte within that section.
    pub section_offset: u64,
}

/// How a delivery was rejected.
#[derive(Debug)]
pub struct Rejected {
    /// Why, where the peer says so.
    pub error: Option<Arc<Error>>,
}

/// How a delivery was modified.
#[derive(Debug)]
pub struct Modified {
    /// Whether the attempt counts as a failure.
    pub delivery_failed: Option<bool>,
    /// Whether the message can be delivered on this link at all.
    pub undeliverable_here: Option<bool>,
    /// Annotations to be merged.
    pub message_annotations: Option<Fields>,
}

/// The outcome of the declaration of a transaction.
#[derive(Debug)]
pub struct Declared {
    /// The transaction.
    pub txn_id: TransactionId,
}

/// The state of a delivery within a transaction.
#[derive(Debug)]
pub struct TransactionalState {
    /// The transaction.
    pub txn_id: TransactionId,
    /// The encoding of the outcome that applies if the transaction is discharged.
    pub outcome: Option<Binary>,
}

/// The state of a delivery at one end of a link.
#[derive(Debug)]
pub enum DeliveryState {
    /// Processed.
    Accepted,
    /// Invalid and unprocessable.
    Rejected(Rejected),
    /// Not processed.
    Released,
    /// Not processed, and changed.
    Modified(Modified),
    /// Received so far.
    Received(Received),
    /// The transaction that the message asked for was declared.
    Declared(Declared),
    /// Part of a transaction.
    TransactionalState(TransactionalState),
}

impl DeliveryState {
    /// Whether no later state may follow.
    pub open spec fn terminal(self) -> bool {
        !(self is Received || self is TransactionalState)
    }

    /// Whether no later state may follow.
    pub fn is_terminal(&self) -> (terminal: bool)
        ensures
            terminal == self.terminal(),
    {
        !matches!(self, DeliveryState::Received(_) | DeliveryState::TransactionalState(_))
    }
}

impl Clone for DeliveryState {
    fn clone(&self) -> (copy: Self)
        ensures
            copy == *self,
    {
        match self {
            DeliveryState::Accepted => DeliveryState::Accepted,
            DeliveryState::Rejected(rejected) => DeliveryState::Rejected(
                Rejected {
                    error: match &rejected.error {
                        None => None,
                        Some(error) => Some(Arc::clone(error)),
                    },
                },
            ),
            DeliveryState::Released => DeliveryState::Released,
            DeliveryState::Modified(modified) => DeliveryState::Modified(
                Modified {
                    delivery_failed: modified.delivery_failed,
                    undeliverable_here: modified.undeliverable_here,
                    message_annotations: share_fields(&modified.message_annotations),
                },
            ),
            DeliveryState::Received(received) => DeliveryState::Received(*received),
            DeliveryState::Declared(declared) => DeliveryState::Declared(
                Declared { txn_id: declared.txn_id.clone() },
            ),
            DeliveryState::TransactionalState(state) => DeliveryState::TransactionalState(
                TransactionalState {
                    txn_id: state.txn_id.clone(),
                    outcome: share_binary(&state.outcome),
                },
            ),
        }
    }
}

/// The same state once more.
pub fn share_state(state: &Option<DeliveryState>) -> (copy: Option<DeliveryState>)
    ensures
        copy == *state,
{
    match state {
        None => None,
        Some(state) => Some(state.clone()),
    }
}

/// Whether a state is known and no later one may follow.
pub open spec fn settled_outcome(state: Option<DeliveryState>) -> bool {
    state matches Some(state) && state.terminal()
}

/// Whether a state is known and no later one may follow.
pub fn is_settled_outcome(state: &Option<DeliveryState>) -> (terminal: bool)
    ensures
        terminal == settled_outcome(*state),
{
    match state {
        None => false,
        Some(state) => state.is_terminal(),
    }
}

/// An outcome is one of five states. What was received so far, and what belongs to a transaction,
/// may still change, and no state at all is none.
pub proof fn law_outcomes_are_terminal(state: DeliveryState)
    ensures
        settled_outcome(Some(state)) <==> {
            ||| state is Accepted
            ||| state is Rejected
            ||| state is Released
            ||| state is Modified
            ||| state is Declared
        },
        !settled_outcome(None),
{
}

} // verus!
