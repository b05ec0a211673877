//! Bound encoded transfers while a peer closes its session receive window.
//! Waiting publishers retain their own input; the session driver keeps running.

use std::sync::Arc;

use tokio::sync::mpsc::{self, Receiver as QueueReceiver, Sender as QueueSender};
use tokio::sync::{OwnedSemaphorePermit, Semaphore};

use vstd::prelude::*;

use crate::frame::LinkFrame;

verus! {

/// How many bytes of encoded transfers a queue retains.
pub const RETAINED_BYTES: usize = 33554432;

/// What is counted for a transfer beside its payload.
pub const TRANSFER_OVERHEAD: usize = 1024;

/// The sending half of a bounded queue.
#[verifier::external_type_specification]
#[verifier::external_body]
#[verifier::reject_recursive_types(T)]
pub struct ExQueueSender<T>(QueueSender<T>);

/// The receiving half of a bounded queue.
#[verifier::external_type_specification]
#[verifier::external_body]
#[verifier::reject_recursive_types(T)]
pub struct ExQueueReceiver<T>(QueueReceiver<T>);

/// A counter of permits that are lent out and come back.
#[verifier::external_type_specification]
#[verifier::external_body]
pub struct ExSemaphore(Semaphore);

/// Permits that are lent out until they are dropped.
#[verifier::external_type_specification]
#[verifier::external_body]
pub struct ExOwnedSemaphorePermit(OwnedSemaphorePermit);

/// The bytes that are reserved for a transfer until it is sent or dropped.
#[derive(Debug)]
pub struct QueueSlot {
    /// What keeps them reserved.
    pub permit: OwnedSemaphorePermit,
    /// How many they are.
    pub permits: usize,
}

/// A frame that was not taken.
#[derive(Debug)]
pub enum TrySendError {
    /// There is no room for it now.
    Full(LinkFrame),
    /// Nobody receives any more.
    Closed(LinkFrame),
}

/// How many frames a queue was made for.
pub uninterp spec fn queue_capacity(tx: QueueSender<LinkFrame>) -> nat;

/// The sending half whose frames a receiving half takes out.
pub uninterp spec fn fed_by(rx: QueueReceiver<LinkFrame>) -> QueueSender<LinkFrame>;

/// How many permits a semaphore was made with.
pub uninterp spec fn permits_lent_from(semaphore: Semaphore) -> nat;

/// The semaphore to which permits go back.
pub uninterp spec fn lender(permit: OwnedSemaphorePermit) -> Semaphore;

/// Opens a bounded queue by `tokio::sync::mpsc::channel`, which asserts that the capacity is
/// neither zero nor above the permits of a semaphore, and bounds the queue by it. Both halves hold
/// the one channel that it makes, so the receiving half takes out what the sending half put in.
#[verifier::external_body]
fn open_queue(capacity: usize) -> (halves: (QueueSender<LinkFrame>, QueueReceiver<LinkFrame>))
    requires
        0 < capacity <= usize::MAX / 8,
    ensures
        queue_capacity(halves.0) == capacity,
        fed_by(halves.1) == halves.0,
{
    mpsc::channel(capacity)
}

/// Makes another sending half by the `clone` of `tokio::sync::mpsc::Sender`, which copies the
/// reference to the channel. The two are alike: they share one queue and feed one receiving half.
#[verifier::external_body]
fn share_queue(tx: &QueueSender<LinkFrame>) -> (shared: QueueSender<LinkFrame>)
    ensures
        shared == *tx,
{
    tx.clone()
}

/// Makes a semaphore of so many permits by `tokio::sync::Semaphore::new`, which panics above
/// `MAX_PERMITS`, an eighth of the machine words.
#[verifier::external_body]
fn lend(permits: usize) -> (semaphore: Semaphore)
    requires
        permits <= usize::MAX / 8,
    ensures
        permits_lent_from(semaphore) == permits,
{
    Semaphore::new(permits)
}

/// The greatest number of permits there is, `tokio::sync::Semaphore::MAX_PERMITS`, which is
/// defined as the greatest machine word shifted right by three.
#[verifier::external_body]
pub(crate) fn max_permits() -> (permits: usize)
    ensures
        permits == usize::MAX / 8,
{
    Semaphore::MAX_PERMITS
}

/// Borrows permits by `Semaphore::try_acquire_many_owned`, which panics above `MAX_PERMITS`. What
/// it lends, where it lends anything, is as many permits of this very semaphore as were asked for.
/// Whether it does depends on what others hold.
#[verifier::external_body]
fn try_hold(bytes: &Arc<Semaphore>, size: u32) -> (slot: Option<QueueSlot>)
    requires
        size <= usize::MAX / 8,
    ensures
        slot matches Some(slot) ==> slot.permits == size && lender(slot.permit) == **bytes,
{
    match Arc::clone(bytes).try_acquire_many_owned(size) {
        Ok(permit) => {
            let permits = permit.num_permits();
            Some(QueueSlot { permit, permits })
        },
        Err(_) => None,
    }
}

/// Queues a frame by `tokio::sync::mpsc::Sender::try_send`. One that is not taken comes back
/// unchanged. Whether it is taken depends on what is queued and on the receiver.
#[verifier::external_body]
fn try_queue(tx: &QueueSender<LinkFrame>, frame: LinkFrame) -> (result: Result<(), TrySendError>)
    ensures
        result matches Err(TrySendError::Full(returned)) ==> returned == frame,
        result matches Err(TrySendError::Closed(returned)) ==> returned == frame,
{
    match tx.try_send(frame) {
        Ok(()) => Ok(()),
        Err(mpsc::error::TrySendError::Full(frame)) => Err(TrySendError::Full(frame)),
        Err(mpsc::error::TrySendError::Closed(frame)) => Err(TrySendError::Closed(frame)),
    }
}

/// Whether a slot holds so many permits of a semaphore.
pub open spec fn reserves(slot: QueueSlot, bytes: Semaphore, size: u32) -> bool {
    slot.permits == size && lender(slot.permit) == bytes
}

/// What has to be done before a frame is queued.
#[derive(Debug, Clone, Copy, PartialEq, Eq, Structural)]
pub enum QueuePlan {
    /// Nothing: it is no transfer, or its bytes are reserved already.
    Forward,
    /// So many bytes are to be reserved.
    Reserve(u32),
    /// It is larger than the queue can ever retain.
    TooLarge,
}

/// What has to be done before a frame is queued. Only transfers take part in the bound: controls
/// never compete with payload.
pub open spec fn plan_for(frame: LinkFrame) -> QueuePlan {
    match frame {
        LinkFrame::Transfer { payload, queue_slot: None, .. } => if payload@.len()
            + TRANSFER_OVERHEAD > RETAINED_BYTES {
            QueuePlan::TooLarge
        } else {
            QueuePlan::Reserve((payload@.len() + TRANSFER_OVERHEAD) as u32)
        },
        _ => QueuePlan::Forward,
    }
}

/// What has to be done before a frame is queued.
pub fn plan(frame: &LinkFrame) -> (plan: QueuePlan)
    ensures
        plan == plan_for(*frame),
{
    match frame {
        LinkFrame::Transfer { payload, queue_slot: None, .. } => {
            let size = payload.len().saturating_add(TRANSFER_OVERHEAD);
            if size > RETAINED_BYTES {
                QueuePlan::TooLarge
            } else {
                QueuePlan::Reserve(size as u32)
            }
        },
        _ => QueuePlan::Forward,
    }
}

/// A transfer that holds its reservation.
pub open spec fn slotted(frame: LinkFrame, slot: QueueSlot) -> LinkFrame {
    match frame {
        LinkFrame::Transfer { input_handle, performative, payload, window_slot, .. } => {
            LinkFrame::Transfer {
                input_handle,
                performative,
                payload,
                window_slot,
                queue_slot: Some(slot),
            }
        },
        other => other,
    }
}

/// What is handed to the queue for a frame, given the reservation that was obtained for it. A
/// frame that needs one and got none is not handed on.
pub open spec fn prepared(frame: LinkFrame, slot: Option<QueueSlot>) -> Option<LinkFrame> {
    match (plan_for(frame), slot) {
        (QueuePlan::Forward, _) => Some(frame),
        (QueuePlan::Reserve(_), Some(slot)) => Some(slotted(frame, slot)),
        _ => None,
    }
}

/// What is handed to the queue for a frame, given the reservation that was obtained for it. A
/// frame that is not handed on comes back.
pub fn prepare(frame: LinkFrame, slot: Option<QueueSlot>) -> (result: Result<LinkFrame, LinkFrame>)
    ensures
        result == (match prepared(frame, slot) {
            Some(ready) => Ok::<LinkFrame, LinkFrame>(ready),
            None => Err(frame),
        }),
{
    match plan(&frame) {
        QueuePlan::TooLarge => Err(frame),
        QueuePlan::Forward => Ok(frame),
        QueuePlan::Reserve(_) => match (frame, slot) {
            (
                LinkFrame::Transfer { input_handle, performative, payload, window_slot, .. },
                Some(slot),
            ) => Ok(
                LinkFrame::Transfer {
                    input_handle,
                    performative,
                    payload,
                    window_slot,
                    queue_slot: Some(slot),
                },
            ),
            (frame, _) => Err(frame),
        },
    }
}

/// The sending half of a queue whose transfers are bounded in bytes.
#[derive(Debug)]
pub struct Sender {
    /// The queue.
    pub tx: QueueSender<LinkFrame>,
    /// The bytes that transfers may still reserve.
    pub bytes: Arc<Semaphore>,
}

impl Clone for Sender {
    /// Another publisher on the same queue, within the same bound in bytes.
    fn clone(&self) -> (sender: Self)
        ensures
            sender.tx == self.tx,
            *sender.bytes == *self.bytes,
    {
        Sender { tx: share_queue(&self.tx), bytes: Arc::clone(&self.bytes) }
    }
}

/// Opens a queue of so many frames, whose transfers are bounded in bytes.
pub fn channel(capacity: usize) -> (halves: (Sender, QueueReceiver<LinkFrame>))
    requires
        0 < capacity <= usize::MAX / 8,
    ensures
        queue_capacity(halves.0.tx) == capacity,
        fed_by(halves.1) == halves.0.tx,
        permits_lent_from(*halves.0.bytes) == RETAINED_BYTES,
{
    let (tx, rx) = open_queue(capacity);
    (Sender::from_queue(tx), rx)
}

/// Whether `returned` is `frame` with a reservation of so many bytes.
pub open spec fn holds_reservation(
    returned: LinkFrame,
    frame: LinkFrame,
    bytes: Semaphore,
    size: u32,
) -> bool {
    exists|slot: QueueSlot|
        reserves(slot, bytes, size) && returned == #[trigger] slotted(frame, slot)
}

impl Sender {
    /// Bounds the transfers of a queue.
    pub fn from_queue(tx: QueueSender<LinkFrame>) -> (sender: Self)
        ensures
            sender.tx == tx,
            permits_lent_from(*sender.bytes) == RETAINED_BYTES,
    {
        Sender { tx, bytes: Arc::new(lend(RETAINED_BYTES)) }
    }

    /// Queues a frame without waiting, a transfer only once its bytes are reserved.
    ///
    /// A frame that is not taken comes back. Whether one is taken depends on what is queued, and
    /// whether it is ever received on the other half. A transfer that is too large, or for which
    /// too few bytes are left, comes back as it was; one that found the queue full or closed holds
    /// its reservation.
    pub fn try_send(&self, frame: LinkFrame) -> (result: Result<(), TrySendError>)
        ensures
            match plan_for(frame) {
                QueuePlan::TooLarge => result == Err::<(), TrySendError>(TrySendError::Full(frame)),
                QueuePlan::Forward => match result {
                    Ok(()) => true,
                    Err(TrySendError::Full(returned)) => returned == frame,
                    Err(TrySendError::Closed(returned)) => returned == frame,
                },
                QueuePlan::Reserve(size) => match result {
                    Ok(()) => true,
                    Err(TrySendError::Full(returned)) => {
                        ||| returned == frame
                        ||| holds_reservation(returned, frame, *self.bytes, size)
                    },
                    Err(TrySendError::Closed(returned)) => holds_reservation(
                        returned,
                        frame,
                        *self.bytes,
                        size,
                    ),
                },
            },
    {
        let slot = match plan(&frame) {
            QueuePlan::Reserve(size) => try_hold(&self.bytes, size),
            _ => None,
        };
        match prepare(frame, slot) {
            Err(frame) => Err(TrySendError::Full(frame)),
            Ok(ready) => try_queue(&self.tx, ready),
        }
    }
}

/// A transfer that holds its reservation is never made to reserve again.
pub proof fn law_one_reservation_per_transfer(frame: LinkFrame, slot: QueueSlot)
    requires
        plan_for(frame) is Reserve,
    ensures
        plan_for(slotted(frame, slot)) == QueuePlan::Forward,
{
}

/// Control frames need no bytes: they are queued whatever payload waits.
pub proof fn law_controls_do_not_compete(frame: LinkFrame)
    requires
        !(frame is Transfer),
    ensures
        plan_for(frame) == QueuePlan::Forward,
{
}

/// A transfer without a reservation needs one of its payload and 1024 bytes more, exactly if that
/// is no more than thirty-two times 1024 times 1024; a larger one is never queued. Nothing else
/// needs any.
pub proof fn law_transfers_reserve_their_bytes(frame: LinkFrame)
    ensures
        ({
            let needs = frame is Transfer && frame->queue_slot is None;
            let size = frame->Transfer_payload@.len() + 1024;
            &&& needs && size <= 32 * 1024 * 1024 ==> plan_for(frame) is Reserve
                && plan_for(frame)->Reserve_0 == size
            &&& needs && size > 32 * 1024 * 1024 ==> plan_for(frame) is TooLarge
            &&& !needs ==> plan_for(frame) is Forward
        }),
{
}

/// A transfer that holds its reservation is the same transfer, and no other frame holds any.
pub proof fn law_reservations_change_nothing_else(frame: LinkFrame, slot: QueueSlot)
    ensures
        !(frame is Transfer) ==> slotted(frame, slot) == frame,
        frame is Transfer ==> {
            let held = slotted(frame, slot);
            &&& held is Transfer
            &&& held->queue_slot == Some(slot)
            &&& held->Transfer_input_handle == frame->Transfer_input_handle
            &&& held->Transfer_performative == frame->Transfer_performative
            &&& held->Transfer_payload == frame->Transfer_payload
            &&& held->window_slot == frame->window_slot
        },
{
}

/// A frame is handed to the queue exactly if it needs no reservation or got one. One that needs
/// none is handed on as it is, whatever it was offered.
pub proof fn law_frames_are_handed_on(frame: LinkFrame, slot: Option<QueueSlot>)
    ensures
        prepared(frame, slot) is Some <==> plan_for(frame) is Forward || plan_for(frame) is Reserve
            && slot is Some,
        plan_for(frame) is Forward ==> prepared(frame, slot) == Some(frame),
        plan_for(frame) is Reserve && slot is Some ==> prepared(frame, slot) == Some(
            slotted(frame, slot->0),
        ),
{
}

/// A slot reserves so many bytes of a queue exactly if it holds as many permits of its semaphore.
pub proof fn law_slots_reserve_bytes(slot: QueueSlot, bytes: Semaphore, size: u32)
    ensures
        reserves(slot, bytes, size) <==> slot.permits == size && lender(slot.permit) == bytes,
{
}

} // verus!
