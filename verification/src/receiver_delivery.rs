//! Local receipt progress and the peer's delivery state are different facts.

use vstd::prelude::*;

use crate::definitions::{
    self, is_settled_outcome, share_state, DeliveryNumber, DeliveryState,
    DeliveryTag, ReceiverSettleMode,
};

verus! {

/// What identifies a delivery to the application.
#[derive(Debug)]
pub struct DeliveryInfo {
    /// The number of the delivery in its session.
    pub delivery_id: DeliveryNumber,
    /// The tag of the delivery on its link.
    pub delivery_tag: DeliveryTag,
    /// The receiver settlement mode of the delivery, where it has one of its own.
    pub rcv_settle_mode: Option<ReceiverSettleMode>,
}

impl Clone for DeliveryInfo {
    fn clone(&self) -> (copy: Self)
        ensures
            copy == *self,
    {
        DeliveryInfo {
            delivery_id: self.delivery_id,
            delivery_tag: self.delivery_tag.clone(),
            rcv_settle_mode: self.rcv_settle_mode,
        }
    }
}

/// An entry of an unsettled map that can be told to the peer.
pub trait AsDeliveryState {
    /// The state that is told to the peer.
    spec fn delivery_state(&self) -> Option<DeliveryState>;

    /// The state that is told to the peer.
    fn as_delivery_state(&self) -> (state: &Option<DeliveryState>)
        ensures
            *state == self.delivery_state(),
    ;
}

/// What a receiver knows of a delivery that is not settled.
#[derive(Debug)]
pub struct ReceiverDelivery {
    /// The state that this receiver gave the delivery.
    pub local: Option<DeliveryState>,
    /// The state that the peer told.
    pub remote: Option<DeliveryState>,
    /// Whether the delivery was received whole.
    pub received: bool,
    /// What identifies the delivery, once it was received.
    pub info: Option<DeliveryInfo>,
}

impl ReceiverDelivery {
    /// The delivery after the peer told `state`: a terminal state is never altered.
    pub open spec fn after_remote_state(self, state: Option<DeliveryState>) -> Self {
        if definitions::settled_outcome(self.remote) {
            self
        } else {
            ReceiverDelivery { remote: state, ..self }
        }
    }

    /// The delivery after it was given `state` here: a terminal state is never altered.
    pub open spec fn after_local_state(self, state: DeliveryState) -> Self {
        if definitions::settled_outcome(self.local) {
            self
        } else {
            ReceiverDelivery { local: Some(state), ..self }
        }
    }

    /// The delivery after it was received as far as `state` says.
    pub open spec fn after_received(self, state: DeliveryState, complete: bool) -> Self {
        ReceiverDelivery {
            received: self.received || complete,
            ..self.after_local_state(state)
        }
    }

    /// A delivery of which nothing was received yet.
    pub fn new(remote: Option<DeliveryState>) -> (delivery: Self)
        ensures
            delivery == (ReceiverDelivery { local: None, remote, received: false, info: None }),
    {
        ReceiverDelivery { local: None, remote, received: false, info: None }
    }

    /// Takes down the state that the peer told, unless that was terminal already.
    pub fn remote_state(&mut self, state: Option<DeliveryState>)
        ensures
            *final(self) == old(self).after_remote_state(state),
    {
        if !is_settled_outcome(&self.remote) {
            self.remote = state;
        }
    }

    /// Takes down the local state, unless that is terminal already.
    pub fn local_state(&mut self, state: DeliveryState)
        ensures
            *final(self) == old(self).after_local_state(state),
    {
        if !is_settled_outcome(&self.local) {
            self.local = Some(state);
        }
    }

    /// Takes down how much was received. What was received whole stays so.
    pub fn received(&mut self, state: DeliveryState, complete: bool)
        ensures
            *final(self) == old(self).after_received(state, complete),
    {
        self.local_state(state);
        self.received = self.received || complete;
    }
}

impl Clone for ReceiverDelivery {
    fn clone(&self) -> (copy: Self)
        ensures
            copy == *self,
    {
        ReceiverDelivery {
            local: share_state(&self.local),
            remote: share_state(&self.remote),
            received: self.received,
            info: match &self.info {
                None => None,
                Some(info) => Some(info.clone()),
            },
        }
    }
}

impl AsDeliveryState for ReceiverDelivery {
    open spec fn delivery_state(&self) -> Option<DeliveryState> {
        self.local
    }

    fn as_delivery_state(&self) -> (state: &Option<DeliveryState>) {
        &self.local
    }
}

/// The peer's state never passes for local receipt: what is told to the peer, and whether the
/// delivery was received, stay as they are.
pub proof fn law_peer_state_is_not_receipt(delivery: ReceiverDelivery, state: Option<DeliveryState>)
    ensures
        delivery.after_remote_state(state).delivery_state() == delivery.delivery_state(),
        delivery.after_remote_state(state).received == delivery.received,
        delivery.after_remote_state(state).info == delivery.info,
{
}

/// A local outcome is final: neither later receipt nor another outcome alters it.
pub proof fn law_local_outcome_is_final(
    delivery: ReceiverDelivery,
    state: DeliveryState,
    complete: bool,
)
    requires
        definitions::settled_outcome(delivery.local),
    ensures
        delivery.after_local_state(state).local == delivery.local,
        delivery.after_received(state, complete).local == delivery.local,
{
}

/// A terminal state of the peer is final too, and local receipt does not touch it.
pub proof fn law_remote_outcome_is_final(
    delivery: ReceiverDelivery,
    told: Option<DeliveryState>,
    state: DeliveryState,
    complete: bool,
)
    ensures
        definitions::settled_outcome(delivery.remote) ==> delivery.after_remote_state(told).remote
            == delivery.remote,
        delivery.after_local_state(state).remote == delivery.remote,
        delivery.after_received(state, complete).remote == delivery.remote,
{
}

/// Once received whole, a delivery stays received.
pub proof fn law_receipt_is_kept(
    delivery: ReceiverDelivery,
    told: Option<DeliveryState>,
    state: DeliveryState,
    complete: bool,
)
    requires
        delivery.received,
    ensures
        delivery.after_remote_state(told).received,
        delivery.after_local_state(state).received,
        delivery.after_received(state, complete).received,
{
}

/// A delivery takes the state that the peer tells, and the one it is given here, until it has an
/// outcome on that side. Receipt is added, and nothing else changes.
pub proof fn law_states_are_taken_down(
    delivery: ReceiverDelivery,
    told: Option<DeliveryState>,
    state: DeliveryState,
    complete: bool,
)
    ensures
        !definitions::settled_outcome(delivery.remote) ==> delivery.after_remote_state(told).remote
            == told,
        delivery.after_remote_state(told).local == delivery.local,
        !definitions::settled_outcome(delivery.local) ==> {
            &&& delivery.after_local_state(state).local == Some(state)
            &&& delivery.after_received(state, complete).local == Some(state)
        },
        delivery.after_local_state(state).received == delivery.received,
        delivery.after_local_state(state).info == delivery.info,
        delivery.after_received(state, complete).received == (delivery.received || complete),
        delivery.after_received(state, complete).info == delivery.info,
        delivery.delivery_state() == delivery.local,
{
}

} // verus!
