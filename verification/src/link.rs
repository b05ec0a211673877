//! The state of a link: how it attaches and detaches, and what it tells the peer of its unsettled
//! deliveries.

use std::marker::PhantomData;

use vstd::prelude::*;

use crate::definitions::{
    share_fields, share_state, DeliveryState, DeliveryTag, Error, Handle, InputHandle,
    OutputHandle, ReceiverSettleMode, SenderSettleMode,
};
use crate::errors::{DetachError, SendAttachErrorKind, SessionStopReason};
use crate::flow_state::LinkFlowState;
use crate::frame::LinkFrame;
use crate::ordered_map::{self, OrderedMap};
use crate::performatives::{
    share_capabilities, Attach, Capabilities, Detach, Source, TargetArchetype, UnsettledStates,
};
use crate::receiver_delivery::AsDeliveryState;
use crate::role::IntoRole;
use crate::unsettled_store::{self, Store, StoreView};

verus! {

/// Default amount of link credit.
pub const DEFAULT_CREDIT: u32 = 200;

/// How far a link is attached.
#[derive(Debug, Clone, Copy, PartialEq, Eq, Structural)]
pub enum LinkState {
    /// Not at all.
    Unattached,
    /// An attach was sent.
    AttachSent,
    /// An attach with an incomplete unsettled map was sent.
    IncompleteAttachSent,
    /// An attach came in.
    AttachReceived,
    /// An attach with an incomplete unsettled map came in.
    IncompleteAttachReceived,
    /// Attached.
    Attached,
    /// Attached, with at least one unsettled map incomplete.
    IncompleteAttachExchanged,
    /// A detach was sent.
    DetachSent,
    /// A detach came in.
    DetachReceived,
    /// Detached.
    Detached,
    /// A closing detach was sent.
    CloseSent,
    /// A closing detach came in.
    CloseReceived,
    /// Closed.
    Closed,
}

/// What the exchange of attaches on the sending end leads to. `D` says how a delivery is resumed.
pub enum SenderAttachExchange<D> {
    /// The exchange is complete without any unsettled delivery.
    Complete,
    /// At least one end told an incomplete unsettled map.
    IncompleteUnsettled(Vec<(DeliveryTag, D)>),
    /// Deliveries are resumed.
    Resume(Vec<(DeliveryTag, D)>),
}

impl<D> SenderAttachExchange<D> {
    /// What is shown of the exchange. Deliveries are not.
    pub open spec fn shown(&self) -> Seq<char> {
        match self {
            SenderAttachExchange::Complete => "Complete"@,
            SenderAttachExchange::IncompleteUnsettled(_) => "IncompleteUnsettled(_)"@,
            SenderAttachExchange::Resume(_) => "Resume(_)"@,
        }
    }

    /// What is shown of the exchange.
    pub fn describe(&self) -> (text: &'static str)
        ensures
            text@ == self.shown(),
    {
        match self {
            SenderAttachExchange::Complete => "Complete",
            SenderAttachExchange::IncompleteUnsettled(_) => "IncompleteUnsettled(_)",
            SenderAttachExchange::Resume(_) => "Resume(_)",
        }
    }

    /// Returns `Ok(())` if the value is `Complete`, otherwise the error.
    pub fn complete_or<E>(self, err: E) -> (result: Result<(), E>)
        ensures
            result == (if self is Complete {
                Ok::<(), E>(())
            } else {
                Err(err)
            }),
    {
        match self {
            SenderAttachExchange::Complete => Ok(()),
            _ => Err(err),
        }
    }
}

/// Outcome of exchange of Attach frame on the receiver side.
///
/// This is useful for exposing the outcome of resuming a local receiver.
#[derive(Debug, Clone, Copy, PartialEq, Eq, Structural)]
#[must_use]
pub enum ReceiverAttachExchange {
    /// The attach exchange is completed without any unsettled deliveries.
    Complete,
    /// At least one party indicated an incomplete unsettled map during the attach exchange.
    IncompleteUnsettled,
    /// The link will be resuming.
    Resume,
}

impl ReceiverAttachExchange {
    /// Returns `Ok(())` if the value is `Complete`, otherwise the error.
    pub fn complete_or<E>(self, err: E) -> (result: Result<(), E>)
        ensures
            result == (if self is Complete {
                Ok::<(), E>(())
            } else {
                Err(err)
            }),
    {
        match self {
            ReceiverAttachExchange::Complete => Ok(()),
            _ => Err(err),
        }
    }
}

/// The greatest message size that both ends of a link agree on, where zero means none.
pub open spec fn agreed_message_size(local: u64, remote: Option<u64>) -> u64 {
    let remote = match remote {
        None => 0,
        Some(size) => size,
    };
    if local == 0 {
        remote
    } else if remote == 0 || local < remote {
        local
    } else {
        remote
    }
}

/// The greatest message size that both ends of a link agree on, where zero means none.
pub fn get_max_message_size(local: u64, remote: Option<u64>) -> (size: u64)
    ensures
        size == agreed_message_size(local, remote),
{
    let remote_size = remote.unwrap_or(0);
    match local {
        0 => remote_size,
        size => {
            if remote_size == 0 || size < remote_size {
                size
            } else {
                remote_size
            }
        },
    }
}

/// One end of a link. `R` marks its role.
pub struct Link<R> {
    /// The role.
    pub role: PhantomData<R>,
    /// How far the link is attached.
    pub local_state: LinkState,
    /// The name of the link.
    pub name: String,
    /// What names the link here.
    pub output_handle: Option<OutputHandle>,
    /// What names the link at the peer.
    pub input_handle: Option<InputHandle>,
    /// The settlement mode of the sender.
    pub snd_settle_mode: SenderSettleMode,
    /// The settlement mode of the receiver.
    pub rcv_settle_mode: ReceiverSettleMode,
    /// Where messages come from.
    pub source: Option<Source>,
    /// Where messages go to.
    pub target: Option<TargetArchetype>,
    /// The greatest message size. If zero, there is none.
    pub max_message_size: u64,
    /// Capabilities that this end has.
    pub offered_capabilities: Option<Capabilities>,
    /// Capabilities that this end would like.
    pub desired_capabilities: Option<Capabilities>,
    /// The credit of the link.
    pub flow_state: LinkFlowState,
    /// Whether the source that the peer tells is verified.
    pub verify_incoming_source: bool,
    /// Whether the target that the peer tells is verified.
    pub verify_incoming_target: bool,
}

/// What is told of the first `count` unsettled deliveries.
pub open spec fn told<M: AsDeliveryState>(entries: Seq<(Seq<u8>, M)>, count: nat) -> Seq<
    (Seq<u8>, Option<DeliveryState>),
> {
    entries.take(count as int).map_values(|entry: (Seq<u8>, M)| (entry.0, entry.1.delivery_state()))
}

/// How many of `total` unsettled deliveries are told if only one in `partial` is to be.
pub open spec fn told_count(total: nat, partial: usize) -> nat {
    if partial <= 1 {
        total
    } else {
        total / partial as nat
    }
}

/// What an attach tells of the unsettled deliveries. When reattaching, and where there are none,
/// it tells nothing.
pub open spec fn told_map<M: AsDeliveryState>(
    entries: Option<Seq<(Seq<u8>, M)>>,
    is_reattaching: bool,
    partial: usize,
) -> Option<Seq<(Seq<u8>, Option<DeliveryState>)>> {
    match entries {
        None => None,
        Some(entries) => if is_reattaching || entries.len() == 0 {
            None
        } else {
            Some(told(entries, told_count(entries.len(), partial)))
        },
    }
}

/// Whether an attach is that of `link`, telling one in `partial` of its unsettled deliveries.
pub open spec fn attach_of<R: IntoRole, M: AsDeliveryState>(
    attach: Attach,
    link: Link<R>,
    entries: Option<Seq<(Seq<u8>, M)>>,
    handle: OutputHandle,
    is_reattaching: bool,
    partial: usize,
) -> bool {
    &&& attach.name@ == link.name@
    &&& attach.handle == Handle(handle.0)
    &&& attach.role == R::role()
    &&& attach.snd_settle_mode == link.snd_settle_mode
    &&& attach.rcv_settle_mode == link.rcv_settle_mode
    &&& attach.source == link.source
    &&& attach.target == link.target
    &&& unsettled_store::entries_of(attach.unsettled) == told_map(entries, is_reattaching, partial)
    &&& attach.incomplete_unsettled == (partial > 1)
    &&& attach.initial_delivery_count == Some(link.flow_state.initial_delivery_count)
    &&& attach.max_message_size == (if link.max_message_size == 0 {
        None
    } else {
        Some(link.max_message_size)
    })
    &&& attach.offered_capabilities == link.offered_capabilities
    &&& attach.desired_capabilities == link.desired_capabilities
    &&& attach.properties == link.flow_state.properties
}

/// The states in which an attach may be sent.
pub open spec fn may_send_attach(state: LinkState) -> bool {
    ||| state == LinkState::Unattached
    ||| state == LinkState::Detached
    ||| state == LinkState::DetachSent
    ||| state == LinkState::AttachReceived
}

/// The state after an attach was sent.
pub open spec fn state_after_attach_sent(state: LinkState, incomplete: bool) -> LinkState {
    match (state == LinkState::AttachReceived, incomplete) {
        (false, false) => LinkState::AttachSent,
        (false, true) => LinkState::IncompleteAttachSent,
        (true, false) => LinkState::Attached,
        (true, true) => LinkState::IncompleteAttachExchanged,
    }
}

/// Whether the attach that tells one in `partial` deliveries was measured, and its size was such.
pub open spec fn measured<R: IntoRole, M: AsDeliveryState, F: Fn(&Attach) -> Option<usize>>(
    measure: F,
    attach: Attach,
    link: Link<R>,
    entries: Option<Seq<(Seq<u8>, M)>>,
    handle: OutputHandle,
    is_reattaching: bool,
    partial: usize,
    size: Option<usize>,
) -> bool {
    &&& attach_of(attach, link, entries, handle, is_reattaching, partial)
    &&& measure.ensures((&attach,), size)
}

/// Whether `attach` is the one to be sent: it fits, and none that tells more does.
///
/// Those are tried that tell all deliveries, one in two, one in four and so on.
pub open spec fn fitted<R: IntoRole, M: AsDeliveryState, F: Fn(&Attach) -> Option<usize>>(
    measure: F,
    attach: Attach,
    link: Link<R>,
    entries: Option<Seq<(Seq<u8>, M)>>,
    handle: OutputHandle,
    is_reattaching: bool,
    max_frame_size: usize,
) -> bool {
    exists|steps: nat|
        #![trigger vstd::arithmetic::power2::pow2(steps)]
        {
            let partial = vstd::arithmetic::power2::pow2(steps);
            &&& partial <= usize::MAX
            &&& exists|size: usize|
                size <= max_frame_size && #[trigger] measured(
                    measure,
                    attach,
                    link,
                    entries,
                    handle,
                    is_reattaching,
                    partial as usize,
                    Some(size),
                )
            &&& forall|fewer: nat|
                fewer < steps ==> too_large(
                    measure,
                    link,
                    entries,
                    handle,
                    is_reattaching,
                    #[trigger] vstd::arithmetic::power2::pow2(fewer),
                    max_frame_size,
                )
        }
}

/// Whether the attach that tells one in `partial` deliveries was found not to fit.
pub open spec fn too_large<R: IntoRole, M: AsDeliveryState, F: Fn(&Attach) -> Option<usize>>(
    measure: F,
    link: Link<R>,
    entries: Option<Seq<(Seq<u8>, M)>>,
    handle: OutputHandle,
    is_reattaching: bool,
    partial: nat,
    max_frame_size: usize,
) -> bool {
    exists|attach: Attach, size: usize|
        size > max_frame_size && #[trigger] measured(
            measure,
            attach,
            link,
            entries,
            handle,
            is_reattaching,
            partial as usize,
            Some(size),
        )
}

/// Whether an attach that was tried has no encoding: none that tells more fits.
pub open spec fn not_encodable<R: IntoRole, M: AsDeliveryState, F: Fn(&Attach) -> Option<usize>>(
    measure: F,
    link: Link<R>,
    entries: Option<Seq<(Seq<u8>, M)>>,
    handle: OutputHandle,
    is_reattaching: bool,
    max_frame_size: usize,
) -> bool {
    exists|steps: nat|
        #![trigger vstd::arithmetic::power2::pow2(steps)]
        {
            let partial = vstd::arithmetic::power2::pow2(steps);
            &&& partial <= usize::MAX
            &&& exists|attach: Attach|
                #[trigger] measured(
                    measure,
                    attach,
                    link,
                    entries,
                    handle,
                    is_reattaching,
                    partial as usize,
                    None,
                )
            &&& forall|fewer: nat|
                fewer < steps ==> too_large(
                    measure,
                    link,
                    entries,
                    handle,
                    is_reattaching,
                    #[trigger] vstd::arithmetic::power2::pow2(fewer),
                    max_frame_size,
                )
        }
}

/// Whether an attach that tells one in `partial` deliveries tells none.
pub open spec fn tells_none<M: AsDeliveryState>(
    entries: Option<Seq<(Seq<u8>, M)>>,
    is_reattaching: bool,
    partial: usize,
) -> bool {
    told_map(entries, is_reattaching, partial) matches Some(told) ==> told.len() == 0
}

/// What the caller has to grant of `measure`: it can be asked for any attach, and an attach of the
/// link that tells no unsettled delivery fits the frame.
pub open spec fn measurable<R: IntoRole, M: AsDeliveryState, F: Fn(&Attach) -> Option<usize>>(
    measure: F,
    link: Link<R>,
    entries: Option<Seq<(Seq<u8>, M)>>,
    handle: OutputHandle,
    is_reattaching: bool,
    max_frame_size: usize,
) -> bool {
    &&& forall|attach: Attach| #[trigger] measure.requires((&attach,))
    &&& forall|attach: Attach, partial: usize, size: usize|
        #[trigger] measured(
            measure,
            attach,
            link,
            entries,
            handle,
            is_reattaching,
            partial,
            Some(size),
        ) && tells_none(entries, is_reattaching, partial) ==> size <= max_frame_size
}

/// Whether there is anything unsettled that an attach has to tell.
pub open spec fn has_to_tell<M>(entries: Option<Seq<(Seq<u8>, M)>>, is_reattaching: bool) -> bool {
    !is_reattaching && (entries matches Some(entries) && entries.len() > 0)
}

/// The unsettled deliveries are few enough for their number to be doubled.
pub open spec fn countable<M>(entries: Option<Seq<(Seq<u8>, M)>>) -> bool {
    entries matches Some(entries) ==> entries.len() <= usize::MAX / 2
}

impl<R: IntoRole> Link<R> {
    /// What an attach tells of the unsettled deliveries.
    pub fn get_unsettled_map<M: AsDeliveryState>(
        &self,
        unsettled: &Store<M>,
        is_reattaching: bool,
        partial_unsettled: usize,
    ) -> (map: Option<UnsettledStates>)
        ensures
            unsettled_store::entries_of(map) == told_map(
                unsettled@.entries,
                is_reattaching,
                partial_unsettled,
            ),
    {
        // When reattaching (as opposed to resuming), the unsettled map MUST be null.
        if is_reattaching {
            return None;
        }
        let map = match unsettled.read() {
            None => return None,
            Some(map) => map,
        };
        let total = map.len();
        if total == 0 {
            return None;
        }
        let count = if partial_unsettled <= 1 {
            total
        } else {
            total / partial_unsettled
        };
        proof {
            if partial_unsettled > 1 {
                vstd::arithmetic::div_mod::lemma_div_is_ordered_by_denominator(
                    total as int,
                    1,
                    partial_unsettled as int,
                );
            }
        }
        let mut states: UnsettledStates = OrderedMap::new();
        let mut i: usize = 0;
        assert(states@ =~= told(map@, 0));
        while i < count
            invariant
                i <= count <= map@.len(),
                states@ == told(map@, i as nat),
            decreases count - i,
        {
            let (tag, value) = map.get_index(i);
            proof {
                ordered_map::lemma_find(states@, tag@);
            }
            states.push(tag.clone(), share_state(value.as_delivery_state()));
            i += 1;
            assert(states@ =~= told(map@, i as nat));
        }
        Some(states)
    }

    /// The attach that tells all unsettled deliveries.
    pub fn as_complete_attach<M: AsDeliveryState>(
        &self,
        unsettled: &Store<M>,
        handle: OutputHandle,
        is_reattaching: bool,
    ) -> (attach: Attach)
        ensures
            attach_of(attach, *self, unsettled@.entries, handle, is_reattaching, 1),
    {
        self.as_attach_inner(unsettled, handle, is_reattaching, 1)
    }

    /// The attach that tells one in `partial_unsettled` of the unsettled deliveries.
    pub fn as_attach_inner<M: AsDeliveryState>(
        &self,
        unsettled: &Store<M>,
        handle: OutputHandle,
        is_reattaching: bool,
        partial_unsettled: usize,
    ) -> (attach: Attach)
        ensures
            attach_of(
                attach,
                *self,
                unsettled@.entries,
                handle,
                is_reattaching,
                partial_unsettled,
            ),
    {
        let told = self.get_unsettled_map(unsettled, is_reattaching, partial_unsettled);
        let max_message_size = match self.max_message_size {
            0 => None,
            size => Some(size),
        };
        Attach {
            name: self.name.clone(),
            handle: Handle(handle.0),
            role: R::into_role(),
            snd_settle_mode: self.snd_settle_mode,
            rcv_settle_mode: self.rcv_settle_mode,
            source: match &self.source {
                None => None,
                Some(source) => Some(source.clone()),
            },
            target: match &self.target {
                None => None,
                Some(target) => Some(target.clone()),
            },
            unsettled: told,
            incomplete_unsettled: partial_unsettled > 1,
            initial_delivery_count: Some(self.flow_state.initial_delivery_count),
            max_message_size,
            offered_capabilities: share_capabilities(&self.offered_capabilities),
            desired_capabilities: share_capabilities(&self.desired_capabilities),
            properties: share_fields(&self.flow_state.properties),
        }
    }

    /// The attach that tells as many unsettled deliveries as fit in a frame, halving them until
    /// they do. `measure` gives the encoded size of an attach, or nothing if it has no encoding.
    pub fn as_maybe_incomplete_attach<M: AsDeliveryState, F: Fn(&Attach) -> Option<usize>>(
        &self,
        unsettled: &Store<M>,
        max_frame_size: usize,
        handle: OutputHandle,
        is_reattaching: bool,
        measure: F,
    ) -> (result: Result<Attach, SendAttachErrorKind>)
        requires
            measurable(
                measure,
                *self,
                unsettled@.entries,
                handle,
                is_reattaching,
                max_frame_size,
            ),
            countable(unsettled@.entries),
        ensures
            match result {
                Ok(attach) => fitted(
                    measure,
                    attach,
                    *self,
                    unsettled@.entries,
                    handle,
                    is_reattaching,
                    max_frame_size,
                ),
                Err(error) => {
                    &&& error == SendAttachErrorKind::IllegalState
                    &&& not_encodable(
                        measure,
                        *self,
                        unsettled@.entries,
                        handle,
                        is_reattaching,
                        max_frame_size,
                    )
                },
            },
    {
        let ghost entries = unsettled@.entries;
        let mut denominator: usize = 1;
        let ghost mut steps: nat = 0;
        proof {
            vstd::arithmetic::power2::lemma2_to64();
        }
        loop
            invariant
                entries == unsettled@.entries,
                measurable(measure, *self, entries, handle, is_reattaching, max_frame_size),
                countable(entries),
                denominator >= 1,
                denominator == vstd::arithmetic::power2::pow2(steps),
                forall|fewer: nat|
                    fewer < steps ==> too_large(
                        measure,
                        *self,
                        entries,
                        handle,
                        is_reattaching,
                        #[trigger] vstd::arithmetic::power2::pow2(fewer),
                        max_frame_size,
                    ),
            decreases usize::MAX - denominator,
        {
            let attach = self.as_attach_inner(unsettled, handle, is_reattaching, denominator);
            match measure(&attach) {
                None => {
                    assert(vstd::arithmetic::power2::pow2(steps) as usize == denominator);
                    assert(measured(
                        measure,
                        attach,
                        *self,
                        entries,
                        handle,
                        is_reattaching,
                        vstd::arithmetic::power2::pow2(steps) as usize,
                        None,
                    ));
                    return Err(SendAttachErrorKind::IllegalState);
                },
                Some(size) => {
                    assert(vstd::arithmetic::power2::pow2(steps) as usize == denominator);
                    assert(measured(
                        measure,
                        attach,
                        *self,
                        entries,
                        handle,
                        is_reattaching,
                        vstd::arithmetic::power2::pow2(steps) as usize,
                        Some(size),
                    ));
                    if size <= max_frame_size {
                        return Ok(attach);
                    }
                    proof {
                        lemma_told_bounds(entries, is_reattaching, denominator);
                        vstd::arithmetic::power2::lemma_pow2_unfold(steps + 1);
                        assert(too_large(
                            measure,
                            *self,
                            entries,
                            handle,
                            is_reattaching,
                            vstd::arithmetic::power2::pow2(steps),
                            max_frame_size,
                        ));
                        steps = steps + 1;
                    }
                    denominator = denominator * 2;
                },
            }
        }
    }

    /// The attach to be sent, in a state in which one may be.
    ///
    /// When reattaching, the unsettled map is cleared first. The size of a frame is needed, and
    /// asked for, only where there is anything unsettled to be told.
    pub fn send_attach_inner<M: AsDeliveryState, F: Fn(&Attach) -> Option<usize>>(
        &self,
        unsettled: &mut Store<M>,
        max_frame_size: Result<usize, SendAttachErrorKind>,
        is_reattaching: bool,
        measure: F,
    ) -> (result: Result<LinkFrame, SendAttachErrorKind>)
        requires
            self.output_handle is Some && max_frame_size is Ok && has_to_tell(
                old(unsettled)@.entries,
                is_reattaching,
            ) ==> measurable(
                measure,
                *self,
                old(unsettled)@.entries,
                self.output_handle->0,
                is_reattaching,
                max_frame_size->Ok_0,
            ),
            countable(old(unsettled)@.entries),
        ensures
            final(unsettled)@ == (if self.output_handle is Some && is_reattaching {
                StoreView {
                    entries: None,
                    revision: unsettled_store::next_revision(old(unsettled)@.revision),
                }
            } else {
                old(unsettled)@
            }),
            ({
                let entries = final(unsettled)@.entries;
                let handle = self.output_handle->0;
                let nothing = !has_to_tell(entries, is_reattaching);
                match result {
                    Ok(LinkFrame::Attach(attach)) => {
                        &&& self.output_handle is Some
                        &&& may_send_attach(self.local_state)
                        &&& if nothing {
                            attach_of(attach, *self, entries, handle, is_reattaching, 1)
                        } else {
                            &&& max_frame_size is Ok
                            &&& fitted(
                                measure,
                                attach,
                                *self,
                                entries,
                                handle,
                                is_reattaching,
                                max_frame_size->Ok_0,
                            )
                        }
                    },
                    Ok(_) => false,
                    Err(error) => if self.output_handle is Some && !nothing && max_frame_size
                        is Err {
                        error == max_frame_size->Err_0
                    } else {
                        &&& error == SendAttachErrorKind::IllegalState
                        &&& {
                            ||| self.output_handle is None
                            ||| !may_send_attach(self.local_state)
                            ||| !nothing && not_encodable(
                                measure,
                                *self,
                                entries,
                                handle,
                                is_reattaching,
                                max_frame_size->Ok_0,
                            )
                        }
                    },
                }
            }),
    {
        let handle = match self.output_handle {
            None => return Err(SendAttachErrorKind::IllegalState),
            Some(handle) => handle,
        };
        if is_reattaching {
            *unsettled.write() = None;
        }
        let nothing = match unsettled.read() {
            None => true,
            Some(map) => map.is_empty(),
        };
        let attach = if nothing {
            self.as_complete_attach(unsettled, handle, is_reattaching)
        } else {
            let size = match max_frame_size {
                Err(error) => return Err(error),
                Ok(size) => size,
            };
            match self.as_maybe_incomplete_attach(
                unsettled,
                size,
                handle,
                is_reattaching,
                measure,
            ) {
                Err(error) => return Err(error),
                Ok(attach) => attach,
            }
        };
        match self.local_state {
            LinkState::Unattached
            | LinkState::Detached
            | LinkState::DetachSent
            | LinkState::AttachReceived => Ok(LinkFrame::Attach(attach)),
            _ => Err(SendAttachErrorKind::IllegalState),
        }
    }

    /// Takes down that an attach was handed to the session, or that the session no longer took it.
    pub fn attach_sent(
        &mut self,
        incomplete_unsettled: bool,
        delivered: bool,
        stop_reason: Option<SessionStopReason>,
    ) -> (result: Result<(), SendAttachErrorKind>)
        ensures
            *final(self) == (Link { local_state: final(self).local_state, ..*old(self) }),
            if !may_send_attach(old(self).local_state) {
                &&& result == Err::<(), SendAttachErrorKind>(SendAttachErrorKind::IllegalState)
                &&& final(self).local_state == old(self).local_state
            } else if !delivered {
                &&& result == Err::<(), SendAttachErrorKind>(
                    SendAttachErrorKind::undelivered_spec(stop_reason),
                )
                &&& final(self).local_state == old(self).local_state
            } else {
                &&& result == Ok::<(), SendAttachErrorKind>(())
                &&& final(self).local_state == state_after_attach_sent(
                    old(self).local_state,
                    incomplete_unsettled,
                )
            },
    {
        match self.local_state {
            LinkState::Unattached | LinkState::Detached | LinkState::DetachSent => {
                if !delivered {
                    return Err(SendAttachErrorKind::undelivered(stop_reason));
                }
                self.local_state = if incomplete_unsettled {
                    LinkState::IncompleteAttachSent
                } else {
                    LinkState::AttachSent
                };
            },
            LinkState::AttachReceived => {
                if !delivered {
                    return Err(SendAttachErrorKind::undelivered(stop_reason));
                }
                self.local_state = if incomplete_unsettled {
                    LinkState::IncompleteAttachExchanged
                } else {
                    LinkState::Attached
                };
            },
            _ => return Err(SendAttachErrorKind::IllegalState),
        }
        Ok(())
    }
}

proof fn lemma_told_bounds<M: AsDeliveryState>(
    entries: Option<Seq<(Seq<u8>, M)>>,
    is_reattaching: bool,
    partial: usize,
)
    requires
        partial >= 1,
        countable(entries),
        told_map(entries, is_reattaching, partial) matches Some(told) ==> told.len() > 0,
        told_map(entries, is_reattaching, partial) is Some,
    ensures
        partial <= usize::MAX / 2,
{
    let total = entries->0.len();
    if partial > 1 {
        assert(total / partial as nat >= 1);
        vstd::arithmetic::div_mod::lemma_fundamental_div_mod(total as int, partial as int);
        assert(partial * (total / partial as nat) >= partial) by (nonlinear_arith)
            requires
                total / partial as nat >= 1,
                partial >= 0,
        ;
    }
}

/// The states in which a link is attached, or on its way to be, on either side.
pub open spec fn attaching(state: LinkState) -> bool {
    ||| state == LinkState::Attached
    ||| state == LinkState::AttachSent
    ||| state == LinkState::AttachReceived
    ||| state == LinkState::IncompleteAttachExchanged
    ||| state == LinkState::IncompleteAttachSent
    ||| state == LinkState::IncompleteAttachReceived
}

/// The state after a detach came in, in a state in which one may.
pub open spec fn state_after_detach_received(state: LinkState, closed: bool) -> Option<LinkState> {
    if closed {
        if attaching(state) || state == LinkState::DetachSent {
            Some(LinkState::CloseReceived)
        } else if state == LinkState::CloseSent {
            Some(LinkState::Closed)
        } else {
            None
        }
    } else if state == LinkState::Attached {
        Some(LinkState::DetachReceived)
    } else if state == LinkState::DetachSent {
        Some(LinkState::Detached)
    } else {
        None
    }
}

/// Whether an incoming detach answers one of the same kind, so that the handle is free.
pub open spec fn detach_answers(state: LinkState, closed: bool) -> bool {
    closed && state == LinkState::CloseSent || !closed && state == LinkState::DetachSent
}

/// What an incoming detach is reported as.
pub open spec fn detach_report(state: LinkState, detach: Detach) -> Result<(), DetachError> {
    if state_after_detach_received(state, detach.closed) is None {
        Err(DetachError::IllegalState)
    } else if let Some(error) = detach.error {
        if detach.closed {
            Err(DetachError::RemoteClosedWithError(error))
        } else {
            Err(DetachError::RemoteDetachedWithError(error))
        }
    } else if detach.closed && state == LinkState::DetachSent {
        Err(DetachError::ClosedByRemote)
    } else {
        Ok(())
    }
}

/// The state after a detach was sent, or why none may be.
pub open spec fn state_after_detach_sent(state: LinkState, closed: bool) -> Result<
    LinkState,
    DetachError,
> {
    match (state, closed) {
        (LinkState::Attached, false) => Ok(LinkState::DetachSent),
        (LinkState::DetachReceived, false) => Ok(LinkState::Detached),
        (LinkState::CloseReceived, false) => Err(DetachError::ClosedByRemote),
        (LinkState::Attached, true) => Ok(LinkState::CloseSent),
        (LinkState::DetachReceived, true) => Err(DetachError::DetachedByRemote),
        (LinkState::CloseReceived, true) => Ok(LinkState::Closed),
        _ => Err(DetachError::IllegalState),
    }
}

impl<R> Link<R> {
    /// Takes down that the peer detached or closed the link.
    pub fn on_incoming_detach(&mut self, detach: Detach) -> (result: Result<(), DetachError>)
        ensures
            result == detach_report(old(self).local_state, detach),
            *final(self) == (match state_after_detach_received(
                old(self).local_state,
                detach.closed,
            ) {
                None => *old(self),
                Some(state) => Link {
                    local_state: state,
                    output_handle: if detach_answers(old(self).local_state, detach.closed) {
                        None
                    } else {
                        old(self).output_handle
                    },
                    ..*old(self)
                },
            }),
    {
        if detach.closed {
            match self.local_state {
                LinkState::Attached
                | LinkState::AttachSent
                | LinkState::AttachReceived
                | LinkState::IncompleteAttachExchanged
                | LinkState::IncompleteAttachSent
                | LinkState::IncompleteAttachReceived => {
                    self.local_state = LinkState::CloseReceived;
                    match detach.error {
                        Some(error) => Err(DetachError::RemoteClosedWithError(error)),
                        None => Ok(()),
                    }
                },
                LinkState::DetachSent => {
                    self.local_state = LinkState::CloseReceived;
                    match detach.error {
                        Some(error) => Err(DetachError::RemoteClosedWithError(error)),
                        None => Err(DetachError::ClosedByRemote),
                    }
                },
                LinkState::CloseSent => {
                    self.local_state = LinkState::Closed;
                    self.output_handle = None;
                    match detach.error {
                        Some(error) => Err(DetachError::RemoteClosedWithError(error)),
                        None => Ok(()),
                    }
                },
                _ => Err(DetachError::IllegalState),
            }
        } else {
            match self.local_state {
                LinkState::Attached => {
                    self.local_state = LinkState::DetachReceived;
                },
                LinkState::DetachSent => {
                    self.local_state = LinkState::Detached;
                    // Dropping output handle as it is already detached
                    self.output_handle = None;
                },
                _ => return Err(DetachError::IllegalState),
            }
            match detach.error {
                Some(error) => Err(DetachError::RemoteDetachedWithError(error)),
                None => Ok(()),
            }
        }
    }

    /// The detach to be sent. The state changes whether sending succeeds or not.
    pub fn send_detach(&mut self, closed: bool, error: Option<Error>) -> (result: Result<
        LinkFrame,
        DetachError,
    >)
        ensures
            match state_after_detach_sent(old(self).local_state, closed) {
                Err(refused) => {
                    &&& result == Err::<LinkFrame, DetachError>(refused)
                    &&& *final(self) == *old(self)
                },
                Ok(state) => {
                    &&& *final(self) == (Link { local_state: state, ..*old(self) })
                    &&& result == (match old(self).output_handle {
                        Some(handle) => Ok::<LinkFrame, DetachError>(
                            LinkFrame::Detach(Detach { handle: Handle(handle.0), closed, error }),
                        ),
                        None => Err(DetachError::IllegalState),
                    })
                },
            },
    {
        match (self.local_state, closed) {
            (LinkState::Attached, false) => {
                self.local_state = LinkState::DetachSent;
            },
            (LinkState::DetachReceived, false) => {
                self.local_state = LinkState::Detached;
            },
            (LinkState::CloseReceived, false) => return Err(DetachError::ClosedByRemote),
            (LinkState::Attached, true) => {
                self.local_state = LinkState::CloseSent;
            },
            (LinkState::DetachReceived, true) => return Err(DetachError::DetachedByRemote),
            (LinkState::CloseReceived, true) => {
                self.local_state = LinkState::Closed;
            },
            _ => return Err(DetachError::IllegalState),
        }
        match self.output_handle {
            Some(handle) => Ok(
                LinkFrame::Detach(Detach { handle: Handle(handle.0), closed, error }),
            ),
            None => Err(DetachError::IllegalState),
        }
    }

    /// Takes down that a detach was handed to the session, or that the session no longer took it.
    ///
    /// The handle is retained while a non-closing detach is in flight: preceding transfers still
    /// belong to this endpoint.
    pub fn detach_sent(
        &mut self,
        delivered: bool,
        stop_reason: Option<SessionStopReason>,
    ) -> (result: Result<(), DetachError>)
        ensures
            *final(self) == (Link {
                output_handle: if old(self).local_state == LinkState::DetachSent {
                    old(self).output_handle
                } else {
                    None
                },
                ..*old(self)
            }),
            result == (if delivered {
                Ok::<(), DetachError>(())
            } else {
                Err(DetachError::undelivered_spec(stop_reason))
            }),
    {
        if !matches!(self.local_state, LinkState::DetachSent) {
            self.output_handle = None;
        }
        if delivered {
            Ok(())
        } else {
            Err(DetachError::undelivered(stop_reason))
        }
    }
}

/// A detach that is answered in kind ends as it began: a detach with the link detached, a close
/// with the link closed, whichever end began.
pub proof fn law_detach_handshake_completes(closed: bool)
    ensures
        ({
            let sent = state_after_detach_sent(LinkState::Attached, closed)->Ok_0;
            let received = state_after_detach_received(LinkState::Attached, closed)->0;
            let ended = if closed {
                LinkState::Closed
            } else {
                LinkState::Detached
            };
            &&& state_after_detach_received(sent, closed) == Some(ended)
            &&& detach_answers(sent, closed)
            &&& state_after_detach_sent(received, closed) == Ok::<LinkState, DetachError>(ended)
        }),
{
}

/// A detach that was declared non-closing never turns into a closing one at this end.
pub proof fn law_detach_stays_a_detach()
    ensures
        state_after_detach_sent(LinkState::DetachSent, true) is Err,
        state_after_detach_sent(LinkState::Detached, true) is Err,
{
}

/// A closed link stays closed: nothing is sent and nothing is taken any more.
pub proof fn law_closed_is_final(closed: bool)
    ensures
        state_after_detach_sent(LinkState::Closed, closed) is Err,
        state_after_detach_received(LinkState::Closed, closed) is None,
        !may_send_attach(LinkState::Closed),
{
}

/// An attach tells no delivery twice, and the first unsettled ones in their order.
pub proof fn law_told_deliveries_are_distinct<M: AsDeliveryState>(
    entries: Seq<(Seq<u8>, M)>,
    partial: usize,
)
    requires
        ordered_map::unique(entries),
        partial >= 1,
    ensures
        told_count(entries.len(), partial) <= entries.len(),
        ordered_map::unique(told(entries, told_count(entries.len(), partial))),
{
    let count = told_count(entries.len(), partial);
    if partial > 1 {
        vstd::arithmetic::div_mod::lemma_div_is_ordered_by_denominator(
            entries.len() as int,
            1,
            partial as int,
        );
    }
    let states = told(entries, count);
    assert forall|i: int, j: int| 0 <= i < j < states.len() implies (#[trigger] states[i]).0 != (
    #[trigger] states[j]).0 by {
        assert(entries[i].0 != entries[j].0);
    }
}

/// An attach that tells only some of the unsettled deliveries says so.
pub proof fn law_partial_attach_says_so<R: IntoRole, M: AsDeliveryState>(
    attach: Attach,
    link: Link<R>,
    entries: Seq<(Seq<u8>, M)>,
    handle: OutputHandle,
    partial: usize,
)
    requires
        attach_of(attach, link, Some(entries), handle, false, partial),
        !attach.incomplete_unsettled,
        entries.len() > 0,
    ensures
        attach.unsettled is Some,
        attach.unsettled->0@.len() == entries.len(),
{
}

} // verus!
