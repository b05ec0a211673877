//! The receiving end of a link: what becomes of transfers, dispositions and attaches.

use vstd::prelude::*;

use crate::chunks::{self, is_consecutive};
use crate::codec;
use crate::definitions::{
    share_fields, share_state, DeliveryNumber, DeliveryState, DeliveryTag, Handle, Received,
    ReceiverSettleMode, Role,
};
use crate::errors::{FlowError, MessageDecodeError, ReceiverTransferError};
use crate::flow_state::LinkFlowState;
use crate::frame::LinkFrame;
use crate::link::{self, Link, LinkState, ReceiverAttachExchange};
use crate::message;
use crate::ordered_map::{self, OrderedMap};
use crate::performatives::{Disposition, LinkFlow, Transfer, UnsettledStates};
use crate::receiver_delivery::{DeliveryInfo, ReceiverDelivery};
use crate::role::ReceiverMarker;
use crate::unsettled_store::{self, Store, StoreView, UnsettledMap};

verus! {

/// The receiving end of a link.
pub type ReceiverLink = Link<ReceiverMarker>;

/// The unsettled deliveries of a receiver, in order.
pub type Entries = Option<Seq<(Seq<u8>, ReceiverDelivery)>>;

/// A message that came in whole.
#[derive(Debug)]
pub struct Delivery<T> {
    /// The link it came in on.
    pub link_output_handle: Handle,
    /// The number of the delivery in its session.
    pub delivery_id: DeliveryNumber,
    /// The tag of the delivery on its link.
    pub delivery_tag: DeliveryTag,
    /// The format of the message.
    pub message_format: Option<u32>,
    /// The receiver settlement mode of the delivery, where it has one of its own.
    pub rcv_settle_mode: Option<ReceiverSettleMode>,
    /// The message.
    pub message: T,
}

/// A delivery that came in whole and may be decoded.
#[derive(Debug)]
pub struct Admitted {
    /// The number of the delivery in its session.
    pub delivery_id: DeliveryNumber,
    /// The tag of the delivery on its link.
    pub delivery_tag: DeliveryTag,
    /// The format of the message.
    pub message_format: Option<u32>,
    /// Whether nothing is left to be settled.
    pub settled: bool,
    /// The receiver settlement mode of the delivery, where it has one of its own.
    pub mode: Option<ReceiverSettleMode>,
}

/// The entries of a store opened for writing.
pub open spec fn opened(store: StoreView<ReceiverDelivery>, entries: Entries) -> StoreView<
    ReceiverDelivery,
> {
    StoreView { entries, revision: unsettled_store::next_revision(store.revision) }
}

/// The entries, or none where there is no map yet.
pub open spec fn or_empty(entries: Entries) -> Seq<(Seq<u8>, ReceiverDelivery)> {
    match entries {
        None => seq![],
        Some(entries) => entries,
    }
}

/// The entries after the peer told a state of one delivery.
pub open spec fn with_remote_state(
    entries: Entries,
    tag: Seq<u8>,
    state: Option<DeliveryState>,
) -> Entries {
    match unsettled_store::held(entries, tag) {
        None => entries,
        Some(delivery) => unsettled_store::changed(
            entries,
            tag,
            delivery.after_remote_state(state),
        ),
    }
}

/// The entries after one delivery was given a state here.
pub open spec fn with_local_state(entries: Entries, tag: Seq<u8>, state: DeliveryState) -> Entries {
    match unsettled_store::held(entries, tag) {
        None => entries,
        Some(delivery) => unsettled_store::changed(
            entries,
            tag,
            delivery.after_local_state(state),
        ),
    }
}

/// The entries after one delivery was received so far.
pub open spec fn with_progress(
    entries: Entries,
    tag: Seq<u8>,
    section_number: u32,
    section_offset: u64,
) -> Entries {
    match unsettled_store::held(entries, tag) {
        None => entries,
        Some(delivery) => unsettled_store::changed(
            entries,
            tag,
            delivery.after_received(
                DeliveryState::Received(Received { section_number, section_offset }),
                false,
            ),
        ),
    }
}

/// The entries after one delivery was received whole, and decoded or not.
pub open spec fn with_receipt(
    entries: Entries,
    tag: Seq<u8>,
    section_number: u32,
    section_offset: u64,
    decoded: bool,
    info: DeliveryInfo,
) -> Entries {
    match unsettled_store::held(entries, tag) {
        None => entries,
        Some(delivery) => unsettled_store::changed(
            entries,
            tag,
            ReceiverDelivery {
                info: Some(info),
                ..delivery.after_received(
                    DeliveryState::Received(Received { section_number, section_offset }),
                    decoded,
                )
            },
        ),
    }
}

/// The states in which a message may come in.
pub open spec fn takes_messages(state: LinkState) -> bool {
    ||| state == LinkState::Attached
    ||| state == LinkState::IncompleteAttachExchanged
    ||| state == LinkState::DetachSent
}

/// Whether nothing is left to be settled of a delivery: its sender has settled it, or it is not
/// unsettled any more.
pub open spec fn already_settled(transfer: Transfer, entries: Entries) -> bool {
    ||| transfer.settled == Some(true)
    ||| !(transfer.delivery_tag matches Some(tag) && unsettled_store::holds(entries, tag@))
}

/// Whether a delivery may be decoded, or why not. The first check that fails decides.
pub open spec fn admission_of(link: ReceiverLink, transfer: Transfer, entries: Entries) -> Result<
    Admitted,
    ReceiverTransferError,
> {
    let settled = already_settled(transfer, entries);
    if !takes_messages(link.local_state) {
        Err(ReceiverTransferError::IllegalState)
    } else if link.flow_state.link_credit < 1 {
        Err(ReceiverTransferError::TransferLimitExceeded)
    } else if transfer.delivery_id is None {
        Err(ReceiverTransferError::DeliveryIdIsNone)
    } else if transfer.delivery_tag is None {
        Err(ReceiverTransferError::DeliveryTagIsNone)
    } else if !settled && link.rcv_settle_mode == ReceiverSettleMode::First
        && transfer.rcv_settle_mode == Some(ReceiverSettleMode::Second) {
        Err(ReceiverTransferError::IllegalRcvSettleModeInTransfer)
    } else {
        Ok(
            Admitted {
                delivery_id: transfer.delivery_id->0,
                delivery_tag: transfer.delivery_tag->0,
                message_format: transfer.message_format,
                settled,
                mode: if settled {
                    None
                } else {
                    transfer.rcv_settle_mode
                },
            },
        )
    }
}

/// The link after it took a message in: credit is used once the link is attached and has any.
pub open spec fn link_after_message(link: ReceiverLink) -> ReceiverLink {
    if takes_messages(link.local_state) && link.flow_state.link_credit >= 1 {
        Link { flow_state: link.flow_state.consumed(1), ..link }
    } else {
        link
    }
}

/// What identifies an admitted delivery to the application.
pub open spec fn info_of(admitted: Admitted) -> DeliveryInfo {
    DeliveryInfo {
        delivery_id: admitted.delivery_id,
        delivery_tag: admitted.delivery_tag,
        rcv_settle_mode: admitted.mode,
    }
}

/// The unsettled deliveries once an admitted one was decoded or not.
pub open spec fn store_after_receipt(
    store: StoreView<ReceiverDelivery>,
    admitted: Admitted,
    section_number: u32,
    section_offset: u64,
    decoded: bool,
) -> StoreView<ReceiverDelivery> {
    if admitted.settled {
        store
    } else {
        opened(
            store,
            with_receipt(
                store.entries,
                admitted.delivery_tag@,
                section_number,
                section_offset,
                decoded,
                info_of(admitted),
            ),
        )
    }
}

/// What an admitted delivery leads to once it was decoded or not.
pub open spec fn delivered<T>(
    link: ReceiverLink,
    admitted: Admitted,
    decoded: Result<T, codec::Error>,
) -> Result<Delivery<T>, ReceiverTransferError> {
    match decoded {
        Err(source) => Err(
            ReceiverTransferError::MessageDecode(
                MessageDecodeError { source, info: info_of(admitted) },
            ),
        ),
        Ok(message) => match link.output_handle {
            None => Err(ReceiverTransferError::IllegalState),
            Some(handle) => Ok(
                Delivery {
                    link_output_handle: Handle(handle.0),
                    delivery_id: admitted.delivery_id,
                    delivery_tag: admitted.delivery_tag,
                    message_format: admitted.message_format,
                    rcv_settle_mode: admitted.mode,
                    message,
                },
            ),
        },
    }
}

/// The mode in which a delivery is settled: its own, or else that of the link.
pub open spec fn mode_of(info: DeliveryInfo, link_mode: ReceiverSettleMode) -> ReceiverSettleMode {
    match info.rcv_settle_mode {
        Some(mode) => mode,
        None => link_mode,
    }
}

/// Whether a disposition settles: as it is asked to, or else where the receiver settles first.
pub open spec fn settles(
    settled: Option<bool>,
    info: DeliveryInfo,
    link_mode: ReceiverSettleMode,
) -> bool {
    match settled {
        Some(settled) => settled,
        None => mode_of(info, link_mode) == ReceiverSettleMode::First,
    }
}

/// The entries after one delivery was disposed of.
pub open spec fn with_disposal(
    entries: Entries,
    tag: Seq<u8>,
    settled: bool,
    state: DeliveryState,
) -> Entries {
    if settled {
        unsettled_store::without(entries, tag)
    } else {
        with_local_state(entries, tag, state)
    }
}

/// The entries after several deliveries were disposed of, one after the other.
pub open spec fn with_disposals(
    entries: Entries,
    infos: Seq<DeliveryInfo>,
    settled: bool,
    state: DeliveryState,
) -> Entries
    decreases infos.len(),
{
    if infos.len() == 0 {
        entries
    } else {
        with_disposal(
            with_disposals(entries, infos.drop_last(), settled, state),
            infos.last().delivery_tag@,
            settled,
            state,
        )
    }
}

/// The places at which a new disposition is due.
pub fn consecutive_chunk_indices(delivery_infos: &[DeliveryInfo]) -> (starts: Vec<usize>)
    ensures
        starts@ == chunks::run_starts(
            delivery_infos@,
            |left: DeliveryInfo, right: DeliveryInfo| chunks::joins(left, right),
            delivery_infos@.len(),
        ),
{
    let ghost joined = |left: DeliveryInfo, right: DeliveryInfo| chunks::joins(left, right);
    let mut starts: Vec<usize> = Vec::new();
    let mut i: usize = 1;
    assert(starts@ =~= chunks::run_starts(delivery_infos@, joined, 0));
    assert(starts@ =~= chunks::run_starts(delivery_infos@, joined, 1));
    if delivery_infos.len() == 0 {
        return starts;
    }
    while i < delivery_infos.len()
        invariant
            1 <= i <= delivery_infos@.len(),
            joined == (|left: DeliveryInfo, right: DeliveryInfo| chunks::joins(left, right)),
            starts@ == chunks::run_starts(delivery_infos@, joined, i as nat),
        decreases delivery_infos@.len() - i,
    {
        let left = &delivery_infos[i - 1];
        let right = &delivery_infos[i];
        if !(is_consecutive(&left.delivery_id, &right.delivery_id) && left.rcv_settle_mode
            == right.rcv_settle_mode) {
            starts.push(i);
        }
        i += 1;
    }
    starts
}


/// Derive recovery progress from complete encoded section boundaries.
pub fn count_number_of_sections_and_offset(bytes: &[u8]) -> (result: Result<
    (u32, u64),
    ReceiverTransferError,
>)
    ensures
        match result {
            Ok((number, offset)) => message::position(bytes@) == Ok::<(nat, nat), codec::Error>(
                (number as nat, offset as nat),
            ),
            Err(error) => {
                &&& message::position(bytes@) matches Err(source)
                &&& error == ReceiverTransferError::InvalidMessageEncoding(source)
            },
        },
{
    match message::prefix_position(bytes) {
        Ok(position) => Ok(position),
        Err(source) => Err(ReceiverTransferError::InvalidMessageEncoding(source)),
    }
}

/// Whether a disposition settles.
fn resolve_settled(
    settled: Option<bool>,
    info: &DeliveryInfo,
    link_mode: ReceiverSettleMode,
) -> (resolved: bool)
    ensures
        resolved == settles(settled, *info, link_mode),
{
    match settled {
        Some(settled) => settled,
        None => {
            let mode = match info.rcv_settle_mode {
                Some(mode) => mode,
                None => link_mode,
            };
            match mode {
                ReceiverSettleMode::First => true,
                ReceiverSettleMode::Second => false,
            }
        },
    }
}

/// Disposes of one delivery in an opened map. Says whether it was there.
fn dispose_entry(
    map: &mut Option<UnsettledMap<ReceiverDelivery>>,
    tag: &DeliveryTag,
    settled: bool,
    state: &DeliveryState,
) -> (known: bool)
    ensures
        known == unsettled_store::holds(unsettled_store::entries_of(*old(map)), tag@),
        unsettled_store::entries_of(*final(map)) == with_disposal(
            unsettled_store::entries_of(*old(map)),
            tag@,
            settled,
            *state,
        ),
{
    match map {
        None => false,
        Some(map) => {
            if settled {
                map.swap_remove(tag).is_some()
            } else {
                match map.get_index_of(tag) {
                    None => false,
                    Some(at) => {
                        proof {
                            ordered_map::lemma_find(map@, tag@);
                        }
                        map.value_mut(at).local_state(state.clone());
                        true
                    },
                }
            }
        },
    }
}

impl Link<ReceiverMarker> {
    /// Takes down what the sender says of a delivery without sending any of it. One that is
    /// settled is not unsettled any more.
    pub fn on_transfer_state(
        &self,
        unsettled: &mut Store<ReceiverDelivery>,
        delivery_tag: &Option<DeliveryTag>,
        settled: Option<bool>,
        state: DeliveryState,
    ) -> (result: Result<(), ReceiverTransferError>)
        ensures
            match *delivery_tag {
                None => {
                    &&& result == Err::<(), ReceiverTransferError>(
                        ReceiverTransferError::DeliveryTagIsNone,
                    )
                    &&& final(unsettled)@ == old(unsettled)@
                },
                Some(tag) => {
                    let entries = Some(or_empty(old(unsettled)@.entries));
                    &&& result == Ok::<(), ReceiverTransferError>(())
                    &&& final(unsettled)@ == opened(
                        old(unsettled)@,
                        if settled == Some(true) {
                            unsettled_store::without(entries, tag@)
                        } else {
                            with_remote_state(entries, tag@, Some(state))
                        },
                    )
                },
            },
    {
        let tag = match delivery_tag {
            None => return Err(ReceiverTransferError::DeliveryTagIsNone),
            Some(tag) => tag,
        };
        let map = unsettled.write();
        if map.is_none() {
            *map = Some(UnsettledMap::new());
        }
        if let Some(map) = map {
            if settled.unwrap_or(false) {
                let _ = map.swap_remove(tag);
            } else if let Some(at) = map.get_index_of(tag) {
                proof {
                    ordered_map::lemma_find(map@, tag@);
                }
                map.value_mut(at).remote_state(Some(state));
            }
        }
        Ok(())
    }

    /// Takes down how much of an unsettled delivery has come in. No credit is used: credit counts
    /// whole messages.
    pub fn on_incomplete_transfer(
        &self,
        unsettled: &mut Store<ReceiverDelivery>,
        delivery_tag: DeliveryTag,
        section_number: u32,
        section_offset: u64,
    )
        ensures
            final(unsettled)@ == opened(
                old(unsettled)@,
                with_progress(
                    old(unsettled)@.entries,
                    delivery_tag@,
                    section_number,
                    section_offset,
                ),
            ),
    {
        let state = DeliveryState::Received(Received { section_number, section_offset });
        if let Some(map) = unsettled.write() {
            if let Some(at) = map.get_index_of(&delivery_tag) {
                proof {
                    ordered_map::lemma_find(map@, delivery_tag@);
                }
                map.value_mut(at).received(state, false);
            }
        }
    }

    /// Takes a message in, as far as it may be decoded, and uses credit for it.
    pub fn admit_complete_transfer(
        &mut self,
        unsettled: &Store<ReceiverDelivery>,
        transfer: Transfer,
    ) -> (result: Result<Admitted, ReceiverTransferError>)
        ensures
            result == admission_of(*old(self), transfer, unsettled@.entries),
            *final(self) == link_after_message(*old(self)),
    {
        match self.local_state {
            LinkState::Attached
            | LinkState::IncompleteAttachExchanged
            | LinkState::DetachSent => {},
            _ => return Err(ReceiverTransferError::IllegalState),
        }
        if let Err(error) = self.flow_state.consume(1) {
            return Err(error);
        }
        let unsettled_here = match &transfer.delivery_tag {
            None => false,
            Some(tag) => unsettled.contains(tag),
        };
        let settled = transfer.settled.unwrap_or(false) || !unsettled_here;
        let delivery_id = match transfer.delivery_id {
            None => return Err(ReceiverTransferError::DeliveryIdIsNone),
            Some(delivery_id) => delivery_id,
        };
        let delivery_tag = match transfer.delivery_tag {
            None => return Err(ReceiverTransferError::DeliveryTagIsNone),
            Some(delivery_tag) => delivery_tag,
        };
        let mode = if settled {
            // If the message is being sent settled by the sender, the value of this field is
            // ignored.
            None
        } else {
            // If the negotiated link value is first, then it is illegal to set this field to
            // second.
            if matches!(self.rcv_settle_mode, ReceiverSettleMode::First) && matches!(
                transfer.rcv_settle_mode,
                Some(ReceiverSettleMode::Second)
            ) {
                return Err(ReceiverTransferError::IllegalRcvSettleModeInTransfer);
            }
            transfer.rcv_settle_mode
        };
        Ok(
            Admitted {
                delivery_id,
                delivery_tag,
                message_format: transfer.message_format,
                settled,
                mode,
            },
        )
    }

    /// Takes down that an admitted message was decoded, or that it was not, and hands it on. The
    /// delivery is never made unsettled again if it was settled meanwhile.
    pub fn record_complete_transfer<T>(
        &self,
        unsettled: &mut Store<ReceiverDelivery>,
        admitted: Admitted,
        section_number: u32,
        section_offset: u64,
        decoded: Result<T, codec::Error>,
    ) -> (result: Result<Delivery<T>, ReceiverTransferError>)
        ensures
            final(unsettled)@ == store_after_receipt(
                old(unsettled)@,
                admitted,
                section_number,
                section_offset,
                decoded is Ok,
            ),
            result == delivered(*self, admitted, decoded),
    {
        let info = DeliveryInfo {
            delivery_id: admitted.delivery_id,
            delivery_tag: admitted.delivery_tag.clone(),
            rcv_settle_mode: admitted.mode,
        };
        if !admitted.settled {
            let state = DeliveryState::Received(Received { section_number, section_offset });
            if let Some(map) = unsettled.write() {
                if let Some(at) = map.get_index_of(&admitted.delivery_tag) {
                    proof {
                        ordered_map::lemma_find(map@, admitted.delivery_tag@);
                    }
                    let current = map.value_mut(at);
                    current.received(state, decoded.is_ok());
                    current.info = Some(info.clone());
                }
            }
        }
        let message = match decoded {
            Ok(message) => message,
            Err(source) => {
                return Err(
                    ReceiverTransferError::MessageDecode(MessageDecodeError { source, info }),
                );
            },
        };
        match self.output_handle {
            None => Err(ReceiverTransferError::IllegalState),
            Some(handle) => Ok(
                Delivery {
                    link_output_handle: Handle(handle.0),
                    delivery_id: admitted.delivery_id,
                    delivery_tag: admitted.delivery_tag,
                    message_format: admitted.message_format,
                    rcv_settle_mode: admitted.mode,
                    message,
                },
            ),
        }
    }

    /// Takes a whole message in. Its sections are validated before `decode` is asked for it.
    pub fn on_complete_transfer<T, D: FnOnce(&[u8]) -> Result<T, codec::Error>>(
        &mut self,
        unsettled: &mut Store<ReceiverDelivery>,
        transfer: Transfer,
        payload: &[u8],
        section_number: u32,
        section_offset: u64,
        decode: D,
    ) -> (result: Result<Delivery<T>, ReceiverTransferError>)
        requires
            message::valid_message(payload@) ==> decode.requires((payload,)),
        ensures
            *final(self) == link_after_message(*old(self)),
            match admission_of(*old(self), transfer, old(unsettled)@.entries) {
                Err(error) => {
                    &&& result == Err::<Delivery<T>, ReceiverTransferError>(error)
                    &&& final(unsettled)@ == old(unsettled)@
                },
                Ok(admitted) => exists|decoded: Result<T, codec::Error>|
                    {
                        &&& if message::valid_message(payload@) {
                            decode.ensures((payload,), decoded)
                        } else {
                            decoded == Err::<T, codec::Error>(codec::Error::InvalidValue)
                        }
                        &&& result == #[trigger] delivered(*old(self), admitted, decoded)
                        &&& final(unsettled)@ == store_after_receipt(
                            old(unsettled)@,
                            admitted,
                            section_number,
                            section_offset,
                            decoded is Ok,
                        )
                    },
            },
    {
        let admitted = match self.admit_complete_transfer(unsettled, transfer) {
            Err(error) => return Err(error),
            Ok(admitted) => admitted,
        };
        let decoded = match message::validate(payload) {
            Err(error) => Err(error),
            Ok(()) => decode(payload),
        };
        assert(delivered(*old(self), admitted, decoded) == delivered(*self, admitted, decoded));
        self.record_complete_transfer(
            unsettled,
            admitted,
            section_number,
            section_offset,
            decoded,
        )
    }

    /// Disposes of one delivery. A disposition is due only if the delivery is unsettled.
    pub fn dispose(
        &self,
        unsettled: &mut Store<ReceiverDelivery>,
        delivery_info: DeliveryInfo,
        settled: Option<bool>,
        state: DeliveryState,
        batchable: bool,
    ) -> (frame: Option<LinkFrame>)
        ensures
            ({
                let resolved = settles(settled, delivery_info, self.rcv_settle_mode);
                let tag = delivery_info.delivery_tag@;
                &&& final(unsettled)@ == opened(
                    old(unsettled)@,
                    with_disposal(old(unsettled)@.entries, tag, resolved, state),
                )
                &&& frame == (if unsettled_store::holds(old(unsettled)@.entries, tag) {
                    Some(
                        LinkFrame::Disposition(
                            Disposition {
                                role: Role::Receiver,
                                first: delivery_info.delivery_id,
                                last: None,
                                settled: resolved,
                                state: Some(state),
                                batchable,
                            },
                        ),
                    )
                } else {
                    None
                })
            }),
    {
        let settled = resolve_settled(settled, &delivery_info, self.rcv_settle_mode);
        let known = dispose_entry(
            unsettled.write(),
            &delivery_info.delivery_tag,
            settled,
            &state,
        );
        if known {
            Some(
                LinkFrame::Disposition(
                    Disposition {
                        role: Role::Receiver,
                        first: delivery_info.delivery_id,
                        last: None,
                        settled,
                        state: Some(state),
                        batchable,
                    },
                ),
            )
        } else {
            None
        }
    }

    /// Disposes of deliveries with consecutive numbers, all settled alike, by one disposition.
    pub fn dispose_consecutive(
        &self,
        unsettled: &mut Store<ReceiverDelivery>,
        consecutive_infos: &[DeliveryInfo],
        settled: Option<bool>,
        state: DeliveryState,
        batchable: bool,
    ) -> (frame: Option<LinkFrame>)
        ensures
            consecutive_infos@.len() == 0 ==> frame is None && final(unsettled)@ == old(
                unsettled)@,
            consecutive_infos@.len() > 0 ==> {
                let resolved = settles(settled, consecutive_infos@[0], self.rcv_settle_mode);
                &&& final(unsettled)@ == opened(
                    old(unsettled)@,
                    with_disposals(
                        old(unsettled)@.entries,
                        consecutive_infos@,
                        resolved,
                        state,
                    ),
                )
                &&& frame == Some(
                    LinkFrame::Disposition(
                        Disposition {
                            role: Role::Receiver,
                            first: consecutive_infos@[0].delivery_id,
                            last: Some(consecutive_infos@.last().delivery_id),
                            settled: resolved,
                            state: Some(state),
                            batchable,
                        },
                    ),
                )
            },
    {
        let length = consecutive_infos.len();
        if length == 0 {
            return None;
        }
        let settled = resolve_settled(settled, &consecutive_infos[0], self.rcv_settle_mode);
        dispose_entries(unsettled.write(), consecutive_infos, settled, &state);
        Some(
            LinkFrame::Disposition(
                Disposition {
                    role: Role::Receiver,
                    first: consecutive_infos[0].delivery_id,
                    last: Some(consecutive_infos[length - 1].delivery_id),
                    settled,
                    state: Some(state),
                    batchable,
                },
            ),
        )
    }
}

/// Disposes of deliveries in an opened map, one after the other.
fn dispose_entries(
    map: &mut Option<UnsettledMap<ReceiverDelivery>>,
    infos: &[DeliveryInfo],
    settled: bool,
    state: &DeliveryState,
)
    ensures
        unsettled_store::entries_of(*final(map)) == with_disposals(
            unsettled_store::entries_of(*old(map)),
            infos@,
            settled,
            *state,
        ),
{
    let ghost before = unsettled_store::entries_of(*map);
    let mut i: usize = 0;
    while i < infos.len()
        invariant
            i <= infos@.len(),
            unsettled_store::entries_of(*map) == with_disposals(
                before,
                infos@.take(i as int),
                settled,
                *state,
            ),
        decreases infos@.len() - i,
    {
        let _ = dispose_entry(map, &infos[i].delivery_tag, settled, state);
        i += 1;
        assert(infos@.take(i as int).drop_last() =~= infos@.take(i - 1));
    }
    assert(infos@.take(i as int) =~= infos@);
}

/// The flow state of a receiver once new credit and a new drain mode were given, where they were.
pub open spec fn flow_after(
    flow: LinkFlowState,
    link_credit: Option<u32>,
    drain: Option<bool>,
) -> LinkFlowState {
    LinkFlowState {
        link_credit: match link_credit {
            Some(link_credit) => link_credit,
            None => flow.link_credit,
        },
        drain: match drain {
            Some(drain) => drain,
            None => flow.drain,
        },
        ..flow
    }
}

/// The flow that tells a receiver's flow state. The delivery count is the last one known of the
/// sender, and what is available there is not told.
pub open spec fn flow_of(
    flow: LinkFlowState,
    handle: Handle,
    echo: bool,
    include_properties: bool,
) -> LinkFlow {
    LinkFlow {
        handle,
        delivery_count: Some(flow.delivery_count),
        link_credit: Some(flow.link_credit),
        available: None,
        drain: flow.drain,
        echo,
        properties: if include_properties {
            flow.properties
        } else {
            None
        },
    }
}

/// The local unsettled deliveries once the peer told its own. What the peer tells is taken down;
/// what it does not know is settled, unless it told only some.
pub open spec fn reconciled(
    local: Seq<(Seq<u8>, ReceiverDelivery)>,
    remote: Option<Seq<(Seq<u8>, Option<DeliveryState>)>>,
    remote_incomplete: bool,
) -> Seq<(Seq<u8>, ReceiverDelivery)>
    decreases local.len(),
{
    if local.len() == 0 {
        seq![]
    } else {
        let before = reconciled(local.drop_last(), remote, remote_incomplete);
        let (tag, delivery) = local.last();
        match unsettled_store::held(remote, tag) {
            Some(state) => before.push((tag, delivery.after_remote_state(state))),
            None => if remote_incomplete {
                before.push((tag, delivery))
            } else {
                before
            },
        }
    }
}

/// What the exchange of attaches leads to.
pub open spec fn exchange_outcome(
    state: LinkState,
    remote: Option<Seq<(Seq<u8>, Option<DeliveryState>)>>,
    remote_incomplete: bool,
) -> ReceiverAttachExchange {
    if remote_incomplete || state == LinkState::IncompleteAttachReceived || state
        == LinkState::IncompleteAttachSent || state == LinkState::IncompleteAttachExchanged {
        ReceiverAttachExchange::IncompleteUnsettled
    } else if remote is None || remote->0.len() == 0 {
        ReceiverAttachExchange::Complete
    } else {
        ReceiverAttachExchange::Resume
    }
}

/// Only keys that were there before are there after a reconciliation.
proof fn lemma_reconciled_keys(
    local: Seq<(Seq<u8>, ReceiverDelivery)>,
    remote: Option<Seq<(Seq<u8>, Option<DeliveryState>)>>,
    remote_incomplete: bool,
    tag: Seq<u8>,
)
    requires
        forall|i: int| 0 <= i < local.len() ==> (#[trigger] local[i]).0 != tag,
    ensures
        ordered_map::find(reconciled(local, remote, remote_incomplete), tag) is None,
    decreases local.len(),
{
    if local.len() > 0 {
        let before = reconciled(local.drop_last(), remote, remote_incomplete);
        let after = reconciled(local, remote, remote_incomplete);
        assert forall|i: int| 0 <= i < local.len() - 1 implies (
        #[trigger] local.drop_last()[i]).0 != tag by {
            assert(local[i].0 != tag);
        }
        lemma_reconciled_keys(local.drop_last(), remote, remote_incomplete, tag);
        assert(local.last().0 != tag);
        if after.len() > before.len() {
            assert(after.drop_last() =~= before);
        }
    }
}

/// Reconciles the local unsettled deliveries with those that the peer told.
fn reconcile(
    local: &UnsettledMap<ReceiverDelivery>,
    remote: &Option<UnsettledStates>,
    remote_incomplete: bool,
) -> (kept: UnsettledMap<ReceiverDelivery>)
    ensures
        kept@ == reconciled(local@, unsettled_store::entries_of(*remote), remote_incomplete),
{
    let ghost peer = unsettled_store::entries_of(*remote);
    let mut kept: UnsettledMap<ReceiverDelivery> = OrderedMap::new();
    assert(kept@ =~= reconciled(local@.take(0), peer, remote_incomplete));
    let mut at: usize = 0;
    while at < local.len()
        invariant
            at <= local@.len(),
            peer == unsettled_store::entries_of(*remote),
            kept@ == reconciled(local@.take(at as int), peer, remote_incomplete),
        decreases local@.len() - at,
    {
        let (tag, delivery) = local.get_index(at);
        proof {
            assert(local@.take(at + 1).drop_last() =~= local@.take(at as int));
            lemma_reconciled_keys(local@.take(at as int), peer, remote_incomplete, tag@);
        }
        let told = match remote {
            None => None,
            Some(map) => map.get(tag),
        };
        match told {
            Some(state) => {
                let mut delivery = delivery.clone();
                delivery.remote_state(share_state(state));
                kept.push(tag.clone(), delivery);
            },
            None => {
                if remote_incomplete {
                    kept.push(tag.clone(), delivery.clone());
                }
            },
        }
        at += 1;
    }
    assert(local@.take(at as int) =~= local@);
    kept
}

impl Link<ReceiverMarker> {
    /// The flow that tells the flow state of this receiver, once new credit and a new drain mode
    /// were given, where they are.
    pub fn get_link_flow(
        &mut self,
        handle: Handle,
        link_credit: Option<u32>,
        drain: Option<bool>,
        echo: bool,
        include_properties: bool,
    ) -> (flow: LinkFlow)
        ensures
            *final(self) == (Link {
                flow_state: flow_after(old(self).flow_state, link_credit, drain),
                ..*old(self)
            }),
            flow == flow_of(
                flow_after(old(self).flow_state, link_credit, drain),
                handle,
                echo,
                include_properties,
            ),
    {
        if let Some(link_credit) = link_credit {
            self.flow_state.link_credit = link_credit;
        }
        if let Some(drain) = drain {
            self.flow_state.drain = drain;
        }
        let properties = if include_properties {
            share_fields(&self.flow_state.properties)
        } else {
            None
        };
        LinkFlow {
            handle,
            delivery_count: Some(self.flow_state.delivery_count),
            link_credit: Some(self.flow_state.link_credit),
            available: None,
            drain: self.flow_state.drain,
            echo,
            properties,
        }
    }

    /// The flow to be sent. A link that is not attached sends none and keeps its flow state.
    pub fn send_flow(
        &mut self,
        link_credit: Option<u32>,
        drain: Option<bool>,
        echo: bool,
        include_properties: bool,
    ) -> (result: Result<LinkFrame, FlowError>)
        ensures
            match old(self).output_handle {
                None => {
                    &&& result == Err::<LinkFrame, FlowError>(FlowError::IllegalState)
                    &&& *final(self) == *old(self)
                },
                Some(handle) => {
                    let flow = flow_after(old(self).flow_state, link_credit, drain);
                    &&& *final(self) == (Link { flow_state: flow, ..*old(self) })
                    &&& result == Ok::<LinkFrame, FlowError>(
                        LinkFrame::Flow(flow_of(flow, Handle(handle.0), echo, include_properties)),
                    )
                },
            },
    {
        let handle = match self.output_handle {
            None => return Err(FlowError::IllegalState),
            Some(handle) => Handle(handle.0),
        };
        let flow = self.get_link_flow(handle, link_credit, drain, echo, include_properties);
        Ok(LinkFrame::Flow(flow))
    }

    /// Reconciles the unsettled deliveries with those that the peer told in its attach.
    pub fn handle_unsettled_in_attach(
        &self,
        unsettled: &mut Store<ReceiverDelivery>,
        remote_unsettled: Option<UnsettledStates>,
        remote_incomplete: bool,
    ) -> (exchange: ReceiverAttachExchange)
        ensures
            ({
                let remote = unsettled_store::entries_of(remote_unsettled);
                &&& final(unsettled)@ == opened(
                    old(unsettled)@,
                    match old(unsettled)@.entries {
                        None => None,
                        Some(local) => Some(reconciled(local, remote, remote_incomplete)),
                    },
                )
                &&& exchange == exchange_outcome(self.local_state, remote, remote_incomplete)
            }),
    {
        let remote_is_empty = match &remote_unsettled {
            None => true,
            Some(map) => map.is_empty(),
        };
        let guard = unsettled.write();
        if let Some(local) = guard.take() {
            *guard = Some(reconcile(&local, &remote_unsettled, remote_incomplete));
        }
        if remote_incomplete || matches!(
            self.local_state,
            LinkState::IncompleteAttachReceived | LinkState::IncompleteAttachSent
                | LinkState::IncompleteAttachExchanged
        ) {
            ReceiverAttachExchange::IncompleteUnsettled
        } else if remote_is_empty {
            ReceiverAttachExchange::Complete
        } else {
            ReceiverAttachExchange::Resume
        }
    }

    /// The greatest message size, where there is one.
    pub fn max_message_size(&self) -> (size: Option<u64>)
        ensures
            size == (if self.max_message_size == 0 {
                None
            } else {
                Some(self.max_message_size)
            }),
    {
        match self.max_message_size {
            0 => None,
            size => Some(size),
        }
    }
}

/// Deliveries in the order of their numbers.
pub open spec fn sorted_by_id(infos: Seq<DeliveryInfo>) -> bool {
    forall|i: int, j: int|
        0 <= i < j < infos.len() ==> (#[trigger] infos[i]).delivery_id <= (#[trigger]
        infos[j]).delivery_id
}

/// The deliveries of one number, in order.
pub open spec fn with_id(infos: Seq<DeliveryInfo>, delivery_id: DeliveryNumber) -> Seq<
    DeliveryInfo,
> {
    infos.filter(|info: DeliveryInfo| info.delivery_id == delivery_id)
}

/// Whether one list is the other, brought in the order of numbers without disturbing those of one
/// number.
pub open spec fn stably_sorted(sorted: Seq<DeliveryInfo>, infos: Seq<DeliveryInfo>) -> bool {
    &&& sorted_by_id(sorted)
    &&& forall|delivery_id: DeliveryNumber| #[trigger]
        with_id(sorted, delivery_id) == with_id(infos, delivery_id)
}

/// The deliveries that are unsettled, in order.
pub open spec fn still_unsettled(infos: Seq<DeliveryInfo>, entries: Entries) -> Seq<DeliveryInfo> {
    infos.filter(|info: DeliveryInfo| unsettled_store::holds(entries, info.delivery_tag@))
}

/// Whether `runs` are those of `infos`, cut where no disposition can speak of both neighbours.
pub open spec fn runs_of(runs: Seq<Vec<DeliveryInfo>>, infos: Seq<DeliveryInfo>) -> bool {
    let starts = chunks::run_starts(
        infos,
        |left: DeliveryInfo, right: DeliveryInfo| chunks::joins(left, right),
        infos.len(),
    );
    &&& runs.len() == starts.len() + 1
    &&& forall|run: int|
        0 <= run < runs.len() ==> (#[trigger] runs[run])@ == infos.subrange(
            chunks::run_start(starts, run),
            chunks::run_end(starts, infos.len(), run),
        )
}

/// Sorts deliveries by number with `slice::sort_by_key`, which documents its result as sorted by
/// the key and stable: deliveries of one number keep their order.
#[verifier::external_body]
fn sort_by_delivery_id(infos: &mut Vec<DeliveryInfo>)
    ensures
        stably_sorted(final(infos)@, old(infos)@),
{
    infos.sort_by_key(|info| info.delivery_id);
}

/// The deliveries that are unsettled, in order.
fn retain_unsettled_infos(
    infos: Vec<DeliveryInfo>,
    unsettled: &Store<ReceiverDelivery>,
) -> (kept: Vec<DeliveryInfo>)
    ensures
        kept@ == still_unsettled(infos@, unsettled@.entries),
{
    let ghost all = infos@;
    let ghost entries = unsettled@.entries;
    let mut kept: Vec<DeliveryInfo> = Vec::new();
    proof {
        reveal(Seq::filter);
        assert(kept@ =~= still_unsettled(all.take(0), entries));
    }
    for info in iter: infos
        invariant
            iter.seq() == all,
            entries == unsettled@.entries,
            kept@ == still_unsettled(all.take(iter.index()), entries),
    {
        let ghost at = iter.index();
        proof {
            reveal(Seq::filter);
            assert(all.take(at + 1).drop_last() =~= all.take(at));
        }
        if unsettled.contains(&info.delivery_tag) {
            kept.push(info);
        }
    }
    assert(all.take(all.len() as int) =~= all);
    kept
}

/// Copies deliveries out of a list.
fn copy_infos(infos: &[DeliveryInfo], start: usize, end: usize) -> (copies: Vec<DeliveryInfo>)
    requires
        start <= end <= infos@.len(),
    ensures
        copies@ == infos@.subrange(start as int, end as int),
{
    let mut copies: Vec<DeliveryInfo> = Vec::new();
    let mut i: usize = start;
    assert(copies@ =~= infos@.subrange(start as int, start as int));
    while i < end
        invariant
            start <= i <= end <= infos@.len(),
            copies@ == infos@.subrange(start as int, i as int),
        decreases end - i,
    {
        copies.push(infos[i].clone());
        i += 1;
        assert(copies@ =~= infos@.subrange(start as int, i as int));
    }
    copies
}

impl Link<ReceiverMarker> {
    /// The runs of deliveries that are to be disposed of together: those of them that are
    /// unsettled, in the order of their numbers, cut where one disposition cannot speak of both
    /// neighbours. Each run is then disposed of by [`dispose_consecutive`](Self::dispose_consecutive).
    pub fn dispose_all(
        &self,
        unsettled: &Store<ReceiverDelivery>,
        delivery_infos: Vec<DeliveryInfo>,
    ) -> (runs: Vec<Vec<DeliveryInfo>>)
        ensures
            exists|sorted: Seq<DeliveryInfo>|
                {
                    &&& #[trigger] stably_sorted(sorted, delivery_infos@)
                    &&& runs_of(runs@, still_unsettled(sorted, unsettled@.entries))
                },
    {
        let mut sorted = delivery_infos;
        sort_by_delivery_id(&mut sorted);
        let ghost in_order = sorted@;
        let kept = retain_unsettled_infos(sorted, unsettled);
        let starts = consecutive_chunk_indices(kept.as_slice());
        let ghost joined = |left: DeliveryInfo, right: DeliveryInfo| chunks::joins(left, right);
        proof {
            chunks::lemma_run_starts(kept@, joined, kept@.len());
        }
        let mut runs: Vec<Vec<DeliveryInfo>> = Vec::new();
        let mut i: usize = 0;
        let mut previous: usize = 0;
        while i < starts.len()
            invariant
                i <= starts@.len(),
                i == runs@.len(),
                previous == chunks::run_start(starts@, i as int),
                previous <= kept@.len(),
                i < starts@.len() ==> previous < starts@[i as int],
                forall|k: int| 0 <= k < starts@.len() ==> 1 <= #[trigger] starts@[k] < kept@.len(),
                forall|k: int, l: int|
                    0 <= k < l < starts@.len() ==> #[trigger] starts@[k] < #[trigger] starts@[l],
                forall|run: int|
                    0 <= run < runs@.len() ==> (#[trigger] runs@[run])@ == kept@.subrange(
                        chunks::run_start(starts@, run),
                        chunks::run_end(starts@, kept@.len(), run),
                    ),
            decreases starts@.len() - i,
        {
            let next = starts[i];
            runs.push(copy_infos(kept.as_slice(), previous, next));
            previous = next;
            i += 1;
        }
        runs.push(copy_infos(kept.as_slice(), previous, kept.len()));
        assert(runs_of(runs@, kept@));
        assert(stably_sorted(in_order, delivery_infos@));
        runs
    }
}

} // verus!
