//! A session: the windows within which transfers go in and out, and the frames that it sends.

use std::collections::{HashMap, HashSet, VecDeque};

use slab::Slab;

use vstd::prelude::*;

use crate::chunks::{self, is_consecutive};
use crate::definitions::{
    self, is_settled_outcome, DeliveryNumber, DeliveryTag, Fields, Handle, IncomingChannel,
    InputHandle, OutgoingChannel, OutputHandle, Payload, SequenceNo, TransferNumber,
};
use crate::errors::{ConnectionStopReason, SessionInnerError, SessionStopReason};
use crate::flow_state;
use crate::frame::{
    self, LinkFrame, SessionFrame, SessionFrameBody, SessionOutgoingItem,
};
use crate::handles;
use crate::ordered_map::{self, OrderedMap};
use crate::performatives::{Attach, Capabilities, Disposition, Flow, LinkFlow, Transfer};
use crate::receive_window::{ReceiveWindow, WindowView};
use crate::relay::{self, LinkRelay, RelayView};
use crate::session_transfer_laws;
use crate::transfer_queue::QueueSlot;

verus! {

/// Default incoming_window and outgoing_window.
pub const DEFAULT_WINDOW: u32 = 5000;

/// How far a session is mapped.
#[derive(Debug, Clone, Copy, PartialEq, Eq, Structural)]
pub enum SessionState {
    /// Not at all.
    Unmapped,
    /// A begin was sent.
    BeginSent,
    /// A begin came in.
    BeginReceived,
    /// Mapped.
    Mapped,
    /// An end was sent.
    EndSent,
    /// An end came in.
    EndReceived,
    /// An end with an error was sent.
    Discarding,
}

/// An outgoing transfer that waits for the peer to open its window.
#[derive(Debug)]
pub struct BufferedTransfer {
    /// The link.
    pub input_handle: InputHandle,
    /// What is said of the delivery.
    pub transfer: Transfer,
    /// The message bytes.
    pub payload: Payload,
    /// The bytes that are reserved until the transfer is sent.
    pub queue_slot: Option<QueueSlot>,
}

/// The link and the tag of a delivery that is not settled.
pub type TagByLink = (InputHandle, DeliveryTag);

/// One end of a session.
pub struct Session {
    /// The channel on which this end sends.
    pub outgoing_channel: OutgoingChannel,
    /// Why the session stopped, once it did.
    pub session_stop_reason: Option<SessionStopReason>,
    /// Why the connection stopped, once it did.
    pub connection_stop_reason: Option<ConnectionStopReason>,
    /// How far the session is mapped.
    pub local_state: SessionState,
    /// The number of the first transfer.
    pub initial_outgoing_id: TransferNumber,
    /// The number of the next transfer that goes out.
    pub next_outgoing_id: TransferNumber,
    /// How many transfers may come in.
    pub incoming_window: TransferNumber,
    /// How many transfers may go out.
    pub outgoing_window: TransferNumber,
    /// The greatest handle that the peer may use.
    pub handle_max: Handle,
    /// The channel on which the peer sends, once it began the session.
    pub incoming_channel: Option<IncomingChannel>,
    /// The number of the next transfer that comes in.
    pub next_incoming_id: TransferNumber,
    /// How many slots were released since the window was last told.
    pub need_flow_count: u32,
    /// The slots that incoming transfers take.
    pub receive_window: ReceiveWindow,
    /// How many transfers the peer can take.
    pub remote_incoming_window: SequenceNo,
    /// The transfers that the peer cannot take yet, in order.
    pub remote_incoming_window_exhausted_buffer: VecDeque<BufferedTransfer>,
    /// How many transfers the peer may send.
    pub remote_outgoing_window: SequenceNo,
    /// Capabilities that this end has.
    pub offered_capabilities: Option<Capabilities>,
    /// Capabilities that this end would like.
    pub desired_capabilities: Option<Capabilities>,
    /// Session properties.
    pub properties: Option<Fields>,
    /// The names of local links by output handle.
    pub link_name_by_output_handle: Slab<String>,
    /// The local links by name. A link that is attached has moved to its input handle.
    pub link_by_name: OrderedMap<String, Option<LinkRelay<OutputHandle>>>,
    /// The attached links by input handle.
    pub link_by_input_handle: HashMap<u32, LinkRelay<OutputHandle>>,
    /// The output handles of links whose own detach waits for the answer of the peer.
    pub close_pending: HashSet<u32>,
    /// The unsettled deliveries that went out, by number. Dispositions of the receiver name them.
    pub outgoing_deliveries: HashMap<u32, TagByLink>,
    /// The unsettled deliveries that came in, by number. Dispositions of the sender name them.
    pub incoming_deliveries: HashMap<u32, TagByLink>,
}

/// A session as it is spoken of.
pub struct SessionView {
    pub outgoing_channel: OutgoingChannel,
    pub session_stop_reason: Option<SessionStopReason>,
    pub connection_stop_reason: Option<ConnectionStopReason>,
    pub local_state: SessionState,
    pub initial_outgoing_id: TransferNumber,
    pub next_outgoing_id: TransferNumber,
    pub incoming_window: TransferNumber,
    pub outgoing_window: TransferNumber,
    pub handle_max: Handle,
    pub incoming_channel: Option<IncomingChannel>,
    pub next_incoming_id: TransferNumber,
    pub need_flow_count: u32,
    pub receive_window: WindowView,
    pub remote_incoming_window: SequenceNo,
    pub buffer: Seq<BufferedTransfer>,
    pub remote_outgoing_window: SequenceNo,
    pub offered_capabilities: Option<Capabilities>,
    pub desired_capabilities: Option<Capabilities>,
    pub properties: Option<Fields>,
    pub names: Map<usize, Seq<char>>,
    pub next_handle: usize,
    pub links_by_name: Seq<(Seq<char>, Option<RelayView<OutputHandle>>)>,
    pub links: Map<u32, RelayView<OutputHandle>>,
    pub close_pending: Set<u32>,
    pub outgoing_deliveries: Map<u32, (InputHandle, Seq<u8>)>,
    pub incoming_deliveries: Map<u32, (InputHandle, Seq<u8>)>,
}

/// What is said of a link that may have moved to its input handle.
pub open spec fn relay_view(relay: Option<LinkRelay<OutputHandle>>) -> Option<
    RelayView<OutputHandle>,
> {
    match relay {
        None => None,
        Some(relay) => Some(relay@),
    }
}

/// What is said of links by input handle.
pub open spec fn relay_views(links: Map<u32, LinkRelay<OutputHandle>>) -> Map<
    u32,
    RelayView<OutputHandle>,
> {
    links.map_values(|relay: LinkRelay<OutputHandle>| relay@)
}

/// What is said of deliveries by number.
pub open spec fn delivery_views(deliveries: Map<u32, TagByLink>) -> Map<
    u32,
    (InputHandle, Seq<u8>),
> {
    deliveries.map_values(|delivery: TagByLink| (delivery.0, delivery.1@))
}

impl View for Session {
    type V = SessionView;

    open spec fn view(&self) -> SessionView {
        SessionView {
            outgoing_channel: self.outgoing_channel,
            session_stop_reason: self.session_stop_reason,
            connection_stop_reason: self.connection_stop_reason,
            local_state: self.local_state,
            initial_outgoing_id: self.initial_outgoing_id,
            next_outgoing_id: self.next_outgoing_id,
            incoming_window: self.incoming_window,
            outgoing_window: self.outgoing_window,
            handle_max: self.handle_max,
            incoming_channel: self.incoming_channel,
            next_incoming_id: self.next_incoming_id,
            need_flow_count: self.need_flow_count,
            receive_window: self.receive_window@,
            remote_incoming_window: self.remote_incoming_window,
            buffer: self.remote_incoming_window_exhausted_buffer@,
            remote_outgoing_window: self.remote_outgoing_window,
            offered_capabilities: self.offered_capabilities,
            desired_capabilities: self.desired_capabilities,
            properties: self.properties,
            names: handles::held_names(self.link_name_by_output_handle),
            next_handle: handles::next_key(self.link_name_by_output_handle),
            links_by_name: ordered_map::mapped(
                self.link_by_name@,
                |relay: Option<LinkRelay<OutputHandle>>| relay_view(relay),
            ),
            links: relay_views(self.link_by_input_handle@),
            close_pending: self.close_pending@,
            outgoing_deliveries: delivery_views(self.outgoing_deliveries@),
            incoming_deliveries: delivery_views(self.incoming_deliveries@),
        }
    }
}

/// What changes in links by input handle.
pub proof fn lemma_relay_views(
    links: Map<u32, LinkRelay<OutputHandle>>,
    key: u32,
    relay: LinkRelay<OutputHandle>,
)
    ensures
        relay_views(links.insert(key, relay)) == relay_views(links).insert(key, relay@),
        relay_views(links.remove(key)) == relay_views(links).remove(key),
{
    assert(relay_views(links.insert(key, relay)) =~= relay_views(links).insert(key, relay@));
    assert(relay_views(links.remove(key)) =~= relay_views(links).remove(key));
}

/// What changes in deliveries by number.
pub proof fn lemma_delivery_views(deliveries: Map<u32, TagByLink>, key: u32, delivery: TagByLink)
    ensures
        delivery_views(deliveries.insert(key, delivery)) == delivery_views(deliveries).insert(
            key,
            (delivery.0, delivery.1@),
        ),
        delivery_views(deliveries.remove(key)) == delivery_views(deliveries).remove(key),
{
    assert(delivery_views(deliveries.insert(key, delivery)) =~= delivery_views(deliveries).insert(
        key,
        (delivery.0, delivery.1@),
    ));
    assert(delivery_views(deliveries.remove(key)) =~= delivery_views(deliveries).remove(key));
}

/// What a session is made with.
#[derive(Debug)]
pub struct Builder {
    /// The number of the first transfer.
    pub next_outgoing_id: TransferNumber,
    /// How many transfers may come in.
    pub incoming_window: TransferNumber,
    /// How many transfers may go out.
    pub outgoing_window: TransferNumber,
    /// The greatest handle that the peer may use.
    pub handle_max: Handle,
    /// Capabilities that this end has.
    pub offered_capabilities: Option<Capabilities>,
    /// Capabilities that this end would like.
    pub desired_capabilities: Option<Capabilities>,
    /// Session properties.
    pub properties: Option<Fields>,
}

impl Builder {
    /// The default configuration.
    pub fn new() -> (builder: Self)
        ensures
            builder == (Builder {
                next_outgoing_id: 0,
                incoming_window: DEFAULT_WINDOW,
                outgoing_window: DEFAULT_WINDOW,
                handle_max: Handle(u32::MAX),
                offered_capabilities: None,
                desired_capabilities: None,
                properties: None,
            }),
    {
        Builder {
            next_outgoing_id: 0,
            incoming_window: DEFAULT_WINDOW,
            outgoing_window: DEFAULT_WINDOW,
            handle_max: Handle(u32::MAX),
            offered_capabilities: None,
            desired_capabilities: None,
            properties: None,
        }
    }

    /// The same with another window for incoming transfers.
    pub fn incoming_window(self, incoming_window: TransferNumber) -> (builder: Self)
        ensures
            builder == (Builder { incoming_window, ..self }),
    {
        Builder { incoming_window, ..self }
    }

    /// The same with another window for outgoing transfers.
    pub fn outgoing_window(self, outgoing_window: TransferNumber) -> (builder: Self)
        ensures
            builder == (Builder { outgoing_window, ..self }),
    {
        Builder { outgoing_window, ..self }
    }

    /// The same with another greatest handle.
    pub fn handle_max(self, handle_max: Handle) -> (builder: Self)
        ensures
            builder == (Builder { handle_max, ..self }),
    {
        Builder { handle_max, ..self }
    }

    /// The session, without any link or delivery.
    pub fn into_session(
        self,
        outgoing_channel: OutgoingChannel,
        local_state: SessionState,
    ) -> (session: Session)
        ensures
            session@ == (SessionView {
                outgoing_channel,
                session_stop_reason: None,
                connection_stop_reason: None,
                local_state,
                initial_outgoing_id: self.next_outgoing_id,
                next_outgoing_id: self.next_outgoing_id,
                incoming_window: self.incoming_window,
                outgoing_window: self.outgoing_window,
                handle_max: self.handle_max,
                incoming_channel: None,
                next_incoming_id: 0,
                need_flow_count: 0,
                receive_window: WindowView { maximum: self.incoming_window, held: 0, released: 0 },
                remote_incoming_window: 0,
                buffer: seq![],
                remote_outgoing_window: 0,
                offered_capabilities: self.offered_capabilities,
                desired_capabilities: self.desired_capabilities,
                properties: self.properties,
                names: Map::empty(),
                next_handle: 0,
                links_by_name: seq![],
                links: Map::empty(),
                close_pending: Set::empty(),
                outgoing_deliveries: Map::empty(),
                incoming_deliveries: Map::empty(),
            }),
    {
        let session = Session {
            outgoing_channel,
            session_stop_reason: None,
            connection_stop_reason: None,
            local_state,
            initial_outgoing_id: self.next_outgoing_id,
            next_outgoing_id: self.next_outgoing_id,
            incoming_window: self.incoming_window,
            outgoing_window: self.outgoing_window,
            handle_max: self.handle_max,
            incoming_channel: None,
            next_incoming_id: 0,
            need_flow_count: 0,
            receive_window: ReceiveWindow::new(self.incoming_window),
            remote_incoming_window: 0,
            remote_incoming_window_exhausted_buffer: VecDeque::new(),
            remote_outgoing_window: 0,
            offered_capabilities: self.offered_capabilities,
            desired_capabilities: self.desired_capabilities,
            properties: self.properties,
            link_name_by_output_handle: handles::no_handles(),
            link_by_name: OrderedMap::new(),
            link_by_input_handle: HashMap::new(),
            close_pending: HashSet::new(),
            outgoing_deliveries: HashMap::new(),
            incoming_deliveries: HashMap::new(),
        };
        assert(session@.links_by_name =~= seq![]);
        assert(session@.links =~= Map::empty());
        assert(session@.outgoing_deliveries =~= Map::empty());
        assert(session@.incoming_deliveries =~= Map::empty());
        session
    }
}

/// The number before another, which is not less than zero.
pub open spec fn one_less(number: u32) -> u32 {
    if number == 0 {
        0
    } else {
        (number - 1) as u32
    }
}

/// A transfer as it is sent: one that begins a delivery is given the next number.
pub open spec fn numbered(transfer: Transfer, next_outgoing_id: TransferNumber) -> Transfer {
    if transfer.delivery_tag is Some {
        Transfer { delivery_id: Some(next_outgoing_id), ..transfer }
    } else {
        transfer
    }
}

/// The frame by which a session sends a transfer.
pub open spec fn transfer_frame(session: SessionView, waiting: BufferedTransfer) -> SessionFrame {
    SessionFrame {
        channel: session.outgoing_channel,
        body: SessionFrameBody::Transfer {
            performative: numbered(waiting.transfer, session.next_outgoing_id),
            payload: waiting.payload,
        },
        queue_slot: waiting.queue_slot,
    }
}

/// A session after it sent a transfer: it counts on, the peer can take one less, and a delivery
/// that is not settled is taken down by its number.
pub open spec fn after_transfer_sent(
    session: SessionView,
    waiting: BufferedTransfer,
) -> SessionView {
    SessionView {
        next_outgoing_id: flow_state::advanced(session.next_outgoing_id, 1),
        remote_incoming_window: one_less(session.remote_incoming_window),
        outgoing_deliveries: if waiting.transfer.delivery_tag is Some && waiting.transfer.settled
            != Some(true) {
            session.outgoing_deliveries.insert(
                session.next_outgoing_id,
                (waiting.input_handle, waiting.transfer.delivery_tag->0@),
            )
        } else {
            session.outgoing_deliveries
        },
        ..session
    }
}

/// A session after it sent waiting transfers, and the frames by which it did.
pub struct Drained {
    pub session: SessionView,
    pub frames: Seq<SessionFrame>,
}

/// What a session does with the first `count` of its waiting transfers when it can send them.
pub open spec fn drained(session: SessionView, count: nat) -> Drained
    decreases count,
{
    if count == 0 {
        Drained { session, frames: seq![] }
    } else {
        let before = drained(session, (count - 1) as nat);
        let waiting = before.session.buffer[0];
        let sent = after_transfer_sent(before.session, waiting);
        Drained {
            session: SessionView {
                buffer: sent.buffer.subrange(1, sent.buffer.len() as int),
                ..sent
            },
            frames: before.frames.push(transfer_frame(before.session, waiting)),
        }
    }
}

/// How many of the waiting transfers the peer can take.
pub open spec fn drainable(session: SessionView) -> nat {
    if session.buffer.len() <= session.remote_incoming_window {
        session.buffer.len()
    } else {
        session.remote_incoming_window as nat
    }
}

proof fn lemma_drained(session: SessionView, count: nat)
    requires
        count <= drainable(session),
    ensures
        ({
            let after = drained(session, count);
            &&& after.session.buffer == session.buffer.subrange(
                count as int,
                session.buffer.len() as int,
            )
            &&& after.session.remote_incoming_window == session.remote_incoming_window - count
            &&& after.frames.len() == count
        }),
    decreases count,
{
    if count == 0 {
        assert(session.buffer.subrange(0, session.buffer.len() as int) =~= session.buffer);
    } else {
        lemma_drained(session, (count - 1) as nat);
        let before = drained(session, (count - 1) as nat).session.buffer;
        assert(before.subrange(1, before.len() as int) =~= session.buffer.subrange(
            count as int,
            session.buffer.len() as int,
        ));
    }
}

impl Session {
    /// Creates a builder for [`Session`].
    pub fn builder() -> (builder: Builder)
        ensures
            builder == (Builder {
                next_outgoing_id: 0,
                incoming_window: DEFAULT_WINDOW,
                outgoing_window: DEFAULT_WINDOW,
                handle_max: Handle(u32::MAX),
                offered_capabilities: None,
                desired_capabilities: None,
                properties: None,
            }),
    {
        Builder::new()
    }

    fn on_outgoing_transfer_inner(&mut self, waiting: BufferedTransfer) -> (frame: SessionFrame)
        ensures
            final(self)@ == after_transfer_sent(old(self)@, waiting),
            frame == transfer_frame(old(self)@, waiting),
    {
        broadcast use vstd::std_specs::hash::group_hash_axioms;

        let input_handle = waiting.input_handle;
        let payload = waiting.payload;
        let queue_slot = waiting.queue_slot;
        let mut transfer = waiting.transfer;
        let settled = transfer.settled.unwrap_or(false);
        // Only the first transfer is required to have delivery_tag and delivery_id
        if let Some(delivery_tag) = &transfer.delivery_tag {
            let delivery_id = self.next_outgoing_id;
            if !settled {
                let delivery = (input_handle, delivery_tag.clone());
                proof {
                    lemma_delivery_views(self.outgoing_deliveries@, delivery_id, delivery);
                }
                self.outgoing_deliveries.insert(delivery_id, delivery);
            }
            transfer.delivery_id = Some(delivery_id);
        }
        self.next_outgoing_id = self.next_outgoing_id.wrapping_add(1);
        self.remote_incoming_window = self.remote_incoming_window.saturating_sub(1);
        SessionFrame {
            channel: self.outgoing_channel,
            body: SessionFrameBody::Transfer { performative: transfer, payload },
            queue_slot,
        }
    }
}

impl Session {
    /// Sends as many of the waiting transfers as the peer can take, after the frames given.
    pub fn prepare_session_frames_from_buffered_transfers(
        &mut self,
        output_frame_buffer: Vec<SessionFrame>,
    ) -> (frames: Vec<SessionFrame>)
        ensures
            final(self)@ == drained(old(self)@, drainable(old(self)@)).session,
            frames@ == output_frame_buffer@ + drained(old(self)@, drainable(old(self)@)).frames,
    {
        let ghost start = self@;
        let ghost first = output_frame_buffer@;
        let ghost mut count: nat = 0;
        let mut frames = output_frame_buffer;
        proof {
            lemma_drained(start, 0);
            assert(frames@ =~= first + drained(start, 0).frames);
        }
        while self.remote_incoming_window > 0
            invariant_except_break
                count <= drainable(start),
                self@ == drained(start, count).session,
                frames@ == first + drained(start, count).frames,
                self.remote_incoming_window == 0 ==> count == drainable(start),
            ensures
                self@ == drained(start, drainable(start)).session,
                frames@ == first + drained(start, drainable(start)).frames,
            decreases self.remote_incoming_window,
        {
            proof {
                lemma_drained(start, count);
            }
            match self.remote_incoming_window_exhausted_buffer.pop_front() {
                None => {
                    break;
                },
                Some(waiting) => {
                    let frame = self.on_outgoing_transfer_inner(waiting);
                    frames.push(frame);
                    proof {
                        count = count + 1;
                        lemma_drained(start, count);
                        assert(frames@ =~= first + drained(start, count).frames);
                        assert(self@ == drained(start, count).session);
                    }
                },
            }
        }
        frames
    }
}

/// What a session does with a transfer that comes after waiting ones: it sends as many of those
/// as the peer can take, and then the new one, or lets it wait with the others.
pub open spec fn drained_with(session: SessionView, waiting: BufferedTransfer) -> Drained {
    let before = drained(session, drainable(session));
    if before.session.remote_incoming_window > 0 {
        Drained {
            session: after_transfer_sent(before.session, waiting),
            frames: before.frames.push(transfer_frame(before.session, waiting)),
        }
    } else {
        Drained {
            session: SessionView { buffer: before.session.buffer.push(waiting), ..before.session },
            frames: before.frames,
        }
    }
}

/// How many transfers a session can take.
pub open spec fn available(session: SessionView) -> u32 {
    (session.receive_window.maximum - session.receive_window.held) as u32
}

/// The flow by which a session tells its windows, and the flow state of a link where there is one.
pub open spec fn flow_for(session: SessionView, link: Option<LinkFlow>) -> Flow {
    Flow {
        next_incoming_id: Some(session.next_incoming_id),
        incoming_window: available(session),
        next_outgoing_id: session.next_outgoing_id,
        outgoing_window: session.outgoing_window,
        handle: match link {
            None => None,
            Some(link) => Some(link.handle),
        },
        delivery_count: match link {
            None => None,
            Some(link) => link.delivery_count,
        },
        link_credit: match link {
            None => None,
            Some(link) => link.link_credit,
        },
        available: match link {
            None => None,
            Some(link) => link.available,
        },
        drain: link is Some && link->0.drain,
        echo: link is Some && link->0.echo,
        properties: match link {
            None => None,
            Some(link) => link.properties,
        },
    }
}

/// A frame of a session that holds no reservation.
pub open spec fn plain_frame(session: SessionView, body: SessionFrameBody) -> SessionFrame {
    SessionFrame { channel: session.outgoing_channel, body, queue_slot: None }
}

/// How many transfers the peer can still take: those of its window that are not in flight.
///
/// Sequence numbers wrap. In flight is what was sent beyond the number that the peer expects.
pub open spec fn window_left(window: u32, next_outgoing_id: u32, peer_next: u32) -> u32 {
    let in_flight = (next_outgoing_id - peer_next) % 0x1_0000_0000;
    if window <= in_flight {
        0
    } else {
        (window - in_flight) as u32
    }
}

/// A session after the peer told its windows.
pub open spec fn after_flow(session: SessionView, flow: Flow) -> SessionView {
    SessionView {
        next_incoming_id: flow.next_outgoing_id,
        remote_outgoing_window: flow.outgoing_window,
        remote_incoming_window: window_left(
            flow.incoming_window,
            session.next_outgoing_id,
            match flow.next_incoming_id {
                Some(peer_next) => peer_next,
                None => session.initial_outgoing_id,
            },
        ),
        ..session
    }
}

/// A flow on its way to the flow state of a link.
#[derive(Debug)]
pub struct RoutedFlow {
    /// The link.
    pub input_handle: InputHandle,
    /// A frame that the link is handed before.
    pub acquisition: Option<LinkFrame>,
    /// The flow.
    pub flow: LinkFlow,
}

/// The sum of two numbers, or the greatest there is.
pub open spec fn capped_sum(one: u32, other: u32) -> u32 {
    if one + other > u32::MAX {
        u32::MAX
    } else {
        (one + other) as u32
    }
}

/// After how many released slots the window is told again.
pub open spec fn flow_threshold(incoming_window: u32) -> u32 {
    if incoming_window / 2 == 0 {
        1
    } else {
        incoming_window / 2
    }
}

/// A session once the slots that were released are counted.
pub open spec fn released_counted(session: SessionView) -> SessionView {
    SessionView {
        need_flow_count: capped_sum(session.need_flow_count, session.receive_window.released),
        receive_window: WindowView { released: 0, ..session.receive_window },
        ..session
    }
}

/// Whether the window is to be told again.
pub open spec fn flow_due(session: SessionView) -> bool {
    &&& session.local_state == SessionState::Mapped
    &&& released_counted(session).need_flow_count >= flow_threshold(session.incoming_window)
}

/// How many messages a disposition speaks of.
pub open spec fn disposition_count(first: u32, last: Option<u32>) -> int {
    match last {
        Some(last) => if last >= first {
            last - first + 1
        } else {
            1
        },
        None => 1,
    }
}

/// How many messages a disposition settles. Not all numbers there are at once.
pub fn num_messages_settled_by_disposition(first: u32, last: Option<u32>) -> (count: u32)
    requires
        disposition_count(first, last) <= u32::MAX,
    ensures
        count == disposition_count(first, last),
{
    match last {
        Some(last) => {
            if last >= first {
                last - first + 1
            } else {
                1
            }
        },
        None => 1,
    }
}

/// The places at which a new disposition is due.
pub fn consecutive_chunk_indices(delivery_ids: &[DeliveryNumber]) -> (starts: Vec<usize>)
    ensures
        starts@ == chunks::run_starts(
            delivery_ids@,
            |left: DeliveryNumber, right: DeliveryNumber| chunks::follows(left, right),
            delivery_ids@.len(),
        ),
{
    let ghost joined = |left: DeliveryNumber, right: DeliveryNumber| chunks::follows(left, right);
    let mut starts: Vec<usize> = Vec::new();
    let mut i: usize = 1;
    assert(starts@ =~= chunks::run_starts(delivery_ids@, joined, 0));
    assert(starts@ =~= chunks::run_starts(delivery_ids@, joined, 1));
    if delivery_ids.len() == 0 {
        return starts;
    }
    while i < delivery_ids.len()
        invariant
            1 <= i <= delivery_ids@.len(),
            joined == (|left: DeliveryNumber, right: DeliveryNumber| chunks::follows(left, right)),
            starts@ == chunks::run_starts(delivery_ids@, joined, i as nat),
        decreases delivery_ids@.len() - i,
    {
        if !is_consecutive(&delivery_ids[i - 1], &delivery_ids[i]) {
            starts.push(i);
        }
        i += 1;
    }
    starts
}

impl Session {
    /// Sends waiting transfers and the current one as far as the peer can take them.
    fn prepare_session_frames_from_buffered_and_current_transfers(
        &mut self,
        output_frame_buffer: Vec<SessionFrame>,
        current: BufferedTransfer,
    ) -> (frames: Vec<SessionFrame>)
        ensures
            final(self)@ == drained_with(old(self)@, current).session,
            frames@ == output_frame_buffer@ + drained_with(old(self)@, current).frames,
    {
        let ghost start = self@;
        let mut frames = self.prepare_session_frames_from_buffered_transfers(output_frame_buffer);
        if self.remote_incoming_window > 0 {
            let frame = self.on_outgoing_transfer_inner(current);
            frames.push(frame);
            assert(frames@ =~= output_frame_buffer@ + drained_with(start, current).frames);
        } else {
            self.remote_incoming_window_exhausted_buffer.push_back(current);
        }
        frames
    }

    /// Sends a transfer, after those that wait, as far as the peer can take them.
    pub fn on_outgoing_transfer(
        &mut self,
        input_handle: InputHandle,
        transfer: Transfer,
        payload: Payload,
        queue_slot: Option<QueueSlot>,
    ) -> (result: Result<Option<SessionOutgoingItem>, SessionInnerError>)
        ensures
            ({
                let waiting = BufferedTransfer { input_handle, transfer, payload, queue_slot };
                let before = old(self)@;
                if before.remote_incoming_window == 0 {
                    &&& result == Ok::<Option<SessionOutgoingItem>, SessionInnerError>(None)
                    &&& final(self)@ == (SessionView { buffer: before.buffer.push(waiting), ..before
                    })
                } else if before.buffer.len() == 0 {
                    &&& result == Ok::<Option<SessionOutgoingItem>, SessionInnerError>(
                        Some(SessionOutgoingItem::SingleFrame(transfer_frame(before, waiting))),
                    )
                    &&& final(self)@ == after_transfer_sent(before, waiting)
                } else {
                    &&& result matches Ok(Some(SessionOutgoingItem::MultipleFrames(frames)))
                    &&& frames@ == drained_with(before, waiting).frames
                    &&& final(self)@ == drained_with(before, waiting).session
                }
            }),
            ({
                let waiting = BufferedTransfer { input_handle, transfer, payload, queue_slot };
                let sent = drained_with(old(self)@, waiting);
                &&& result is Ok
                &&& frame::frames_of(result->Ok_0) == sent.frames
                &&& final(self)@ == sent.session
            }),
            frame::frames_of(result->Ok_0).len() <= old(self)@.remote_incoming_window,
            old(self)@.buffer.len() + 1 == frame::frames_of(result->Ok_0).len() + final(
                self)@.buffer.len(),
    {
        proof {
            let waiting = BufferedTransfer { input_handle, transfer, payload, queue_slot };
            session_transfer_laws::law_lone_transfers(self@, waiting);
            session_transfer_laws::law_transfers_queue_up(self@, waiting);
        }
        let waiting = BufferedTransfer { input_handle, transfer, payload, queue_slot };
        if self.remote_incoming_window == 0 {
            self.remote_incoming_window_exhausted_buffer.push_back(waiting);
            Ok(None)
        } else if self.remote_incoming_window_exhausted_buffer.len() == 0 {
            Ok(Some(SessionOutgoingItem::SingleFrame(self.on_outgoing_transfer_inner(waiting))))
        } else {
            let ghost start = self@;
            let frames = self.prepare_session_frames_from_buffered_and_current_transfers(
                Vec::new(),
                waiting,
            );
            assert(frames@ =~= drained_with(start, waiting).frames);
            Ok(Some(SessionOutgoingItem::MultipleFrames(frames)))
        }
    }

    /// Build a session-only flow that re-advertises the session window. It carries no link state,
    /// so it only updates the peer's view of our session window.
    fn on_outgoing_session_flow(&self) -> (frame: SessionFrame)
        ensures
            frame == plain_frame(self@, SessionFrameBody::Flow(flow_for(self@, None))),
            self@.receive_window.held <= self@.receive_window.maximum,
    {
        let flow = Flow {
            next_incoming_id: Some(self.next_incoming_id),
            incoming_window: self.receive_window.available(),
            next_outgoing_id: self.next_outgoing_id,
            outgoing_window: self.outgoing_window,
            handle: None,
            delivery_count: None,
            link_credit: None,
            available: None,
            drain: false,
            echo: false,
            properties: None,
        };
        SessionFrame::new(self.outgoing_channel, SessionFrameBody::Flow(flow))
    }

    /// The frame that tells the flow state of a link together with the windows of the session.
    pub fn on_outgoing_flow(&self, flow: LinkFlow) -> (result: Result<
        SessionFrame,
        SessionInnerError,
    >)
        ensures
            result == Ok::<SessionFrame, SessionInnerError>(
                plain_frame(self@, SessionFrameBody::Flow(flow_for(self@, Some(flow)))),
            ),
            ({
                &&& result matches Ok(frame)
                &&& frame.body matches SessionFrameBody::Flow(told)
                &&& told.incoming_window + self@.receive_window.held
                    == self@.receive_window.maximum
                &&& told.handle == Some(flow.handle)
                &&& told.link_credit == flow.link_credit
                &&& told.delivery_count == flow.delivery_count
            }),
    {
        let flow = Flow {
            next_incoming_id: Some(self.next_incoming_id),
            incoming_window: self.receive_window.available(),
            next_outgoing_id: self.next_outgoing_id,
            outgoing_window: self.outgoing_window,
            handle: Some(flow.handle),
            delivery_count: flow.delivery_count,
            link_credit: flow.link_credit,
            available: flow.available,
            drain: flow.drain,
            echo: flow.echo,
            properties: flow.properties,
        };
        Ok(SessionFrame::new(self.outgoing_channel, SessionFrameBody::Flow(flow)))
    }

    /// Tells the window again once enough slots were released. No flow is sent while the session
    /// is not mapped.
    pub fn maybe_outgoing_session_flow(&mut self) -> (item: Option<SessionOutgoingItem>)
        ensures
            ({
                let counted = released_counted(old(self)@);
                if flow_due(old(self)@) {
                    let told = SessionView { need_flow_count: 0, ..counted };
                    &&& final(self)@ == told
                    &&& item == Some(
                        SessionOutgoingItem::SingleFrame(
                            plain_frame(told, SessionFrameBody::Flow(flow_for(told, None))),
                        ),
                    )
                } else {
                    &&& final(self)@ == counted
                    &&& item is None
                }
            }),
            item is Some <==> old(self)@.local_state is Mapped && {
                let count = old(self)@.need_flow_count + old(self)@.receive_window.released;
                count >= 1 && count >= old(self)@.incoming_window / 2
            },
            item matches Some(SessionOutgoingItem::SingleFrame(frame)) ==> {
                &&& frame.body matches SessionFrameBody::Flow(flow)
                &&& flow.handle is None
                &&& flow.incoming_window + final(self)@.receive_window.held == final(
                    self)@.receive_window.maximum
                &&& final(self)@.need_flow_count == 0
            },
            final(self)@.receive_window.held == old(self)@.receive_window.held,
            final(self)@.receive_window.released == 0,
    {
        let released = self.receive_window.take_released();
        self.need_flow_count = self.need_flow_count.saturating_add(released);
        if !matches!(self.local_state, SessionState::Mapped) {
            return None;
        }
        let half = self.incoming_window / 2;
        let threshold: u32 = if half == 0 {
            1
        } else {
            half
        };
        if self.need_flow_count >= threshold {
            self.need_flow_count = 0;
            Some(SessionOutgoingItem::SingleFrame(self.on_outgoing_session_flow()))
        } else {
            None
        }
    }

    /// Takes the windows that the peer tells, and routes the flow state of a link to it.
    pub fn on_incoming_flow_inner(&mut self, flow: Flow) -> (result: Result<
        Option<RoutedFlow>,
        SessionInnerError,
    >)
        ensures
            final(self)@ == after_flow(old(self)@, flow),
            result is Err <==> flow.handle is Some && !old(self)@.links.contains_key(
                (flow.handle->0).0,
            ),
            result matches Ok(routed) ==> (routed is Some <==> flow.handle is Some),
            result matches Ok(Some(routed)) ==> {
                &&& routed.input_handle == InputHandle((flow.handle->0).0)
                &&& routed.flow.link_credit == flow.link_credit
                &&& routed.flow.delivery_count == flow.delivery_count
                &&& routed.flow.drain == flow.drain
                &&& routed.flow.echo == flow.echo
            },
            match flow.link_part() {
                None => result == Ok::<Option<RoutedFlow>, SessionInnerError>(None),
                Some(link_flow) => {
                    let key = link_flow.handle.0;
                    if old(self)@.links.contains_key(key) {
                        &&& result matches Ok(Some(routed))
                        &&& routed.input_handle == InputHandle(key)
                        &&& routed.flow == link_flow
                        &&& routed.acquisition == relay::acquisition_due(
                            old(self)@.links[key],
                            link_flow,
                        )
                    } else {
                        result == Err::<Option<RoutedFlow>, SessionInnerError>(
                            SessionInnerError::UnattachedHandle,
                        )
                    }
                },
            },
    {
        broadcast use vstd::std_specs::hash::group_hash_axioms;

        self.next_incoming_id = flow.next_outgoing_id;
        self.remote_outgoing_window = flow.outgoing_window;
        let peer_next = match flow.next_incoming_id {
            Some(peer_next) => peer_next,
            None => self.initial_outgoing_id,
        };
        let in_flight = self.next_outgoing_id.wrapping_sub(peer_next);
        self.remote_incoming_window = flow.incoming_window.saturating_sub(in_flight);
        match flow.into_link_flow() {
            None => Ok(None),
            Some(link_flow) => match self.link_by_input_handle.get(&link_flow.handle.0) {
                None => Err(SessionInnerError::UnattachedHandle),
                Some(relay) => {
                    let acquisition = relay.on_incoming_flow(&link_flow);
                    Ok(
                        Some(
                            RoutedFlow {
                                input_handle: InputHandle(link_flow.handle.0),
                                acquisition,
                                flow: link_flow,
                            },
                        ),
                    )
                },
            },
        }
    }

    /// What a session sends once a flow was taken: the answer of the link, where there is one, and
    /// then the waiting transfers that the peer can take now.
    pub fn on_incoming_flow(&mut self, link_reply: Option<LinkFlow>) -> (item: Option<
        SessionOutgoingItem,
    >)
        ensures
            ({
                let before = old(self)@;
                let answer = plain_frame(before, SessionFrameBody::Flow(flow_for(before, link_reply)));
                if before.remote_incoming_window > 0 && before.buffer.len() > 0 {
                    let sent = drained(before, drainable(before));
                    &&& final(self)@ == sent.session
                    &&& item matches Some(SessionOutgoingItem::MultipleFrames(frames))
                    &&& frames@ == (if link_reply is Some {
                        seq![answer] + sent.frames
                    } else {
                        sent.frames
                    })
                } else {
                    &&& final(self)@ == before
                    &&& item == (if link_reply is Some {
                        Some(SessionOutgoingItem::SingleFrame(answer))
                    } else {
                        None
                    })
                }
            }),
            ({
                let before = old(self)@;
                let answer = plain_frame(before, SessionFrameBody::Flow(flow_for(before, link_reply)));
                let sent = drained(before, drainable(before));
                &&& final(self)@ == sent.session
                &&& link_reply is Some ==> frame::frames_of(item) == seq![answer] + sent.frames
                &&& link_reply is None ==> frame::frames_of(item) == sent.frames
            }),
    {
        proof {
            assert(seq![] + drained(self@, 0).frames =~= seq![]);
        }
        let answer = match link_reply {
            None => None,
            Some(flow) => match self.on_outgoing_flow(flow) {
                Ok(frame) => Some(frame),
                Err(_) => None,
            },
        };
        if self.remote_incoming_window > 0 && self.remote_incoming_window_exhausted_buffer.len()
            > 0 {
            let ghost start = self@;
            let mut output_frame_buffer: Vec<SessionFrame> = Vec::new();
            if let Some(frame) = answer {
                output_frame_buffer.push(frame);
            }
            let ghost first = output_frame_buffer@;
            let frames = self.prepare_session_frames_from_buffered_transfers(output_frame_buffer);
            proof {
                let sent = drained(start, drainable(start)).frames;
                assert(seq![] + sent =~= sent);
                assert(first.len() == 1 ==> first =~= seq![first[0]]);
                assert(first.len() == 0 ==> first =~= seq![]);
            }
            Some(SessionOutgoingItem::MultipleFrames(frames))
        } else {
            match answer {
                None => None,
                Some(frame) => Some(SessionOutgoingItem::SingleFrame(frame)),
            }
        }
    }

    /// The frame that attaches a link.
    pub fn on_outgoing_attach(&self, attach: Attach) -> (result: Result<
        SessionFrame,
        SessionInnerError,
    >)
        ensures
            result == Ok::<SessionFrame, SessionInnerError>(
                plain_frame(self@, SessionFrameBody::Attach(attach)),
            ),
    {
        Ok(SessionFrame::new(self.outgoing_channel, SessionFrameBody::Attach(attach)))
    }

    /// The frame that disposes of deliveries. A terminal state lets the peer send as many more.
    pub fn on_outgoing_disposition(&mut self, disposition: Disposition) -> (result: Result<
        SessionFrame,
        SessionInnerError,
    >)
        requires
            definitions::settled_outcome(disposition.state) ==> disposition_count(
                disposition.first,
                disposition.last,
            ) <= u32::MAX,
        ensures
            result == Ok::<SessionFrame, SessionInnerError>(
                plain_frame(old(self)@, SessionFrameBody::Disposition(disposition)),
            ),
            final(self)@ == (if definitions::settled_outcome(disposition.state) {
                SessionView {
                    remote_outgoing_window: capped_sum(
                        old(self)@.remote_outgoing_window,
                        disposition_count(disposition.first, disposition.last) as u32,
                    ),
                    ..old(self)@
                }
            } else {
                old(self)@
            }),
    {
        if is_settled_outcome(&disposition.state) {
            let count = num_messages_settled_by_disposition(disposition.first, disposition.last);
            self.remote_outgoing_window = self.remote_outgoing_window.saturating_add(count);
        }
        Ok(SessionFrame::new(self.outgoing_channel, SessionFrameBody::Disposition(disposition)))
    }
}

} // verus!
