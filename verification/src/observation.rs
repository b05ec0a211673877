//! Exact post-SASL incoming frame observations, made from what the transport decoder decoded.

use std::sync::Arc;

use bytes::BufMut;

use vstd::prelude::*;

use crate::admission;
use crate::definitions::{Binary, Error, Payload};
use crate::performatives::{Attach, Begin, Detach, Disposition, End, Flow, Transfer};

verus! {

/// Opens a connection. The engine hands it on as it is encoded.
#[derive(Debug)]
pub struct Open {
    /// The encoded performative.
    pub encoded: Binary,
}

/// Closes a connection.
#[derive(Debug)]
pub struct Close {
    /// Why, where it is an error.
    pub error: Option<Error>,
}

/// What an AMQP frame says, shared.
#[derive(Debug)]
pub enum Performative {
    /// Opens the connection.
    Open(Arc<Open>),
    /// Begins a session.
    Begin(Arc<Begin>),
    /// Attaches a link.
    Attach(Arc<Attach>),
    /// Updates flow state.
    Flow(Arc<Flow>),
    /// Carries message bytes.
    Transfer(Arc<Transfer>),
    /// Tells the state of deliveries.
    Disposition(Arc<Disposition>),
    /// Detaches a link.
    Detach(Arc<Detach>),
    /// Ends a session.
    End(Arc<End>),
    /// Closes the connection.
    Close(Arc<Close>),
}

/// The body of a decoded frame.
#[derive(Debug)]
pub enum FrameBody {
    /// Opens the connection.
    Open(Arc<Open>),
    /// Begins a session.
    Begin(Arc<Begin>),
    /// Attaches a link.
    Attach(Arc<Attach>),
    /// Updates flow state.
    Flow(Arc<Flow>),
    /// Carries message bytes.
    Transfer {
        /// What is said of the delivery.
        performative: Arc<Transfer>,
        /// The message bytes.
        payload: Payload,
    },
    /// Tells the state of deliveries.
    Disposition(Arc<Disposition>),
    /// Detaches a link.
    Detach(Arc<Detach>),
    /// Ends a session.
    End(Arc<End>),
    /// Closes the connection.
    Close(Arc<Close>),
    /// Says nothing: a heartbeat.
    Empty,
}

/// A decoded frame.
#[derive(Debug)]
pub struct Frame {
    /// Remote session channel.
    pub channel: u16,
    /// What it says.
    pub body: FrameBody,
}

/// Bytes that are no AMQP frame.
#[derive(Debug, Clone, Copy, PartialEq, Eq, Structural)]
pub struct InvalidFrame;

/// One admitted frame. Raw bytes preserve original constructors and map ordering.
pub struct IncomingFrame {
    bytes: Vec<u8>,
    channel: u16,
    performative: Option<Performative>,
    payload_offset: usize,
}

/// What an admitted frame holds.
pub struct IncomingFrameView {
    /// Entire wire frame including its four-byte size field.
    pub bytes: Seq<u8>,
    /// Remote session channel.
    pub channel: u16,
    /// Decoded performative; None for an empty heartbeat.
    pub performative: Option<Performative>,
    /// Where the transfer payload begins.
    pub payload_start: nat,
}

impl View for IncomingFrame {
    type V = IncomingFrameView;

    closed spec fn view(&self) -> IncomingFrameView {
        IncomingFrameView {
            bytes: self.bytes@,
            channel: self.channel,
            performative: self.performative,
            payload_start: self.payload_offset as nat,
        }
    }
}

/// How many bytes of payload a frame carries.
pub open spec fn payload_length(frame: Frame) -> nat {
    match frame.body {
        FrameBody::Transfer { payload, .. } => payload@.len(),
        _ => 0,
    }
}

/// What a frame says.
pub open spec fn performative_of(body: FrameBody) -> Option<Performative> {
    match body {
        FrameBody::Open(open) => Some(Performative::Open(open)),
        FrameBody::Begin(begin) => Some(Performative::Begin(begin)),
        FrameBody::Attach(attach) => Some(Performative::Attach(attach)),
        FrameBody::Flow(flow) => Some(Performative::Flow(flow)),
        FrameBody::Transfer { performative, .. } => Some(Performative::Transfer(performative)),
        FrameBody::Disposition(disposition) => Some(Performative::Disposition(disposition)),
        FrameBody::Detach(detach) => Some(Performative::Detach(detach)),
        FrameBody::End(end) => Some(Performative::End(end)),
        FrameBody::Close(close) => Some(Performative::Close(close)),
        FrameBody::Empty => None,
    }
}

/// Whether bytes are as many as their size field says, and enough for a frame header.
pub open spec fn is_framed(bytes: Seq<u8>) -> bool {
    bytes.len() >= 8 && admission::big_endian(bytes.take(4)) == bytes.len()
}

/// Whether an observation is that of a frame whose bytes after the size field are `body`. The
/// size field wraps, and the payload is the end of the frame.
pub open spec fn observes(observed: IncomingFrame, body: Seq<u8>, frame: Frame) -> bool {
    &&& observed@.bytes.len() == body.len() + 4
    &&& admission::big_endian(observed@.bytes.take(4)) == (body.len() + 4) % 0x1_0000_0000
    &&& observed@.bytes.skip(4) == body
    &&& observed@.channel == frame.channel
    &&& observed@.performative == performative_of(frame.body)
    &&& observed@.payload_start == body.len() + 4 - payload_length(frame)
}

/// Appends a number by `bytes::BufMut::put_u32`, which writes it in big-endian byte order and
/// panics if the buffer has no room for four more bytes; a vector has room up to `isize::MAX`.
#[verifier::external_body]
fn put_u32(buffer: &mut Vec<u8>, number: u32)
    requires
        old(buffer)@.len() + 4 <= isize::MAX,
    ensures
        final(buffer)@.len() == old(buffer)@.len() + 4,
        final(buffer)@.take(old(buffer)@.len() as int) == old(buffer)@,
        admission::big_endian(final(buffer)@.skip(old(buffer)@.len() as int)) == number,
{
    buffer.put_u32(number);
}

impl IncomingFrame {
    /// The payload lies within the frame.
    #[verifier::type_invariant]
    spec fn well_formed(&self) -> bool {
        self.payload_offset <= self.bytes@.len()
    }

    /// Entire wire frame including its four-byte size field.
    pub fn bytes(&self) -> (bytes: &[u8])
        ensures
            bytes@ == self@.bytes,
    {
        self.bytes.as_slice()
    }

    /// Remote session channel.
    pub fn channel(&self) -> (channel: u16)
        ensures
            channel == self@.channel,
    {
        self.channel
    }

    /// Decoded performative; None for an empty heartbeat.
    pub fn performative(&self) -> (performative: &Option<Performative>)
        ensures
            *performative == self@.performative,
    {
        &self.performative
    }

    /// Decode exactly one complete wire frame using the transport's codec, which is handed the
    /// bytes after the size field. This entry point accepts already bounded input and never reads
    /// a socket.
    pub fn decode<D: FnOnce(&[u8]) -> Option<Frame>>(bytes: Vec<u8>, decode: D) -> (result: Result<
        Self,
        InvalidFrame,
    >)
        requires
            forall|body: &[u8]|
                is_framed(bytes@) && body@ == bytes@.skip(4) ==> #[trigger] decode.requires(
                    (body,),
                ),
            forall|body: &[u8], frame: Frame|
                is_framed(bytes@) && body@ == bytes@.skip(4) && #[trigger] decode.ensures(
                    (body,),
                    Some(frame),
                ) ==> payload_length(frame) <= bytes@.len(),
        ensures
            !is_framed(bytes@) ==> result == Err::<Self, InvalidFrame>(InvalidFrame),
            is_framed(bytes@) ==> exists|body: &[u8], decoded: Option<Frame>|
                {
                    &&& body@ == bytes@.skip(4)
                    &&& #[trigger] decode.ensures((body,), decoded)
                    &&& match decoded {
                        None => result == Err::<Self, InvalidFrame>(InvalidFrame),
                        Some(frame) => {
                            &&& result matches Ok(observed)
                            &&& observes(observed, bytes@.skip(4), frame)
                        },
                    }
                },
    {
        let length = bytes.len();
        if length < 8 {
            return Err(InvalidFrame);
        }
        let size = admission::read_number(&bytes.as_slice()[0..4]);
        assert(bytes@.subrange(0, 4) =~= bytes@.take(4));
        if size != length as u64 {
            return Err(InvalidFrame);
        }
        let body = &bytes.as_slice()[4..length];
        assert(body@ =~= bytes@.skip(4));
        proof {
            admission::lemma_big_endian_fits(bytes@.take(4));
        }
        let decoded = decode(body);
        match decoded {
            None => Err(InvalidFrame),
            Some(frame) => Ok(Self::from_decoded(body, &frame)),
        }
    }

    /// Unmodified transfer payload. Other frames have an empty payload.
    pub fn payload(&self) -> (payload: &[u8])
        ensures
            self@.payload_start <= self@.bytes.len(),
            payload@ == self@.bytes.skip(self@.payload_start as int),
    {
        proof {
            use_type_invariant(self);
        }
        let payload = &self.bytes.as_slice()[self.payload_offset..self.bytes.len()];
        assert(payload@ =~= self.bytes@.skip(self.payload_offset as int));
        payload
    }

    /// The observation of a decoded frame, given its bytes after the size field.
    pub fn from_decoded(body: &[u8], frame: &Frame) -> (observed: Self)
        requires
            body@.len() + 4 <= usize::MAX,
            payload_length(*frame) <= body@.len() + 4,
        ensures
            observes(observed, body@, *frame),
    {
        let mut bytes: Vec<u8> = Vec::with_capacity(body.len() + 4);
        let length: u64 = (body.len() + 4) as u64;
        let size_field = length as u32;
        assert(size_field == length % 0x1_0000_0000) by (bit_vector)
            requires
                size_field == length as u32,
        ;
        put_u32(&mut bytes, size_field);
        assert(bytes@.skip(0) =~= bytes@);
        let ghost size = bytes@;
        bytes.extend_from_slice(body);
        assert(bytes@ =~= size + body@);
        assert(bytes@.take(4) =~= size);
        assert(bytes@.skip(4) =~= body@);
        let mut payload_len: usize = 0;
        let performative = match &frame.body {
            FrameBody::Open(open) => Some(Performative::Open(Arc::clone(open))),
            FrameBody::Begin(begin) => Some(Performative::Begin(Arc::clone(begin))),
            FrameBody::Attach(attach) => Some(Performative::Attach(Arc::clone(attach))),
            FrameBody::Flow(flow) => Some(Performative::Flow(Arc::clone(flow))),
            FrameBody::Transfer { performative, payload } => {
                payload_len = payload.len();
                Some(Performative::Transfer(Arc::clone(performative)))
            },
            FrameBody::Disposition(disposition) => Some(
                Performative::Disposition(Arc::clone(disposition)),
            ),
            FrameBody::Detach(detach) => Some(Performative::Detach(Arc::clone(detach))),
            FrameBody::End(end) => Some(Performative::End(Arc::clone(end))),
            FrameBody::Close(close) => Some(Performative::Close(Arc::clone(close))),
            FrameBody::Empty => None,
        };
        let payload_offset = bytes.len() - payload_len;
        IncomingFrame { bytes, channel: frame.channel, performative, payload_offset }
    }
}

/// An observation preserves the wire frame byte for byte.
pub proof fn law_observation_preserves_the_frame(
    observed: IncomingFrame,
    bytes: Seq<u8>,
    frame: Frame,
)
    requires
        is_framed(bytes),
        observes(observed, bytes.skip(4), frame),
    ensures
        observed@.bytes == bytes,
{
    let mine = observed@.bytes;
    admission::lemma_big_endian_fits(bytes.take(4));
    admission::lemma_big_endian_injective(mine.take(4), bytes.take(4));
    assert(mine =~= mine.take(4) + mine.skip(4));
    assert(bytes =~= bytes.take(4) + bytes.skip(4));
}

/// An observed transfer has the payload that it carried: where the frame ends with that payload,
/// so does what is observed of it. Other frames have none.
pub proof fn law_observed_payload_is_that_of_the_frame(
    observed: IncomingFrame,
    head: Seq<u8>,
    performative: Arc<Transfer>,
    payload: Payload,
    channel: u16,
)
    requires
        observes(
            observed,
            head + payload@,
            Frame { channel, body: FrameBody::Transfer { performative, payload } },
        ),
    ensures
        observed@.bytes.skip(observed@.payload_start as int) == payload@,
        observed@.performative == Some(Performative::Transfer(performative)),
        observed@.channel == channel,
{
    let bytes = observed@.bytes;
    assert(bytes.skip(4) == head + payload@);
    assert(bytes.skip(observed@.payload_start as int) =~= bytes.skip(4).skip(head.len() as int));
    assert((head + payload@).skip(head.len() as int) =~= payload@);
}

/// What a frame says is what its body says, of the same kind and unaltered. Only an empty frame
/// says nothing, and only a transfer carries a payload.
pub proof fn law_frames_say_what_their_bodies_do(frame: Frame)
    ensures
        performative_of(frame.body) is None <==> frame.body is Empty,
        !(frame.body is Transfer) ==> payload_length(frame) == 0,
        frame.body matches FrameBody::Transfer { performative, payload } ==> {
            &&& payload_length(frame) == payload@.len()
            &&& performative_of(frame.body) == Some(Performative::Transfer(performative))
        },
        frame.body matches FrameBody::Open(open) ==> performative_of(frame.body) == Some(
            Performative::Open(open),
        ),
        frame.body matches FrameBody::Begin(begin) ==> performative_of(frame.body) == Some(
            Performative::Begin(begin),
        ),
        frame.body matches FrameBody::Attach(attach) ==> performative_of(frame.body) == Some(
            Performative::Attach(attach),
        ),
        frame.body matches FrameBody::Flow(flow) ==> performative_of(frame.body) == Some(
            Performative::Flow(flow),
        ),
        frame.body matches FrameBody::Disposition(disposition) ==> performative_of(frame.body)
            == Some(Performative::Disposition(disposition)),
        frame.body matches FrameBody::Detach(detach) ==> performative_of(frame.body) == Some(
            Performative::Detach(detach),
        ),
        frame.body matches FrameBody::End(end) ==> performative_of(frame.body) == Some(
            Performative::End(end),
        ),
        frame.body matches FrameBody::Close(close) ==> performative_of(frame.body) == Some(
            Performative::Close(close),
        ),
{
}

/// Bytes are a frame exactly if they hold a header and their first four digits say how many they
/// are.
pub proof fn law_frames_say_their_size(bytes: Seq<u8>)
    ensures
        is_framed(bytes) <==> {
            &&& bytes.len() >= 8
            &&& bytes[0] * 0x100_0000 + bytes[1] * 0x1_0000 + bytes[2] * 0x100 + bytes[3]
                == bytes.len()
        },
{
    if bytes.len() >= 8 {
        let four = bytes.take(4);
        let three = four.drop_last();
        let two = three.drop_last();
        let one = two.drop_last();
        reveal_with_fuel(admission::big_endian, 5);
        assert(one.drop_last() =~= Seq::<u8>::empty());
        assert(admission::big_endian(one) == bytes[0]);
        assert(admission::big_endian(two) == bytes[0] * 0x100 + bytes[1]);
        assert(admission::big_endian(three) == bytes[0] * 0x1_0000 + bytes[1] * 0x100 + bytes[2]);
    }
}

} // verus!
