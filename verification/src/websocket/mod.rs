//! Server-side WebSocket protocol layer: frame decoding, message
//! reassembly and the reply rules for control messages.
use crate::buffer::{
    alloc_limit, bytes_as_slice, bytes_copy_from_slice, bytes_from_vec, bytes_len, bytes_mut_advance,
    bytes_mut_as_mut_slice, bytes_mut_at, bytes_mut_freeze, bytes_mut_len, bytes_mut_new,
    bytes_mut_put_slice, bytes_mut_split, bytes_mut_split_to, bytes_mut_view,
    bytes_mut_with_capacity, bytes_view, pow256,
};
use bytes::{Bytes, BytesMut};
use vstd::prelude::*;
use vstd::utf8::valid_utf8;

pub mod data;
pub mod laws;

use data::WebSocketDataPayLoad;

verus! {

pub const FIN_BIT_MASK: u8 = 0x80;
pub const RSV_MASK: u8 = 0x70;
pub const OPCODE_MASK: u8 = 0x0F;
pub const MASK_BIT_MASK: u8 = 0x80;
pub const PAYLOAD_LEN_MASK: u8 = 0x7F;
pub const EXTENDED_LEN_16: usize = 126;
pub const EXTENDED_LEN_64: usize = 127;
pub const MASK_KEY_LEN: usize = 4;
pub const DEFAULT_MAX_FRAME_SIZE: usize = 16777216;
pub const DEFAULT_MAX_MESSAGE_SIZE: usize = 67108864;

/// Opcodes of WebSocket frames (RFC 6455, section 5.2).
#[derive(Debug, Eq, PartialEq, Clone, Copy, Structural)]
pub enum WebSocketMessageType {
    Continuation,
    Text,
    Binary,
    Close,
    Ping,
    Pong,
}

/// The message type that an opcode names, if it names one.
pub open spec fn spec_from_opcode(opcode: u8) -> Option<WebSocketMessageType> {
    if opcode == 0x0 {
        Some(WebSocketMessageType::Continuation)
    } else if opcode == 0x1 {
        Some(WebSocketMessageType::Text)
    } else if opcode == 0x2 {
        Some(WebSocketMessageType::Binary)
    } else if opcode == 0x8 {
        Some(WebSocketMessageType::Close)
    } else if opcode == 0x9 {
        Some(WebSocketMessageType::Ping)
    } else if opcode == 0xA {
        Some(WebSocketMessageType::Pong)
    } else {
        None
    }
}

impl WebSocketMessageType {
    /// The opcode of a message type.
    pub open spec fn spec_opcode(self) -> u8 {
        match self {
            WebSocketMessageType::Continuation => 0x0,
            WebSocketMessageType::Text => 0x1,
            WebSocketMessageType::Binary => 0x2,
            WebSocketMessageType::Close => 0x8,
            WebSocketMessageType::Ping => 0x9,
            WebSocketMessageType::Pong => 0xA,
        }
    }

    /// Close, Ping and Pong are control frames.
    pub open spec fn spec_is_control(self) -> bool {
        match self {
            WebSocketMessageType::Close | WebSocketMessageType::Ping | WebSocketMessageType::Pong => true,
            _ => false,
        }
    }

    /// The message type an opcode names; any other opcode is a protocol
    /// error.
    pub fn from_opcode(opcode: u8) -> (res: Result<Self, ProtocolError>)
        ensures
            match spec_from_opcode(opcode) {
                Some(t) => res == Ok::<Self, ProtocolError>(t),
                None => res == Err::<Self, ProtocolError>(ProtocolError::InvalidOpcode(opcode)),
            },
    {
        match opcode {
            0x0 => Ok(WebSocketMessageType::Continuation),
            0x1 => Ok(WebSocketMessageType::Text),
            0x2 => Ok(WebSocketMessageType::Binary),
            0x8 => Ok(WebSocketMessageType::Close),
            0x9 => Ok(WebSocketMessageType::Ping),
            0xA => Ok(WebSocketMessageType::Pong),
            value => Err(ProtocolError::InvalidOpcode(value)),
        }
    }

    /// Close, ping and pong are control frames.
    pub fn is_control(self) -> (res: bool)
        ensures
            res == self.spec_is_control(),
    {
        match self {
            WebSocketMessageType::Close | WebSocketMessageType::Ping | WebSocketMessageType::Pong => true,
            _ => false,
        }
    }
}

impl From<WebSocketMessageType> for u8 {
    fn from(value: WebSocketMessageType) -> (res: u8) {
        match value {
            WebSocketMessageType::Continuation => 0x0,
            WebSocketMessageType::Text => 0x1,
            WebSocketMessageType::Binary => 0x2,
            WebSocketMessageType::Close => 0x8,
            WebSocketMessageType::Ping => 0x9,
            WebSocketMessageType::Pong => 0xA,
        }
    }
}

impl vstd::std_specs::convert::FromSpecImpl<WebSocketMessageType> for u8 {
    open spec fn obeys_from_spec() -> bool {
        true
    }

    open spec fn from_spec(v: WebSocketMessageType) -> u8 {
        v.spec_opcode()
    }
}

/// Violations of the WebSocket protocol found while reading frames.
#[derive(Debug, Clone, Eq, PartialEq)]
pub enum ProtocolError {
    InvalidOpcode(u8),
    NonZeroReservedBits,
    UnmaskedFrameFromClient,
    FragmentedControlFrame,
    ControlFrameTooBig,
    FrameTooBig { size: usize, max_size: usize },
    MessageTooBig { size: usize, max_size: usize },
    UnexpectedContinuation,
    ExpectedContinuation(WebSocketMessageType),
    InvalidUtf8,
    Io(String),
}

/// The bytes of `payload` combined with the four-byte `mask`, as RFC 6455
/// (section 5.3) masks and unmasks payloads.
pub open spec fn masked(payload: Seq<u8>, mask: Seq<u8>) -> Seq<u8> {
    Seq::new(payload.len(), |i: int| payload[i] ^ mask[i % 4])
}

/// XORs each byte of `payload` with the mask byte at its index modulo four.
pub fn apply_mask(payload: &mut [u8], mask: [u8; 4])
    ensures
        final(payload)@ == masked(old(payload)@, mask@),
{
    let n = payload.len();
    let mut index: usize = 0;
    while index < n
        invariant
            n == payload@.len(),
            index <= n,
            payload@.len() == old(payload)@.len(),
            forall|j: int| 0 <= j < index ==> payload@[j] == old(payload)@[j] ^ mask@[j % 4],
            forall|j: int| index <= j < n ==> payload@[j] == old(payload)@[j],
        decreases n - index,
    {
        let b = payload[index];
        payload[index] = b ^ mask[index % 4];
        index = index + 1;
    }
    assert(payload@ =~= masked(old(payload)@, mask@));
}

/// The number that a sequence of bytes spells in big-endian order.
pub open spec fn be_value(s: Seq<u8>) -> nat
    decreases s.len(),
{
    if s.len() == 0 {
        0
    } else {
        be_value(s.drop_last()) * 256 + s.last() as nat
    }
}

/// A big-endian number of `k` bytes is below `256^k`.
pub proof fn lemma_be_value_bound(s: Seq<u8>)
    ensures
        be_value(s) < pow256(s.len()),
    decreases s.len(),
{
    if s.len() > 0 {
        lemma_be_value_bound(s.drop_last());
        let v = be_value(s.drop_last());
        let p = pow256((s.len() - 1) as nat);
        let b = s.last() as nat;
        assert(v * 256 + b < p * 256) by (nonlinear_arith)
            requires
                v < p,
                b < 256,
        ;
    }
}

/// What a frame header announces, read from the front of a buffer.
pub struct HeaderSpec {
    pub fin: bool,
    pub opcode: WebSocketMessageType,
    pub mask: Seq<u8>,
    pub len: nat,
    pub header_len: nat,
}

/// How many extended-length bytes follow the second header byte.
pub open spec fn ext_len_bytes(second: u8) -> nat {
    if second & PAYLOAD_LEN_MASK == 126 {
        2
    } else if second & PAYLOAD_LEN_MASK == 127 {
        8
    } else {
        0
    }
}

/// Reads a client frame header from the front of `buf` (RFC 6455,
/// section 5.2): `Ok(None)` while more bytes are needed, an error when the
/// header breaks the protocol or the size limit, and otherwise the header.
pub open spec fn spec_parse_header(buf: Seq<u8>, max_frame_size: usize) -> Result<Option<HeaderSpec>, ProtocolError> {
    if buf.len() < 2 {
        Ok(None)
    } else {
        let first = buf[0];
        let second = buf[1];
        if first & RSV_MASK != 0 {
            Err(ProtocolError::NonZeroReservedBits)
        } else {
            match spec_from_opcode(first & OPCODE_MASK) {
                None => Err(ProtocolError::InvalidOpcode(first & OPCODE_MASK)),
                Some(opcode) => {
                    let fin = first & FIN_BIT_MASK != 0;
                    if second & MASK_BIT_MASK == 0 {
                        Err(ProtocolError::UnmaskedFrameFromClient)
                    } else if opcode.spec_is_control() && !fin {
                        Err(ProtocolError::FragmentedControlFrame)
                    } else {
                        let ext = ext_len_bytes(second);
                        if buf.len() < 2 + ext {
                            Ok(None)
                        } else {
                            let len: nat = if ext == 0 {
                                (second & PAYLOAD_LEN_MASK) as nat
                            } else {
                                be_value(buf.subrange(2, 2 + ext as int))
                            };
                            if len > usize::MAX {
                                Err(ProtocolError::FrameTooBig { size: usize::MAX, max_size: max_frame_size })
                            } else if opcode.spec_is_control() && len > 125 {
                                Err(ProtocolError::ControlFrameTooBig)
                            } else if len > max_frame_size {
                                Err(ProtocolError::FrameTooBig { size: len as usize, max_size: max_frame_size })
                            } else if buf.len() < 2 + ext + 4 {
                                Ok(None)
                            } else {
                                Ok(Some(HeaderSpec {
                                    fin,
                                    opcode,
                                    mask: buf.subrange(2 + ext as int, 6 + ext as int),
                                    len,
                                    header_len: 6 + ext,
                                }))
                            }
                        }
                    }
                }
            }
        }
    }
}

/// A decoded frame header.
#[derive(Debug, Clone, Eq, PartialEq)]
pub struct FrameHeader {
    pub fin: bool,
    pub opcode: WebSocketMessageType,
    pub mask: [u8; 4],
    pub len: usize,
}

impl FrameHeader {
    /// This header, read with `header_len` bytes, is what `h` describes.
    pub open spec fn agrees(self, header_len: usize, h: HeaderSpec) -> bool {
        &&& self.fin == h.fin
        &&& self.opcode == h.opcode
        &&& self.mask@ == h.mask
        &&& self.len == h.len
        &&& header_len == h.header_len
    }
}

/// One decoded frame, its payload already unmasked.
#[derive(Debug, Clone, Eq, PartialEq)]
pub struct Frame {
    pub fin: bool,
    pub opcode: WebSocketMessageType,
    pub payload: Bytes,
}

/// Incremental decoder of client frames: bytes go in through
/// [`FrameCodec::buffer_mut`], frames come out of [`FrameCodec::next_frame`].
#[derive(Debug)]
pub struct FrameCodec {
    buf: BytesMut,
    max_frame_size: usize,
}

impl FrameCodec {
    /// The bytes received and not yet decoded.
    pub closed spec fn buffered(&self) -> Seq<u8> {
        bytes_mut_view(self.buf)
    }

    /// The largest payload a frame may announce.
    pub closed spec fn max_frame(&self) -> usize {
        self.max_frame_size
    }

    /// An empty buffer, with the default frame size limit.
    pub fn new() -> (res: Self)
        ensures
            res.buffered() == Seq::<u8>::empty(),
            res.max_frame() == DEFAULT_MAX_FRAME_SIZE,
    {
        Self { buf: bytes_mut_with_capacity(8 * 1024), max_frame_size: DEFAULT_MAX_FRAME_SIZE }
    }

    /// The receive buffer, for appending newly read bytes.
    pub fn buffer_mut(&mut self) -> (res: &mut BytesMut)
        ensures
            bytes_mut_view(*res) == old(self).buffered(),
            final(self).buffered() == bytes_mut_view(*final(res)),
            final(self).max_frame() == old(self).max_frame(),
    {
        &mut self.buf
    }

    fn byte_at(&self, i: usize) -> (res: u8)
        requires
            i < self.buffered().len(),
        ensures
            res == self.buffered()[i as int],
    {
        bytes_mut_at(&self.buf, i)
    }

    /// Reads the header at the front of the buffer, consuming nothing.
    pub fn parse_header(&self) -> (res: Result<Option<(FrameHeader, usize)>, ProtocolError>)
        ensures
            match spec_parse_header(self.buffered(), self.max_frame()) {
                Err(e) => res == Err::<Option<(FrameHeader, usize)>, ProtocolError>(e),
                Ok(None) => res == Ok::<Option<(FrameHeader, usize)>, ProtocolError>(None),
                Ok(Some(h)) => res matches Ok(Some((fh, hl))) && fh.agrees(hl, h),
            },
    {
        let ghost buf = self.buffered();
        let n = bytes_mut_len(&self.buf);
        if n < 2 {
            return Ok(None);
        }
        let first = self.byte_at(0);
        let second = self.byte_at(1);
        if first & RSV_MASK != 0 {
            return Err(ProtocolError::NonZeroReservedBits);
        }
        let opcode = match WebSocketMessageType::from_opcode(first & OPCODE_MASK) {
            Ok(op) => op,
            Err(e) => return Err(e),
        };
        let fin = first & FIN_BIT_MASK != 0;
        let masked_frame = second & MASK_BIT_MASK != 0;
        if !masked_frame {
            return Err(ProtocolError::UnmaskedFrameFromClient);
        }
        if opcode.is_control() && !fin {
            return Err(ProtocolError::FragmentedControlFrame);
        }
        let mut header_len: usize = 2;
        let short_len = second & PAYLOAD_LEN_MASK;
        let mut len: usize = short_len as usize;
        if len == EXTENDED_LEN_16 {
            if n < header_len + 2 {
                return Ok(None);
            }
            let hi = self.byte_at(2);
            let lo = self.byte_at(3);
            proof {
                let s = buf.subrange(2, 4);
                let e = s.drop_last().drop_last();
                assert(e =~= Seq::<u8>::empty());
                assert(be_value(e) == 0);
                assert(s.drop_last().last() == hi);
                assert(be_value(s.drop_last()) == be_value(e) * 256 + hi as nat);
                assert(be_value(s) == be_value(s.drop_last()) * 256 + lo as nat);
            }
            len = (hi as usize) * 256 + lo as usize;
            header_len = header_len + 2;
        } else if len == EXTENDED_LEN_64 {
            if n < header_len + 8 {
                return Ok(None);
            }
            let mut raw: u64 = 0;
            let mut k: usize = 0;
            while k < 8
                invariant
                    k <= 8,
                    n == buf.len(),
                    n >= 10,
                    buf == self.buffered(),
                    raw as nat == be_value(buf.subrange(2, 2 + k as int)),
                decreases 8 - k,
            {
                let b = self.byte_at(2 + k);
                proof {
                    let s = buf.subrange(2, 2 + k as int);
                    lemma_be_value_bound(s);
                    assert(pow256(k as nat) <= pow256(7)) by {
                        lemma_pow256_mono(k as nat, 7);
                    }
                    reveal_with_fuel(pow256, 8);
                    assert(pow256(7) == 72057594037927936nat);
                    assert(buf.subrange(2, 2 + k + 1).drop_last() =~= s);
                }
                raw = raw * 256 + b as u64;
                k = k + 1;
            }
            if raw > usize::MAX as u64 {
                return Err(ProtocolError::FrameTooBig { size: usize::MAX, max_size: self.max_frame_size });
            }
            len = raw as usize;
            header_len = header_len + 8;
        }
        if opcode.is_control() && len > 125 {
            return Err(ProtocolError::ControlFrameTooBig);
        }
        if len > self.max_frame_size {
            return Err(ProtocolError::FrameTooBig { size: len, max_size: self.max_frame_size });
        }
        if n < header_len + MASK_KEY_LEN {
            return Ok(None);
        }
        let mask = [
            self.byte_at(header_len),
            self.byte_at(header_len + 1),
            self.byte_at(header_len + 2),
            self.byte_at(header_len + 3),
        ];
        header_len = header_len + MASK_KEY_LEN;
        assert(mask@ =~= buf.subrange(header_len - 4, header_len as int));
        Ok(Some((FrameHeader { fin, opcode, mask, len }, header_len)))
    }

    /// Takes the next complete frame off the buffer, unmasking its payload.
    /// While the frame is incomplete, nothing is consumed.
    pub fn next_frame(&mut self) -> (res: Result<Option<Frame>, ProtocolError>)
        ensures
            final(self).max_frame() == old(self).max_frame(),
            match spec_parse_header(old(self).buffered(), old(self).max_frame()) {
                Err(e) => {
                    &&& res == Err::<Option<Frame>, ProtocolError>(e)
                    &&& final(self).buffered() == old(self).buffered()
                },
                Ok(None) => {
                    &&& res == Ok::<Option<Frame>, ProtocolError>(None)
                    &&& final(self).buffered() == old(self).buffered()
                },
                Ok(Some(h)) => if old(self).buffered().len() < h.header_len + h.len {
                    &&& res == Ok::<Option<Frame>, ProtocolError>(None)
                    &&& final(self).buffered() == old(self).buffered()
                } else {
                    &&& res matches Ok(Some(f))
                    &&& f.fin == h.fin
                    &&& f.opcode == h.opcode
                    &&& bytes_view(f.payload) == masked(
                        old(self).buffered().subrange(h.header_len as int, h.header_len + h.len as int),
                        h.mask,
                    )
                    &&& final(self).buffered() == old(self).buffered().skip(h.header_len + h.len as int)
                },
            },
    {
        let (header, header_len) = match self.parse_header() {
            Err(e) => return Err(e),
            Ok(None) => return Ok(None),
            Ok(Some(x)) => x,
        };
        let n = bytes_mut_len(&self.buf);
        if n - header_len < header.len {
            return Ok(None);
        }
        let ghost before = self.buffered();
        bytes_mut_advance(&mut self.buf, header_len);
        let mut payload = bytes_mut_split_to(&mut self.buf, header.len);
        let ghost raw = bytes_mut_view(payload);
        {
            let slice = bytes_mut_as_mut_slice(&mut payload);
            apply_mask(slice, header.mask);
        }
        assert(raw =~= before.subrange(header_len as int, header_len + header.len as int));
        assert(self.buffered() =~= before.skip(header_len + header.len as int));
        Ok(Some(Frame { fin: header.fin, opcode: header.opcode, payload: bytes_mut_freeze(payload) }))
    }
}

/// What pushing one frame does to a reassembly in progress: the message
/// type and bytes held afterwards, and what comes out.
pub struct PushSpec {
    pub current_type: Option<WebSocketMessageType>,
    pub pending: Seq<u8>,
    pub result: Result<Option<(WebSocketMessageType, Seq<u8>)>, ProtocolError>,
}

/// Message reassembly (RFC 6455, section 5.4): a data frame either is a
/// whole message or starts a fragmented one, continuation frames extend it,
/// and control frames pass through. Text must be valid UTF-8 and no message
/// may exceed `max` bytes.
pub open spec fn spec_push_frame(
    current_type: Option<WebSocketMessageType>,
    pending: Seq<u8>,
    max: usize,
    fin: bool,
    opcode: WebSocketMessageType,
    payload: Seq<u8>,
) -> PushSpec {
    let same = |r: Result<Option<(WebSocketMessageType, Seq<u8>)>, ProtocolError>|
        PushSpec { current_type, pending, result: r };
    match opcode {
        WebSocketMessageType::Text | WebSocketMessageType::Binary => {
            if current_type is Some {
                same(Err(ProtocolError::ExpectedContinuation(current_type->0)))
            } else if fin {
                if payload.len() > max {
                    same(Err(ProtocolError::MessageTooBig { size: payload.len() as usize, max_size: max }))
                } else if opcode == WebSocketMessageType::Text && !valid_utf8(payload) {
                    same(Err(ProtocolError::InvalidUtf8))
                } else {
                    same(Ok(Some((opcode, payload))))
                }
            } else if pending.len() + payload.len() > max {
                PushSpec {
                    current_type: Some(opcode),
                    pending,
                    result: Err(ProtocolError::MessageTooBig {
                        size: (pending.len() + payload.len()) as usize,
                        max_size: max,
                    }),
                }
            } else {
                PushSpec { current_type: Some(opcode), pending: pending + payload, result: Ok(None) }
            }
        },
        WebSocketMessageType::Continuation => {
            if current_type is None {
                same(Err(ProtocolError::UnexpectedContinuation))
            } else if pending.len() + payload.len() > max {
                same(Err(ProtocolError::MessageTooBig {
                    size: (pending.len() + payload.len()) as usize,
                    max_size: max,
                }))
            } else if !fin {
                PushSpec { current_type, pending: pending + payload, result: Ok(None) }
            } else {
                let whole = pending + payload;
                let t = current_type->0;
                PushSpec {
                    current_type: None,
                    pending: Seq::empty(),
                    result: if t == WebSocketMessageType::Text && !valid_utf8(whole) {
                        Err(ProtocolError::InvalidUtf8)
                    } else {
                        Ok(Some((t, whole)))
                    },
                }
            }
        },
        _ => same(Ok(Some((opcode, payload)))),
    }
}

/// Turns a stream of frames into whole messages.
#[derive(Debug)]
pub struct MessageAssembler {
    current_type: Option<WebSocketMessageType>,
    current_payload: BytesMut,
    max_message_size: usize,
}

impl MessageAssembler {
    /// Bytes held are within the size limit, and only while a fragmented
    /// message is in progress.
    #[verifier::type_invariant]
    spec fn well_formed(self) -> bool {
        &&& self.max_message_size <= DEFAULT_MAX_MESSAGE_SIZE
        &&& bytes_mut_view(self.current_payload).len() <= self.max_message_size
        &&& (self.current_type is None ==> bytes_mut_view(self.current_payload).len() == 0)
        &&& (self.current_type matches Some(t) ==> t == WebSocketMessageType::Text || t
            == WebSocketMessageType::Binary)
    }

    /// Type of the fragmented message in progress, if any.
    pub closed spec fn current_type(&self) -> Option<WebSocketMessageType> {
        self.current_type
    }

    /// Bytes of the fragmented message received so far.
    pub closed spec fn pending(&self) -> Seq<u8> {
        bytes_mut_view(self.current_payload)
    }

    /// The largest message accepted.
    pub closed spec fn max_message(&self) -> usize {
        self.max_message_size
    }

    /// No message in progress, with the default message size limit.
    pub fn new() -> (res: Self)
        ensures
            res.current_type() is None,
            res.pending() == Seq::<u8>::empty(),
            res.max_message() == DEFAULT_MAX_MESSAGE_SIZE,
    {
        Self {
            current_type: None,
            current_payload: bytes_mut_new(),
            max_message_size: DEFAULT_MAX_MESSAGE_SIZE,
        }
    }

    fn check_message_size(&self, size: usize) -> (res: Result<(), ProtocolError>)
        ensures
            size > self.max_message() <==> res is Err,
            res is Err ==> res == Err::<(), ProtocolError>(
                ProtocolError::MessageTooBig { size, max_size: self.max_message() },
            ),
    {
        if size > self.max_message_size {
            return Err(ProtocolError::MessageTooBig { size, max_size: self.max_message_size });
        }
        Ok(())
    }

    fn extend_current(&mut self, payload: &[u8]) -> (res: Result<(), ProtocolError>)
        requires
            old(self).current_type() is Some,
            payload@.len() <= isize::MAX,
        ensures
            final(self).current_type() == old(self).current_type(),
            final(self).max_message() == old(self).max_message(),
            old(self).pending().len() + payload@.len() > old(self).max_message() <==> res is Err,
            res is Err ==> {
                &&& res == Err::<(), ProtocolError>(ProtocolError::MessageTooBig {
                    size: (old(self).pending().len() + payload@.len()) as usize,
                    max_size: old(self).max_message(),
                })
                &&& final(self).pending() == old(self).pending()
            },
            res is Ok ==> final(self).pending() == old(self).pending() + payload@,
    {
        proof {
            use_type_invariant(&*self);
        }
        let new_len = bytes_mut_len(&self.current_payload) + payload.len();
        self.check_message_size(new_len)?;
        bytes_mut_put_slice(&mut self.current_payload, payload);
        Ok(())
    }

    /// Feeds one frame; returns the message it completes, if any.
    pub fn push_frame(&mut self, frame: Frame) -> (res: Result<Option<WebSocketDataPayLoad>, ProtocolError>)
        ensures
            ({
                let s = spec_push_frame(
                    old(self).current_type(),
                    old(self).pending(),
                    old(self).max_message(),
                    frame.fin,
                    frame.opcode,
                    bytes_view(frame.payload),
                );
                &&& final(self).current_type() == s.current_type
                &&& final(self).pending() == s.pending
                &&& final(self).max_message() == old(self).max_message()
                &&& match s.result {
                    Err(e) => res == Err::<Option<WebSocketDataPayLoad>, ProtocolError>(e),
                    Ok(None) => res == Ok::<Option<WebSocketDataPayLoad>, ProtocolError>(None),
                    Ok(Some((t, p))) => res matches Ok(Some(m)) && m.kind() == t && m.payload() == p,
                }
            }),
    {
        proof {
            use_type_invariant(&*self);
        }
        let payload_len = bytes_len(&frame.payload);
        match frame.opcode {
            WebSocketMessageType::Text | WebSocketMessageType::Binary => {
                if let Some(message_type) = self.current_type {
                    return Err(ProtocolError::ExpectedContinuation(message_type));
                }
                if frame.fin {
                    self.check_message_size(payload_len)?;
                    if frame.opcode == WebSocketMessageType::Text {
                        if data::str_from_utf8(bytes_as_slice(&frame.payload)).is_err() {
                            return Err(ProtocolError::InvalidUtf8);
                        }
                        Ok(Some(WebSocketDataPayLoad::_text(frame.payload)))
                    } else {
                        Ok(Some(WebSocketDataPayLoad::binary(frame.payload)))
                    }
                } else {
                    self.current_type = Some(frame.opcode);
                    self.extend_current(bytes_as_slice(&frame.payload))?;
                    Ok(None)
                }
            },
            WebSocketMessageType::Continuation => {
                let message_type = match self.current_type {
                    Some(t) => t,
                    None => return Err(ProtocolError::UnexpectedContinuation),
                };
                self.extend_current(bytes_as_slice(&frame.payload))?;
                if !frame.fin {
                    return Ok(None);
                }
                let payload = bytes_mut_freeze(bytes_mut_split(&mut self.current_payload));
                self.current_type = None;
                if message_type == WebSocketMessageType::Text {
                    if data::str_from_utf8(bytes_as_slice(&payload)).is_err() {
                        return Err(ProtocolError::InvalidUtf8);
                    }
                    Ok(Some(WebSocketDataPayLoad::_text(payload)))
                } else {
                    Ok(Some(WebSocketDataPayLoad::binary(payload)))
                }
            },
            WebSocketMessageType::Ping => Ok(Some(WebSocketDataPayLoad::ping(frame.payload))),
            WebSocketMessageType::Pong => Ok(Some(WebSocketDataPayLoad::pong(frame.payload))),
            WebSocketMessageType::Close => Ok(Some(WebSocketDataPayLoad::close(frame.payload))),
        }
    }
}

/// Whether the read loop goes on after a message.
#[derive(Debug, Clone, Copy, Eq, PartialEq)]
pub enum DriverAction {
    Continue,
    Close,
}

/// What the connection does with a message it received: a Ping is answered
/// by a Pong and a Close by a Close, each echoing the payload, and a Close
/// ends the read loop. Every message is also handed to the application.
pub fn plan_reply(message: &WebSocketDataPayLoad) -> (res: (Option<WebSocketDataPayLoad>, DriverAction))
    ensures
        message.kind() == WebSocketMessageType::Ping ==> {
            &&& res.0 matches Some(r)
            &&& r.kind() == WebSocketMessageType::Pong
            &&& r.payload() == message.payload()
            &&& res.1 == DriverAction::Continue
        },
        message.kind() == WebSocketMessageType::Close ==> {
            &&& res.0 matches Some(r)
            &&& r.kind() == WebSocketMessageType::Close
            &&& r.payload() == message.payload()
            &&& res.1 == DriverAction::Close
        },
        message.kind() != WebSocketMessageType::Ping && message.kind() != WebSocketMessageType::Close
            ==> res.0 is None && res.1 == DriverAction::Continue,
{
    match message.message_type() {
        WebSocketMessageType::Ping => (
            Some(WebSocketDataPayLoad::pong(bytes_copy_from_slice(message.as_bytes()))),
            DriverAction::Continue,
        ),
        WebSocketMessageType::Close => (
            Some(WebSocketDataPayLoad::close(bytes_copy_from_slice(message.as_bytes()))),
            DriverAction::Close,
        ),
        _ => (None, DriverAction::Continue),
    }
}

/// What the read loop does once the buffered frames are drained: it reads
/// on after `Continue`, stops after `Close`, and on a protocol error sends
/// an empty Close message and stops. The result holds the message to send,
/// if any, and whether the loop stops.
pub fn after_drain(r: &Result<DriverAction, ProtocolError>) -> (res: (Option<WebSocketDataPayLoad>, bool))
    ensures
        r matches Ok(DriverAction::Continue) ==> res.0 is None && !res.1,
        r matches Ok(DriverAction::Close) ==> res.0 is None && res.1,
        r is Err ==> {
            &&& res.0 matches Some(m)
            &&& m.kind() == WebSocketMessageType::Close
            &&& m.payload().len() == 0
            &&& res.1
        },
{
    match r {
        Ok(DriverAction::Continue) => (None, false),
        Ok(DriverAction::Close) => (None, true),
        Err(_) => (Some(WebSocketDataPayLoad::close(bytes_from_vec(Vec::new()))), true),
    }
}

/// What the read loop does after reading from the socket: `Some(n)` is a
/// read of `n` bytes and `None` a failed read. The end of the stream (a
/// read of no bytes) stops the loop; a failed read sends an empty Close
/// message and stops it; any other read goes on.
pub fn after_read(read: Option<usize>) -> (res: (Option<WebSocketDataPayLoad>, bool))
    ensures
        read == Some(0usize) ==> res.0 is None && res.1,
        read matches Some(n) && n > 0 ==> res.0 is None && !res.1,
        read is None ==> {
            &&& res.0 matches Some(m)
            &&& m.kind() == WebSocketMessageType::Close
            &&& m.payload().len() == 0
            &&& res.1
        },
{
    match read {
        Some(0) => (None, true),
        Some(_) => (None, false),
        None => (Some(WebSocketDataPayLoad::close(bytes_from_vec(Vec::new()))), true),
    }
}

/// `256^i` grows with `i`.
pub proof fn lemma_pow256_mono(i: nat, j: nat)
    requires
        i <= j,
    ensures
        pow256(i) <= pow256(j),
    decreases j - i,
{
    if i < j {
        lemma_pow256_mono(i, (j - 1) as nat);
    }
}

} // verus!
