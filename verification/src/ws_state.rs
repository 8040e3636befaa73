//! The incremental WebSocket reader that the HTTP server runs on an upgraded
//! connection: a small state machine that alternates between reading a
//! frame header and reading its payload.
use crate::buffer::{
    alloc_limit, bytes_from_vec, bytes_mut_at, bytes_mut_freeze, bytes_mut_get_u16,
    bytes_mut_get_u64, bytes_mut_get_u8, bytes_mut_len, bytes_mut_put_slice, bytes_mut_split_off,
    bytes_mut_split_to, bytes_mut_view, bytes_mut_as_slice, bytes_mut_put_slice_bytes, bytes_mut_with_capacity, bytes_view, pow256,
    u16_be_bytes, u64_be_bytes,
};
use crate::websocket::data::WebSocketDataPayLoad;
use crate::websocket::{be_value, spec_from_opcode, WebSocketMessageType};
use bytes::{Bytes, BytesMut};
use vstd::arithmetic::div_mod::{lemma_div_denominator, lemma_fundamental_div_mod};
use vstd::arithmetic::mul::lemma_mul_strictly_positive;
use vstd::prelude::*;

verus! {

/// Where the reader stands in the byte stream.
#[derive(Debug, PartialEq, Eq, Clone, Copy)]
pub enum WebSocketActorState {
    Head,
    Body { len: usize, mask: [u8; 4], msg_finished: bool, readed: usize },
    Finished,
    ConnectionClose,
}

/// The reader's state as values: unread bytes, the message collected so
/// far, the type of the last frame header and the machine state.
pub struct StreamSpec {
    pub buf: Seq<u8>,
    pub message: Seq<u8>,
    pub kind: WebSocketMessageType,
    pub machine: WebSocketActorState,
}

/// Reads a two- or eight-byte big-endian number back from its bytes.
pub proof fn lemma_u16_be_roundtrip(n: u16)
    ensures
        be_value(u16_be_bytes(n)) == n,
{
    let s = u16_be_bytes(n);
    let e = s.drop_last().drop_last();
    assert(e =~= Seq::<u8>::empty());
    assert(be_value(e) == 0);
    assert(s.drop_last().last() == (n / 256) as u8);
    assert(be_value(s.drop_last()) == (n / 256) as nat);
    assert(be_value(s) == (n / 256) as nat * 256 + (n % 256) as nat);
}

/// The first `k` of the eight big-endian bytes of `n` spell `n / 256^(8-k)`.
proof fn lemma_u64_be_prefix(n: u64, k: nat)
    requires
        k <= 8,
    ensures
        be_value(u64_be_bytes(n).take(k as int)) == n as nat / pow256((8 - k) as nat),
    decreases k,
{
    let b = u64_be_bytes(n);
    if k == 0 {
        assert(b.take(0) =~= Seq::<u8>::empty());
        reveal_with_fuel(pow256, 9);
        assert(pow256(8) == 18446744073709551616nat);
        assert(be_value(b.take(0)) == 0);
        assert(n as nat / 18446744073709551616nat == 0);
    } else {
        lemma_u64_be_prefix(n, (k - 1) as nat);
        let t = b.take(k as int);
        assert(t.drop_last() =~= b.take(k - 1));
        assert(t.last() == b[k - 1]);
        let p = pow256((8 - k) as nat);
        assert(pow256((9 - k) as nat) == 256 * p);
        lemma_pow256_positive((8 - k) as nat);
        let q = n as nat / p;
        lemma_div_denominator(n as int, p as int, 256);
        assert(n as nat / pow256((9 - k) as nat) == q / 256) by {
            assert((p * 256) as int == (256 * p) as int) by (nonlinear_arith);
        }
        lemma_fundamental_div_mod(q as int, 256);
        assert(b[k - 1] == ((n as nat / pow256((7 - (k - 1)) as nat)) % 256) as u8);
        assert((7 - (k - 1)) as nat == (8 - k) as nat);
        assert(b[k - 1] as nat == q % 256);
        assert(be_value(t) == be_value(t.drop_last()) * 256 + t.last() as nat);
        assert(be_value(t) == (q / 256) * 256 + q % 256);
        assert(be_value(t) == q);
    }
}

proof fn lemma_pow256_positive(k: nat)
    ensures
        pow256(k) > 0,
    decreases k,
{
    if k > 0 {
        lemma_pow256_positive((k - 1) as nat);
    }
}

/// Reads an eight-byte big-endian number back from its bytes.
pub proof fn lemma_u64_be_roundtrip(n: u64)
    ensures
        be_value(u64_be_bytes(n)) == n,
{
    lemma_u64_be_prefix(n, 8);
    assert(u64_be_bytes(n).take(8) =~= u64_be_bytes(n));
    assert(pow256(0) == 1);
    assert(n as nat / 1 == n as nat);
}

/// After the first two header bytes: the extended length, if any, and the
/// mask key.
pub open spec fn spec_head_tail(st: StreamSpec, kind: WebSocketMessageType, fin: bool, rest: Seq<u8>, len: usize) -> (bool, StreamSpec) {
    if rest.len() < 4 {
        (false, StreamSpec { buf: rest, kind, ..st })
    } else {
        (true, StreamSpec {
            buf: rest.skip(4),
            kind,
            machine: WebSocketActorState::Body {
                len,
                mask: [rest[0], rest[1], rest[2], rest[3]],
                msg_finished: fin,
                readed: 0,
            },
            ..st
        })
    }
}

/// Reading a frame header. Bytes are taken off the buffer as they are
/// read, also when the header turns out to be incomplete; a Close header
/// ends the connection at once.
pub open spec fn spec_parse_head(st: StreamSpec) -> (bool, StreamSpec) {
    let b = st.buf;
    if b.len() < 2 {
        (false, st)
    } else {
        let p = b[0];
        let kind = spec_from_opcode(p & 0x0F)->0;
        let fin = p & 0x80 == 0x80;
        if kind == WebSocketMessageType::Close {
            (true, StreamSpec { buf: b.skip(1), kind, machine: WebSocketActorState::ConnectionClose, ..st })
        } else {
            let l7 = b[1] & 0x7f;
            let rest = b.skip(2);
            if l7 == 126 {
                if rest.len() < 2 {
                    (false, StreamSpec { buf: rest, kind, ..st })
                } else {
                    spec_head_tail(st, kind, fin, rest.skip(2), be_value(rest.take(2)) as usize)
                }
            } else if l7 == 127 {
                if rest.len() < 8 {
                    (false, StreamSpec { buf: rest, kind, ..st })
                } else {
                    spec_head_tail(st, kind, fin, rest.skip(8), be_value(rest.take(8)) as u64 as usize)
                }
            } else {
                spec_head_tail(st, kind, fin, rest, l7 as usize)
            }
        }
    }
}

/// The payload bytes `data` unmasked, counting mask positions from `offset`.
pub open spec fn unmask_from(data: Seq<u8>, mask: Seq<u8>, offset: nat) -> Seq<u8> {
    Seq::new(data.len(), |i: int| data[i] ^ mask[(i + offset) % 4])
}

/// Reading payload bytes of the current frame: as many as are buffered, up
/// to the frame's end, are unmasked onto the message. At the frame's end
/// a continuation frame goes back to reading headers and any other frame
/// finishes the message.
pub open spec fn spec_parse_body(st: StreamSpec, readed: usize, len: usize, mask: [u8; 4], fin: bool) -> (bool, StreamSpec) {
    let remain: int = if readed <= len { len - readed } else { 0 };
    let n = if st.buf.len() < remain { st.buf.len() as int } else { remain };
    let message = st.message + unmask_from(st.buf.take(n), mask@, st.message.len());
    let buf = st.buf.skip(n);
    let now = readed + n;
    if now == len {
        (true, StreamSpec {
            buf,
            message,
            machine: if st.kind == WebSocketMessageType::Continuation {
                WebSocketActorState::Head
            } else {
                WebSocketActorState::Finished
            },
            ..st
        })
    } else {
        (false, StreamSpec {
            buf,
            message,
            machine: WebSocketActorState::Body { readed: now as usize, len, mask, msg_finished: fin },
            ..st
        })
    }
}

/// What one round of processing asks of the connection.
pub enum ProcessSpec {
    Idle,
    Incoming(Seq<u8>),
    Outgoing(Seq<u8>),
    Close(Seq<u8>),
    InvalidOpcode(u8),
}

/// The bytes of "pong".
pub open spec fn pong_bytes() -> Seq<u8> {
    seq![0x70u8, 0x6f, 0x6e, 0x67]
}

/// The bytes of "close".
pub open spec fn close_bytes() -> Seq<u8> {
    seq![0x63u8, 0x6c, 0x6f, 0x73, 0x65]
}

/// A payload being read never counts more bytes than its frame has.
pub open spec fn state_wf(st: StreamSpec) -> bool {
    st.machine matches WebSocketActorState::Body { readed, len, .. } ==> readed <= len
}

/// What each round of processing uses up: buffered bytes, and the step
/// out of a payload.
pub open spec fn measure(st: StreamSpec) -> nat {
    2 * st.buf.len() + if st.machine is Body { 1nat } else { 0nat }
}

/// One round of processing: headers and payloads are read until the
/// buffer runs dry or a frame ends. A finished text or binary message is
/// handed to the application as text and the reader returns to headers; a
/// finished Ping is answered with the text "pong" (the reader stays where
/// it is); a Close header is answered with a Close carrying "close" and ends
/// the connection; an unknown opcode stops the reader.
pub open spec fn spec_process(st: StreamSpec) -> (ProcessSpec, StreamSpec)
    decreases measure(st),
{
    match st.machine {
        WebSocketActorState::Head => {
            if st.buf.len() >= 2 && spec_from_opcode(st.buf[0] & 0x0F) is None {
                (ProcessSpec::InvalidOpcode(st.buf[0]), st)
            } else {
                let (ok, next) = spec_parse_head(st);
                if !ok {
                    (ProcessSpec::Idle, next)
                } else {
                    spec_process(next)
                }
            }
        },
        WebSocketActorState::Body { len, mask, msg_finished, readed } => {
            let (ok, next) = spec_parse_body(st, readed, len, mask, msg_finished);
            if !ok {
                (ProcessSpec::Idle, next)
            } else {
                spec_process(next)
            }
        },
        WebSocketActorState::Finished => {
            if st.kind == WebSocketMessageType::Text || st.kind == WebSocketMessageType::Binary {
                (
                    ProcessSpec::Incoming(st.message),
                    StreamSpec { message: Seq::empty(), machine: WebSocketActorState::Head, ..st },
                )
            } else if st.kind == WebSocketMessageType::Ping {
                (ProcessSpec::Outgoing(pong_bytes()), st)
            } else {
                (ProcessSpec::Idle, st)
            }
        },
        WebSocketActorState::ConnectionClose => (ProcessSpec::Close(close_bytes()), st),
    }
}

/// The connection-side effect that one round of processing asks for.
#[derive(Debug)]
pub enum ProcessOutcome {
    /// Nothing to send; wait for more bytes.
    Idle,
    /// A message for the application.
    Incoming(WebSocketDataPayLoad),
    /// A message for the peer.
    Outgoing(WebSocketDataPayLoad),
    /// A message for the peer, after which the connection closes.
    CloseConnection(WebSocketDataPayLoad),
    /// A frame header carries an opcode outside RFC 6455; the reader
    /// cannot go on. The byte is the header's first byte.
    InvalidOpcode(u8),
}

/// The effect `o` is the one that `s` describes.
pub open spec fn outcome_agrees(o: ProcessOutcome, s: ProcessSpec) -> bool {
    match s {
        ProcessSpec::Idle => o is Idle,
        ProcessSpec::Incoming(p) => o matches ProcessOutcome::Incoming(m) && m.kind()
            == WebSocketMessageType::Text && m.payload() == p,
        ProcessSpec::Outgoing(p) => o matches ProcessOutcome::Outgoing(m) && m.kind()
            == WebSocketMessageType::Text && m.payload() == p,
        ProcessSpec::Close(p) => o matches ProcessOutcome::CloseConnection(m) && m.kind()
            == WebSocketMessageType::Close && m.payload() == p,
        ProcessSpec::InvalidOpcode(b) => o matches ProcessOutcome::InvalidOpcode(x) && x == b,
    }
}

/// The reader's buffers and machine state.
#[derive(Debug)]
pub struct ParserInnserState {
    buf: BytesMut,
    message: BytesMut,
    current_message_type: WebSocketMessageType,
    machine_state: WebSocketActorState,
}

impl ParserInnserState {
    /// A payload being read never counts more bytes than its frame has.
    #[verifier::type_invariant]
    spec fn readed_within_len(self) -> bool {
        state_wf(self.state())
    }

    /// The reader's state as values.
    pub closed spec fn state(&self) -> StreamSpec {
        StreamSpec {
            buf: bytes_mut_view(self.buf),
            message: bytes_mut_view(self.message),
            kind: self.current_message_type,
            machine: self.machine_state,
        }
    }

    /// A reader at the first header, with nothing buffered.
    pub fn new() -> (res: Self)
        ensures
            res.state() == (StreamSpec {
                buf: Seq::empty(),
                message: Seq::empty(),
                kind: WebSocketMessageType::Text,
                machine: WebSocketActorState::Head,
            }),
    {
        Self {
            buf: bytes_mut_with_capacity(1024),
            message: bytes_mut_with_capacity(1024),
            machine_state: WebSocketActorState::Head,
            current_message_type: WebSocketMessageType::Text,
        }
    }

    /// Appends bytes received from the peer.
    pub fn put(&mut self, data: Bytes)
        requires
            old(self).state().buf.len() + bytes_view(data).len() <= alloc_limit(),
        ensures
            final(self).state() == (StreamSpec { buf: old(self).state().buf + bytes_view(data), ..old(self).state() }),
    {
        proof {
            use_type_invariant(&*self);
        }
        bytes_mut_put_slice_bytes(&mut self.buf, &data);
    }

    /// Where the reader stands.
    pub fn machine_state(&self) -> (res: WebSocketActorState)
        ensures
            res == self.state().machine,
    {
        self.machine_state
    }

    /// The type of the last frame header read.
    pub fn current_message_type(&self) -> (res: WebSocketMessageType)
        ensures
            res == self.state().kind,
    {
        self.current_message_type
    }

    /// The message collected so far.
    pub fn message(&self) -> (res: &[u8])
        ensures
            res@ == self.state().message,
    {
        bytes_mut_as_slice(&self.message)
    }

    /// Unread bytes plus collected message bytes.
    pub fn held_len(&self) -> (res: usize)
        ensures
            res == self.state().buf.len() + self.state().message.len(),
    {
        bytes_mut_len(&self.buf) + bytes_mut_len(&self.message)
    }

    /// Reads a frame header; `false` when the buffer ran out first.
    pub fn parse_head(&mut self) -> (res: bool)
        requires
            old(self).state().buf.len() >= 2 ==> spec_from_opcode(old(self).state().buf[0] & 0x0F) is Some,
        ensures
            (res, final(self).state()) == spec_parse_head(old(self).state()),
    {
        proof {
            use_type_invariant(&*self);
        }
        let ghost st = self.state();
        if bytes_mut_len(&self.buf) < 2 {
            return false;
        }
        let p = bytes_mut_get_u8(&mut self.buf);
        let kind = match WebSocketMessageType::from_opcode(p & 0x0F) {
            Ok(k) => k,
            Err(_) => {
                assert(false);
                return false;
            },
        };
        self.current_message_type = kind;
        let msg_finished = p & 0x80 == 0x80;
        if kind == WebSocketMessageType::Close {
            self.machine_state = WebSocketActorState::ConnectionClose;
            return true;
        }
        let l7 = bytes_mut_get_u8(&mut self.buf) & 0x7f;
        let mut len: usize = l7 as usize;
        let ghost rest = st.buf.skip(2);
        assert(bytes_mut_view(self.buf) =~= rest);
        if l7 == 126 {
            if bytes_mut_len(&self.buf) < 2 {
                return false;
            }
            let v = bytes_mut_get_u16(&mut self.buf);
            proof {
                lemma_u16_be_roundtrip(v);
            }
            len = v as usize;
        } else if l7 == 127 {
            if bytes_mut_len(&self.buf) < 8 {
                return false;
            }
            let v = bytes_mut_get_u64(&mut self.buf);
            proof {
                lemma_u64_be_roundtrip(v);
            }
            len = #[verifier::truncate] (v as usize);
        }
        if bytes_mut_len(&self.buf) < 4 {
            return false;
        }
        let m0 = bytes_mut_get_u8(&mut self.buf);
        let m1 = bytes_mut_get_u8(&mut self.buf);
        let m2 = bytes_mut_get_u8(&mut self.buf);
        let m3 = bytes_mut_get_u8(&mut self.buf);
        let mask = [m0, m1, m2, m3];
        self.machine_state = WebSocketActorState::Body { readed: 0, len, mask, msg_finished };
        proof {
            let r = if l7 == 126 { rest.skip(2) } else if l7 == 127 { rest.skip(8) } else { rest };
            assert(bytes_mut_view(self.buf) =~= r.skip(4));
        }
        true
    }

    /// Reads payload bytes of the current frame; `false` when the frame is
    /// not complete yet.
    pub fn parse_body(&mut self, readed: usize, len: usize, mask: [u8; 4], msg_finished: bool) -> (res: bool)
        requires
            readed <= len,
            old(self).state().buf.len() + old(self).state().message.len() <= alloc_limit(),
        ensures
            (res, final(self).state()) == spec_parse_body(old(self).state(), readed, len, mask, msg_finished),
    {
        proof {
            use_type_invariant(&*self);
        }
        let ghost st = self.state();
        let remain = len - readed;
        let buffered = bytes_mut_len(&self.buf);
        let new_msg_len = if buffered < remain { buffered } else { remain };
        let message_len = bytes_mut_len(&self.message);
        let mut unmasked: Vec<u8> = Vec::new();
        let mut i: usize = 0;
        while i < new_msg_len
            invariant
                i <= new_msg_len <= buffered,
                buffered == bytes_mut_view(self.buf).len(),
                st == self.state(),
                message_len == st.message.len(),
                buffered + message_len <= alloc_limit(),
                unmasked@ =~= unmask_from(st.buf.take(i as int), mask@, message_len as nat),
            decreases new_msg_len - i,
        {
            let d = bytes_mut_at(&self.buf, i);
            unmasked.push(d ^ mask[(i + message_len) % 4]);
            i = i + 1;
            proof {
                assert(st.buf.take(i as int).drop_last() =~= st.buf.take(i - 1));
            }
        }
        bytes_mut_put_slice(&mut self.message, unmasked.as_slice());
        let now = readed + new_msg_len;
        let _ = bytes_mut_split_to(&mut self.buf, new_msg_len);
        if now == len {
            if self.current_message_type == WebSocketMessageType::Continuation {
                self.machine_state = WebSocketActorState::Head;
            } else {
                self.machine_state = WebSocketActorState::Finished;
            }
        } else {
            self.machine_state = WebSocketActorState::Body { readed: now, len, mask, msg_finished };
            return false;
        }
        true
    }

    /// Reads what the buffer holds until a frame ends or the bytes run out,
    /// and says what the connection should do.
    pub fn process(&mut self) -> (res: ProcessOutcome)
        requires
            old(self).state().buf.len() + old(self).state().message.len() <= alloc_limit(),
        ensures
            ({
                let (o, next) = spec_process(old(self).state());
                &&& outcome_agrees(res, o)
                &&& final(self).state() == next
            }),
    {
        proof {
            use_type_invariant(&*self);
        }
        let ghost start = self.state();
        loop
            invariant
                start == old(self).state(),
                spec_process(self.state()) == spec_process(start),
                self.state().buf.len() + self.state().message.len() <= alloc_limit(),
            decreases measure(self.state()),
        {
            proof {
                        use_type_invariant(&*self);
            }
            match self.machine_state {
                WebSocketActorState::Head => {
                    if bytes_mut_len(&self.buf) >= 2 {
                        let p = bytes_mut_at(&self.buf, 0);
                        if WebSocketMessageType::from_opcode(p & 0x0F).is_err() {
                            return ProcessOutcome::InvalidOpcode(p);
                        }
                    }
                    if !self.parse_head() {
                        return ProcessOutcome::Idle;
                    }
                },
                WebSocketActorState::Body { len, mask, msg_finished, readed } => {
                    if !self.parse_body(readed, len, mask, msg_finished) {
                        return ProcessOutcome::Idle;
                    }
                },
                WebSocketActorState::Finished => {
                    match self.current_message_type {
                        WebSocketMessageType::Text | WebSocketMessageType::Binary => {
                            let ghost before = self.state();
                            let payload = bytes_mut_freeze(bytes_mut_split_off(&mut self.message, 0));
                            self.machine_state = WebSocketActorState::Head;
                            proof {
                                assert(bytes_mut_view(self.message) =~= Seq::<u8>::empty());
                                assert(bytes_view(payload) =~= before.message);
                                assert(self.state() == (StreamSpec {
                                    message: Seq::empty(),
                                    machine: WebSocketActorState::Head,
                                    ..before
                                }));
                            }
                            return ProcessOutcome::Incoming(WebSocketDataPayLoad::_text(payload));
                        },
                        WebSocketMessageType::Ping => {
                            let reply = bytes_from_vec(vec![0x70u8, 0x6f, 0x6e, 0x67]);
                            return ProcessOutcome::Outgoing(WebSocketDataPayLoad::_text(reply));
                        },
                        _ => {
                            return ProcessOutcome::Idle;
                        },
                    }
                },
                WebSocketActorState::ConnectionClose => {
                    let farewell = bytes_from_vec(vec![0x63u8, 0x6c, 0x6f, 0x73, 0x65]);
                    return ProcessOutcome::CloseConnection(WebSocketDataPayLoad::close(farewell));
                },
            }
        }
    }
}

/// One round of processing asks to close the connection exactly when it
/// leaves the reader in the closed state, and the Close it sends then
/// carries "close".
pub proof fn law_process_close_iff_closed(st: StreamSpec)
    ensures
        spec_process(st).0 is Close <==> spec_process(st).1.machine is ConnectionClose,
        spec_process(st).0 is Close ==> spec_process(st).0 == ProcessSpec::Close(close_bytes()),
    decreases measure(st),
{
    match st.machine {
        WebSocketActorState::Head => {
            if st.buf.len() >= 2 && spec_from_opcode(st.buf[0] & 0x0F) is None {
            } else {
                let (ok, next) = spec_parse_head(st);
                if ok {
                    law_process_close_iff_closed(next);
                }
            }
        },
        WebSocketActorState::Body { len, mask, msg_finished, readed } => {
            let (ok, next) = spec_parse_body(st, readed, len, mask, msg_finished);
            if ok {
                law_process_close_iff_closed(next);
            }
        },
        _ => {},
    }
}

} // verus!
