//! Properties of the frame decoder and of message reassembly that hold
//! for every input.
use crate::buffer::pow256;
use crate::websocket::data::spec_head_frame;
use crate::websocket::{
    be_value, ext_len_bytes, masked, spec_from_opcode, spec_parse_header, spec_push_frame, HeaderSpec,
    ProtocolError, WebSocketMessageType, FIN_BIT_MASK, MASK_BIT_MASK, OPCODE_MASK, PAYLOAD_LEN_MASK,
    RSV_MASK,
};
use crate::ws_state::{
    lemma_u16_be_roundtrip, lemma_u64_be_roundtrip, spec_parse_body, spec_parse_head, spec_process, unmask_from,
    ProcessSpec, StreamSpec, WebSocketActorState,
};
use vstd::prelude::*;
use vstd::utf8::valid_utf8;

verus! {

/// Masking is its own inverse: unmasking a masked payload with the same key
/// gives the payload back.
pub proof fn law_mask_involution(payload: Seq<u8>, mask: Seq<u8>)
    requires
        mask.len() == 4,
    ensures
        masked(masked(payload, mask), mask) == payload,
{
    assert forall|i: int| 0 <= i < payload.len() implies #[trigger] masked(masked(payload, mask), mask)[i]
        == payload[i] by {
        let a = payload[i];
        let k = mask[i % 4];
        assert((a ^ k) ^ k == a) by (bit_vector);
    }
    assert(masked(masked(payload, mask), mask) =~= payload);
}

/// Once the decoder has decided on the front of a buffer (a header or an
/// error), bytes that arrive later do not change that decision.
pub proof fn law_header_decision_is_final(buf: Seq<u8>, more: Seq<u8>, max_frame_size: usize)
    requires
        !(spec_parse_header(buf, max_frame_size) matches Ok(None)),
    ensures
        spec_parse_header(buf + more, max_frame_size) == spec_parse_header(buf, max_frame_size),
{
    let all = buf + more;
    assert(all[0] == buf[0]);
    assert(all[1] == buf[1]);
    let ext = ext_len_bytes(buf[1]);
    if buf.len() >= 2 + ext {
        assert(all.subrange(2, 2 + ext as int) =~= buf.subrange(2, 2 + ext as int));
    }
    if buf.len() >= 6 + ext {
        assert(all.subrange(2 + ext as int, 6 + ext as int) =~= buf.subrange(2 + ext as int, 6 + ext as int));
    }
}

/// The decoder never waits for more than the longest header, fourteen
/// bytes: with that many buffered it has decided.
pub proof fn law_header_decided_within_fourteen_bytes(buf: Seq<u8>, max_frame_size: usize)
    requires
        buf.len() >= 14,
    ensures
        !(spec_parse_header(buf, max_frame_size) matches Ok(None)),
{
    let second = buf[1];
    assert(ext_len_bytes(second) <= 8);
}

/// The bytes a client sends for one final frame: the server header shape
/// of `spec_head_frame` with the mask bit set, the four mask bytes, and
/// the masked payload.
pub open spec fn client_frame(kind: WebSocketMessageType, mask: Seq<u8>, payload: Seq<u8>) -> Seq<u8> {
    let h = spec_head_frame(kind, payload.len());
    h.update(1, h[1] | MASK_BIT_MASK) + mask + masked(payload, mask)
}

/// Decoding a masked client frame gives back what was encoded: the frame
/// type, the final flag, the mask key, the payload length and, once
/// unmasked, the payload; whatever follows the frame is not looked at.
pub proof fn law_client_frame_roundtrip(
    kind: WebSocketMessageType,
    mask: Seq<u8>,
    payload: Seq<u8>,
    rest: Seq<u8>,
    max_frame_size: usize,
)
    requires
        mask.len() == 4,
        payload.len() <= max_frame_size,
        kind.spec_is_control() ==> payload.len() <= 125,
    ensures
        ({
            let h = spec_head_frame(kind, payload.len());
            let buf = client_frame(kind, mask, payload) + rest;
            let hl = h.len() + 4;
            &&& spec_parse_header(buf, max_frame_size) == Ok::<Option<HeaderSpec>, ProtocolError>(
                Some(HeaderSpec { fin: true, opcode: kind, mask, len: payload.len(), header_len: hl }),
            )
            &&& masked(buf.subrange(hl as int, (hl + payload.len()) as int), mask) == payload
        }),
{
    let len = payload.len();
    let h = spec_head_frame(kind, len);
    let frame = client_frame(kind, mask, payload);
    let buf = frame + rest;
    let op = kind.spec_opcode();
    let first: u8 = 0x80u8 | op;
    assert(op < 16);
    assert(first & RSV_MASK == 0 && first & OPCODE_MASK == op && first & FIN_BIT_MASK != 0) by (bit_vector)
        requires
            first == 0x80u8 | op,
            op < 16,
    ;
    assert(spec_from_opcode(op) == Some(kind));
    assert(buf[0] == first);
    let h1: u8 = h[1];
    let second: u8 = h1 | MASK_BIT_MASK;
    assert(buf[1] == second);
    assert(second & MASK_BIT_MASK != 0) by (bit_vector)
        requires
            second == h1 | MASK_BIT_MASK,
    ;
    if len < 126 {
        let l = len as u8;
        assert(h[1] == l);
        assert(second & PAYLOAD_LEN_MASK == l) by (bit_vector)
            requires
                second == l | MASK_BIT_MASK,
                l < 126,
        ;
        assert(ext_len_bytes(second) == 0);
        assert(h.len() == 2);
    } else if len <= 65535 {
        assert(h[1] == 126u8);
        assert(second & PAYLOAD_LEN_MASK == 126) by (bit_vector)
            requires
                second == 126u8 | MASK_BIT_MASK,
        ;
        assert(ext_len_bytes(second) == 2);
        assert(h.len() == 4);
        assert(buf.subrange(2, 4) =~= crate::buffer::u16_be_bytes(len as u16));
        lemma_u16_be_roundtrip(len as u16);
    } else {
        assert(h[1] == 127u8);
        assert(second & PAYLOAD_LEN_MASK == 127) by (bit_vector)
            requires
                second == 127u8 | MASK_BIT_MASK,
        ;
        assert(ext_len_bytes(second) == 8);
        assert(h.len() == 10);
        assert(buf.subrange(2, 10) =~= crate::buffer::u64_be_bytes(len as u64));
        lemma_u64_be_roundtrip(len as u64);
    }
    let hl = h.len() + 4;
    assert(buf.subrange(h.len() as int, hl as int) =~= mask);
    assert(buf.subrange(hl as int, (hl + len) as int) =~= masked(payload, mask));
    law_mask_involution(payload, mask);
}

/// A fragmented text message (a text frame without FIN, then a final
/// continuation frame) comes out as one message holding both payloads,
/// and the assembler is idle again afterwards.
pub proof fn law_fragments_reassemble(
    max: usize,
    first_part: Seq<u8>,
    last_part: Seq<u8>,
)
    requires
        first_part.len() + last_part.len() <= max,
        valid_utf8(first_part + last_part),
    ensures
        ({
            let s1 = spec_push_frame(None, Seq::empty(), max, false, WebSocketMessageType::Text, first_part);
            let s2 = spec_push_frame(s1.current_type, s1.pending, max, true, WebSocketMessageType::Continuation, last_part);
            &&& s1.result == Ok::<Option<(WebSocketMessageType, Seq<u8>)>, ProtocolError>(None)
            &&& s2.result == Ok::<Option<(WebSocketMessageType, Seq<u8>)>, ProtocolError>(
                Some((WebSocketMessageType::Text, first_part + last_part)),
            )
            &&& s2.current_type is None
            &&& s2.pending.len() == 0
        }),
{
    assert(Seq::<u8>::empty() + first_part =~= first_part);
}

/// The parts laid end to end.
pub open spec fn concat_parts(parts: Seq<Seq<u8>>) -> Seq<u8>
    decreases parts.len(),
{
    if parts.len() == 0 {
        Seq::empty()
    } else {
        parts[0] + concat_parts(parts.drop_first())
    }
}

/// Continuation frames without FIN carrying `parts`, in order.
pub open spec fn continuation_frames(parts: Seq<Seq<u8>>) -> Seq<(bool, WebSocketMessageType, Seq<u8>)> {
    parts.map_values(|p: Seq<u8>| (false, WebSocketMessageType::Continuation, p))
}

/// Frames `(fin, opcode, payload)` pushed in order into an assembler that
/// starts with `current_type` and `pending`: the result of each push, and
/// the assembler's state afterwards.
pub open spec fn push_all(
    current_type: Option<WebSocketMessageType>,
    pending: Seq<u8>,
    max: usize,
    frames: Seq<(bool, WebSocketMessageType, Seq<u8>)>,
) -> (Seq<Result<Option<(WebSocketMessageType, Seq<u8>)>, ProtocolError>>, Option<WebSocketMessageType>, Seq<u8>)
    decreases frames.len(),
{
    if frames.len() == 0 {
        (Seq::empty(), current_type, pending)
    } else {
        let s = spec_push_frame(current_type, pending, max, frames[0].0, frames[0].1, frames[0].2);
        let rest = push_all(s.current_type, s.pending, max, frames.drop_first());
        (seq![s.result] + rest.0, rest.1, rest.2)
    }
}

/// No result yet, `n` times, then the whole message.
pub open spec fn pending_then(n: nat, last: Result<Option<(WebSocketMessageType, Seq<u8>)>, ProtocolError>) -> Seq<
    Result<Option<(WebSocketMessageType, Seq<u8>)>, ProtocolError>,
> {
    Seq::new(n, |i: int| Ok::<Option<(WebSocketMessageType, Seq<u8>)>, ProtocolError>(None)).push(last)
}

proof fn lemma_continuations_complete(
    t: WebSocketMessageType,
    pending: Seq<u8>,
    max: usize,
    middle: Seq<Seq<u8>>,
    last: Seq<u8>,
)
    requires
        pending.len() + concat_parts(middle).len() + last.len() <= max,
        t == WebSocketMessageType::Text ==> valid_utf8(pending + concat_parts(middle) + last),
    ensures
        ({
            let run = push_all(
                Some(t),
                pending,
                max,
                continuation_frames(middle) + seq![(true, WebSocketMessageType::Continuation, last)],
            );
            &&& run.0 == pending_then(
                middle.len(),
                Ok::<Option<(WebSocketMessageType, Seq<u8>)>, ProtocolError>(
                    Some((t, pending + concat_parts(middle) + last)),
                ),
            )
            &&& run.1 is None
            &&& run.2.len() == 0
        }),
    decreases middle.len(),
{
    let lf = (true, WebSocketMessageType::Continuation, last);
    let frames = continuation_frames(middle) + seq![lf];
    let whole = Ok::<Option<(WebSocketMessageType, Seq<u8>)>, ProtocolError>(
        Some((t, pending + concat_parts(middle) + last)),
    );
    if middle.len() == 0 {
        assert(frames =~= seq![lf]);
        assert(concat_parts(middle) =~= Seq::<u8>::empty());
        assert(pending + concat_parts(middle) + last =~= pending + last);
        assert(frames.drop_first() =~= Seq::<(bool, WebSocketMessageType, Seq<u8>)>::empty());
        let s = spec_push_frame(Some(t), pending, max, true, WebSocketMessageType::Continuation, last);
        assert(s.result == whole);
        assert(s.current_type is None);
        let run = push_all(Some(t), pending, max, frames);
        let tail = push_all(s.current_type, s.pending, max, frames.drop_first());
        assert(tail.0 =~= Seq::<Result<Option<(WebSocketMessageType, Seq<u8>)>, ProtocolError>>::empty());
        assert(run.0 == seq![s.result] + tail.0);
        assert(run.0 =~= pending_then(0, whole));
    } else {
        let rest = middle.drop_first();
        assert(frames[0] == (false, WebSocketMessageType::Continuation, middle[0]));
        assert(frames.drop_first() =~= continuation_frames(rest) + seq![lf]);
        assert(concat_parts(middle) == middle[0] + concat_parts(rest));
        let next = pending + middle[0];
        assert(next + concat_parts(rest) + last =~= pending + concat_parts(middle) + last);
        lemma_continuations_complete(t, next, max, rest, last);
        let run = push_all(Some(t), pending, max, frames);
        let inner = push_all(Some(t), next, max, continuation_frames(rest) + seq![lf]);
        assert(run.0 == seq![Ok::<Option<(WebSocketMessageType, Seq<u8>)>, ProtocolError>(None)] + inner.0);
        assert(run.0 =~= pending_then(middle.len(), whole));
    }
}

/// A message sent in any number of fragments (a text or binary frame
/// without FIN, continuation frames without FIN, then a continuation frame
/// with FIN) comes out as one message holding all the payloads in order,
/// at the last fragment and at no earlier one, and the assembler is idle
/// again afterwards.
pub proof fn law_fragments_reassemble_all(
    max: usize,
    t: WebSocketMessageType,
    first_part: Seq<u8>,
    middle_parts: Seq<Seq<u8>>,
    last_part: Seq<u8>,
)
    requires
        t == WebSocketMessageType::Text || t == WebSocketMessageType::Binary,
        first_part.len() + concat_parts(middle_parts).len() + last_part.len() <= max,
        t == WebSocketMessageType::Text ==> valid_utf8(first_part + concat_parts(middle_parts) + last_part),
    ensures
        ({
            let frames = seq![(false, t, first_part)] + continuation_frames(middle_parts) + seq![
                (true, WebSocketMessageType::Continuation, last_part),
            ];
            let run = push_all(None, Seq::empty(), max, frames);
            &&& run.0 == pending_then(
                middle_parts.len() + 1,
                Ok::<Option<(WebSocketMessageType, Seq<u8>)>, ProtocolError>(
                    Some((t, first_part + concat_parts(middle_parts) + last_part)),
                ),
            )
            &&& run.1 is None
            &&& run.2.len() == 0
        }),
{
    let lf = (true, WebSocketMessageType::Continuation, last_part);
    let frames = seq![(false, t, first_part)] + continuation_frames(middle_parts) + seq![lf];
    let whole = Ok::<Option<(WebSocketMessageType, Seq<u8>)>, ProtocolError>(
        Some((t, first_part + concat_parts(middle_parts) + last_part)),
    );
    assert(frames[0] == (false, t, first_part));
    assert(frames.drop_first() =~= continuation_frames(middle_parts) + seq![lf]);
    assert(Seq::<u8>::empty() + first_part =~= first_part);
    lemma_continuations_complete(t, first_part, max, middle_parts, last_part);
    let run = push_all(None, Seq::empty(), max, frames);
    let inner = push_all(Some(t), first_part, max, continuation_frames(middle_parts) + seq![lf]);
    assert(run.0 == seq![Ok::<Option<(WebSocketMessageType, Seq<u8>)>, ProtocolError>(None)] + inner.0);
    assert(run.0 =~= pending_then(middle_parts.len() + 1, whole));
}

/// Control frames (ping, pong, close) are delivered at once, even in the
/// middle of a fragmented message, and leave the reassembly untouched.
pub proof fn law_control_frames_pass_through(
    current_type: Option<WebSocketMessageType>,
    pending: Seq<u8>,
    max: usize,
    fin: bool,
    opcode: WebSocketMessageType,
    payload: Seq<u8>,
)
    requires
        opcode.spec_is_control(),
    ensures
        ({
            let s = spec_push_frame(current_type, pending, max, fin, opcode, payload);
            &&& s.current_type == current_type
            &&& s.pending == pending
            &&& s.result == Ok::<Option<(WebSocketMessageType, Seq<u8>)>, ProtocolError>(Some((opcode, payload)))
        }),
{
}

/// A continuation frame with no fragmented message in progress, and a new
/// data frame while one is in progress, are protocol errors that leave the
/// assembler as it was.
pub proof fn law_fragmentation_order_is_enforced(
    current_type: Option<WebSocketMessageType>,
    pending: Seq<u8>,
    max: usize,
    fin: bool,
    opcode: WebSocketMessageType,
    payload: Seq<u8>,
)
    ensures
        ({
            let s = spec_push_frame(current_type, pending, max, fin, opcode, payload);
            &&& (current_type is None && opcode == WebSocketMessageType::Continuation) ==> s.result
                == Err::<Option<(WebSocketMessageType, Seq<u8>)>, ProtocolError>(
                ProtocolError::UnexpectedContinuation,
            ) && s.current_type == current_type && s.pending == pending
            &&& (current_type matches Some(t) && (opcode == WebSocketMessageType::Text || opcode
                == WebSocketMessageType::Binary)) ==> s.result
                == Err::<Option<(WebSocketMessageType, Seq<u8>)>, ProtocolError>(
                ProtocolError::ExpectedContinuation(current_type->0),
            ) && s.current_type == current_type && s.pending == pending
        }),
{
}

/// Frames the server writes are final and unmasked (RFC 6455, section
/// 5.1), and their first byte names the message type.
pub proof fn law_server_frames_are_final_and_unmasked(kind: WebSocketMessageType, len: nat)
    ensures
        spec_head_frame(kind, len)[0] & FIN_BIT_MASK != 0,
        spec_head_frame(kind, len)[0] & OPCODE_MASK == kind.spec_opcode(),
        spec_head_frame(kind, len)[1] & MASK_BIT_MASK == 0,
{
    let h = spec_head_frame(kind, len);
    let op = kind.spec_opcode();
    let first: u8 = 0x80u8 | op;
    assert(op < 16);
    assert(first & FIN_BIT_MASK != 0 && first & OPCODE_MASK == op) by (bit_vector)
        requires
            first == 0x80u8 | op,
            op < 16,
    ;
    assert(h[0] == first);
    if len < 126 {
        let l = len as u8;
        assert(l < 126);
        assert(l & MASK_BIT_MASK == 0) by (bit_vector)
            requires
                l < 126,
        ;
    } else if len <= 65535 {
        assert(126u8 & MASK_BIT_MASK == 0) by (bit_vector);
    } else {
        assert(127u8 & MASK_BIT_MASK == 0) by (bit_vector);
    }
}

/// Reading one final, non-Close data or control frame from the start of
/// the stream ends with the whole unmasked payload collected and the
/// reader at the end of the message.
#[verifier::spinoff_prover]
#[verifier::rlimit(40)]
proof fn lemma_reader_reads_final_frame(
    kind: WebSocketMessageType,
    mask: Seq<u8>,
    payload: Seq<u8>,
    rest: Seq<u8>,
    last_kind: WebSocketMessageType,
)
    requires
        kind == WebSocketMessageType::Text || kind == WebSocketMessageType::Binary || kind
            == WebSocketMessageType::Ping || kind == WebSocketMessageType::Pong,
        mask.len() == 4,
        payload.len() <= usize::MAX,
    ensures
        spec_process(
            StreamSpec {
                buf: client_frame(kind, mask, payload) + rest,
                message: Seq::empty(),
                kind: last_kind,
                machine: WebSocketActorState::Head,
            },
        ) == spec_process(
            StreamSpec { buf: rest, message: payload, kind, machine: WebSocketActorState::Finished },
        ),
{
    let len = payload.len();
    let h = spec_head_frame(kind, len);
    let buf = client_frame(kind, mask, payload) + rest;
    let st0 = StreamSpec { buf, message: Seq::empty(), kind: last_kind, machine: WebSocketActorState::Head };
    let op = kind.spec_opcode();
    let first: u8 = 0x80u8 | op;
    assert(op < 16);
    assert(first & 0x0F == op && first & 0x80 == 0x80) by (bit_vector)
        requires
            first == 0x80u8 | op,
            op < 16,
    ;
    assert(spec_from_opcode(op) == Some(kind));
    assert(buf[0] == first);
    let h1: u8 = h[1];
    let second: u8 = h1 | MASK_BIT_MASK;
    assert(buf[1] == second);
    let hl = h.len() + 4;
    let m = [mask[0], mask[1], mask[2], mask[3]];
    assert(m@ =~= mask);
    let after = masked(payload, mask) + rest;
    assert(buf.skip(hl as int) =~= after);
    if len < 126 {
        let l = len as u8;
        assert(h1 == l);
        assert(second & 0x7f == l) by (bit_vector)
            requires
                second == l | MASK_BIT_MASK,
                l < 126,
        ;
        assert(h.len() == 2);
        assert(buf.skip(2).skip(4) =~= after);
        assert(buf.skip(2)[0] == mask[0] && buf.skip(2)[1] == mask[1] && buf.skip(2)[2] == mask[2]
            && buf.skip(2)[3] == mask[3]);
    } else if len <= 65535 {
        assert(second & 0x7f == 126) by (bit_vector)
            requires
                second == 126u8 | MASK_BIT_MASK,
        ;
        assert(h.len() == 4);
        assert(buf.skip(2).take(2) =~= crate::buffer::u16_be_bytes(len as u16));
        lemma_u16_be_roundtrip(len as u16);
        assert(buf.skip(2).skip(2).skip(4) =~= after);
        assert(buf.skip(2).skip(2)[0] == mask[0] && buf.skip(2).skip(2)[1] == mask[1]
            && buf.skip(2).skip(2)[2] == mask[2] && buf.skip(2).skip(2)[3] == mask[3]);
    } else {
        assert(second & 0x7f == 127) by (bit_vector)
            requires
                second == 127u8 | MASK_BIT_MASK,
        ;
        assert(h.len() == 10);
        assert(buf.skip(2).take(8) =~= crate::buffer::u64_be_bytes(len as u64));
        lemma_u64_be_roundtrip(len as u64);
        assert(buf.skip(2).skip(8).skip(4) =~= after);
        assert(buf.skip(2).skip(8)[0] == mask[0] && buf.skip(2).skip(8)[1] == mask[1]
            && buf.skip(2).skip(8)[2] == mask[2] && buf.skip(2).skip(8)[3] == mask[3]);
    }
    let st1 = StreamSpec {
        buf: after,
        message: Seq::empty(),
        kind,
        machine: WebSocketActorState::Body { len: len as usize, mask: m, msg_finished: true, readed: 0 },
    };
    assert(spec_parse_head(st0) == (true, st1));
    assert(spec_process(st0) == spec_process(st1));
    let st2 = StreamSpec { buf: rest, message: payload, kind, machine: WebSocketActorState::Finished };
    assert(after.take(len as int) =~= masked(payload, mask));
    assert(after.skip(len as int) =~= rest);
    law_mask_involution(payload, mask);
    assert(unmask_from(masked(payload, mask), mask, 0) =~= masked(masked(payload, mask), mask));
    assert(Seq::<u8>::empty() + unmask_from(after.take(len as int), m@, 0) =~= payload);
    assert(spec_parse_body(st1, 0, len as usize, m, true) == (true, st2));
    assert(spec_process(st1) == spec_process(st2));
}


/// The connection reader delivers what a client sends: a final text or
/// binary frame, read from the start of the stream, comes out as one
/// message holding the unmasked payload, and the reader is back at the
/// next header with the bytes that follow the frame.
pub proof fn law_reader_delivers_client_frames(
    kind: WebSocketMessageType,
    mask: Seq<u8>,
    payload: Seq<u8>,
    rest: Seq<u8>,
    last_kind: WebSocketMessageType,
)
    requires
        kind == WebSocketMessageType::Text || kind == WebSocketMessageType::Binary,
        mask.len() == 4,
        payload.len() <= usize::MAX,
    ensures
        spec_process(
            StreamSpec {
                buf: client_frame(kind, mask, payload) + rest,
                message: Seq::empty(),
                kind: last_kind,
                machine: WebSocketActorState::Head,
            },
        ) == (
            ProcessSpec::Incoming(payload),
            StreamSpec { buf: rest, message: Seq::empty(), kind, machine: WebSocketActorState::Head },
        ),
{
    lemma_reader_reads_final_frame(kind, mask, payload, rest, last_kind);
}

/// The connection reader answers a client's Ping: a final Ping frame,
/// read from the start of the stream, makes one round of processing send
/// the text message "pong" to the peer and consumes the whole frame.
pub proof fn law_reader_answers_client_pings(
    mask: Seq<u8>,
    payload: Seq<u8>,
    rest: Seq<u8>,
    last_kind: WebSocketMessageType,
)
    requires
        mask.len() == 4,
        payload.len() <= 125,
    ensures
        ({
            let (out, next) = spec_process(
                StreamSpec {
                    buf: client_frame(WebSocketMessageType::Ping, mask, payload) + rest,
                    message: Seq::empty(),
                    kind: last_kind,
                    machine: WebSocketActorState::Head,
                },
            );
            &&& out == ProcessSpec::Outgoing(seq![0x70u8, 0x6f, 0x6e, 0x67])
            &&& next.buf == rest
        }),
{
    lemma_reader_reads_final_frame(WebSocketMessageType::Ping, mask, payload, rest, last_kind);
}

} // verus!
