use bytes::{BufMut, Bytes, BytesMut};
use faithea::websocket::data::WebSocketDataPayLoad;
use faithea::websocket::{
    after_drain, after_read, plan_reply, DriverAction, Frame, FrameCodec, MessageAssembler, ProtocolError, WebSocketMessageType,
    MASK_BIT_MASK,
};

fn masked_frame(opcode: WebSocketMessageType, fin: bool, payload: &[u8]) -> Bytes {
    let mask = [1u8, 2, 3, 4];
    let mut buf = BytesMut::new();
    let first = if fin { 0x80 } else { 0 } | u8::from(opcode);
    buf.put_u8(first);
    if payload.len() < 126 {
        buf.put_u8(MASK_BIT_MASK | payload.len() as u8);
    } else if payload.len() <= u16::MAX as usize {
        buf.put_u8(MASK_BIT_MASK | 126);
        buf.put_u16(payload.len() as u16);
    } else {
        buf.put_u8(MASK_BIT_MASK | 127);
        buf.put_u64(payload.len() as u64);
    }
    buf.put_slice(&mask);
    for (index, byte) in payload.iter().enumerate() {
        buf.put_u8(byte ^ mask[index % 4]);
    }
    buf.freeze()
}

#[test]
fn frame_header_short_length_waits_for_payload() {
    let mut codec = FrameCodec::new();
    codec
        .buffer_mut()
        .put_slice(&masked_frame(WebSocketMessageType::Text, true, b"hi")[..5]);

    assert_eq!(codec.next_frame().unwrap(), None);
    assert_eq!(codec.buffer_mut().len(), 5);

    codec
        .buffer_mut()
        .put_slice(&masked_frame(WebSocketMessageType::Text, true, b"hi")[5..]);
    let frame = codec.next_frame().unwrap().unwrap();
    assert_eq!(frame.opcode, WebSocketMessageType::Text);
    assert_eq!(frame.payload, &b"hi"[..]);
}

#[test]
fn frame_header_extended_126() {
    let payload = vec![b'a'; 256];
    let mut codec = FrameCodec::new();
    codec
        .buffer_mut()
        .put_slice(&masked_frame(WebSocketMessageType::Binary, true, &payload));

    let frame = codec.next_frame().unwrap().unwrap();
    assert_eq!(frame.opcode, WebSocketMessageType::Binary);
    assert_eq!(frame.payload, payload);
}

#[test]
fn frame_header_extended_127() {
    let payload = vec![b'b'; 66_000];
    let mut codec = FrameCodec::new();
    codec
        .buffer_mut()
        .put_slice(&masked_frame(WebSocketMessageType::Binary, true, &payload));

    let frame = codec.next_frame().unwrap().unwrap();
    assert_eq!(frame.payload.len(), payload.len());
    assert_eq!(frame.payload, payload);
}

#[test]
fn unmasked_client_frame_is_protocol_error() {
    let mut codec = FrameCodec::new();
    codec.buffer_mut().put_slice(&[0x81, 0x02, b'h', b'i']);

    assert_eq!(codec.next_frame().unwrap_err(), ProtocolError::UnmaskedFrameFromClient);
}

#[test]
fn rsv_bits_are_protocol_error() {
    let mut codec = FrameCodec::new();
    codec.buffer_mut().put_slice(&[0xC1, 0x80, 1, 2, 3, 4]);

    assert_eq!(codec.next_frame().unwrap_err(), ProtocolError::NonZeroReservedBits);
}

#[test]
fn reserved_opcode_is_protocol_error() {
    let mut codec = FrameCodec::new();
    codec.buffer_mut().put_slice(&[0x83, 0x80, 1, 2, 3, 4]);

    assert_eq!(codec.next_frame().unwrap_err(), ProtocolError::InvalidOpcode(3));
}

#[test]
fn control_frame_cannot_be_fragmented() {
    let mut codec = FrameCodec::new();
    codec
        .buffer_mut()
        .put_slice(&masked_frame(WebSocketMessageType::Ping, false, b"hi"));

    assert_eq!(codec.next_frame().unwrap_err(), ProtocolError::FragmentedControlFrame);
}

#[test]
fn control_frame_cannot_exceed_125_bytes() {
    let payload = vec![0; 126];
    let mut codec = FrameCodec::new();
    codec
        .buffer_mut()
        .put_slice(&masked_frame(WebSocketMessageType::Ping, true, &payload));

    assert_eq!(codec.next_frame().unwrap_err(), ProtocolError::ControlFrameTooBig);
}

#[test]
fn fragmented_text_is_reassembled() {
    let mut assembler = MessageAssembler::new();
    assert_eq!(
        assembler
            .push_frame(Frame {
                fin: false,
                opcode: WebSocketMessageType::Text,
                payload: Bytes::from_static(b"hel"),
            })
            .unwrap(),
        None
    );
    let message = assembler
        .push_frame(Frame {
            fin: true,
            opcode: WebSocketMessageType::Continuation,
            payload: Bytes::from_static(b"lo"),
        })
        .unwrap()
        .unwrap();

    assert_eq!(message.kind, WebSocketMessageType::Text);
    assert_eq!(message.as_str().unwrap(), "hello");
}

#[test]
fn unexpected_continuation_is_protocol_error() {
    let mut assembler = MessageAssembler::new();
    assert_eq!(
        assembler
            .push_frame(Frame {
                fin: true,
                opcode: WebSocketMessageType::Continuation,
                payload: Bytes::new(),
            })
            .unwrap_err(),
        ProtocolError::UnexpectedContinuation
    );
}

#[test]
fn two_frames_in_one_buffer_come_out_in_order() {
    let mut codec = FrameCodec::new();
    codec.buffer_mut().put_slice(&masked_frame(WebSocketMessageType::Text, true, b"one"));
    codec.buffer_mut().put_slice(&masked_frame(WebSocketMessageType::Binary, true, b"two"));
    let a = codec.next_frame().unwrap().unwrap();
    let b = codec.next_frame().unwrap().unwrap();
    assert_eq!(a.payload, &b"one"[..]);
    assert_eq!(b.opcode, WebSocketMessageType::Binary);
    assert_eq!(b.payload, &b"two"[..]);
    assert_eq!(codec.next_frame().unwrap(), None);
}

#[test]
fn control_frame_in_the_middle_of_a_fragmented_message() {
    let mut assembler = MessageAssembler::new();
    assert_eq!(
        assembler
            .push_frame(Frame { fin: false, opcode: WebSocketMessageType::Binary, payload: Bytes::from_static(b"ab") })
            .unwrap(),
        None
    );
    let ping = assembler
        .push_frame(Frame { fin: true, opcode: WebSocketMessageType::Ping, payload: Bytes::from_static(b"p") })
        .unwrap()
        .unwrap();
    assert_eq!(ping.kind, WebSocketMessageType::Ping);
    assert_eq!(
        assembler
            .push_frame(Frame { fin: true, opcode: WebSocketMessageType::Text, payload: Bytes::from_static(b"x") })
            .unwrap_err(),
        ProtocolError::ExpectedContinuation(WebSocketMessageType::Binary)
    );
    let whole = assembler
        .push_frame(Frame { fin: true, opcode: WebSocketMessageType::Continuation, payload: Bytes::from_static(b"cd") })
        .unwrap()
        .unwrap();
    assert_eq!(whole.kind, WebSocketMessageType::Binary);
    assert_eq!(whole.as_bytes(), b"abcd");
}

#[test]
fn invalid_utf8_text_is_refused() {
    let mut assembler = MessageAssembler::new();
    assert_eq!(
        assembler
            .push_frame(Frame { fin: true, opcode: WebSocketMessageType::Text, payload: Bytes::from_static(&[0xff]) })
            .unwrap_err(),
        ProtocolError::InvalidUtf8
    );
}

#[test]
fn opcodes_map_both_ways() {
    for (code, kind) in [
        (0u8, WebSocketMessageType::Continuation),
        (1, WebSocketMessageType::Text),
        (2, WebSocketMessageType::Binary),
        (8, WebSocketMessageType::Close),
        (9, WebSocketMessageType::Ping),
        (10, WebSocketMessageType::Pong),
    ] {
        assert_eq!(WebSocketMessageType::from_opcode(code).unwrap(), kind);
        assert_eq!(u8::from(kind), code);
        assert_eq!(kind.is_control(), code >= 8);
    }
    assert_eq!(WebSocketMessageType::from_opcode(7).unwrap_err(), ProtocolError::InvalidOpcode(7));
}

#[test]
fn server_frames_use_the_shortest_length_form() {
    let small = WebSocketDataPayLoad::binary(Bytes::from(vec![7u8; 5])).into_frame_bytes();
    assert_eq!(&small[..2], &[0x82, 5]);
    assert_eq!(small.len(), 7);
    let mid = WebSocketDataPayLoad::binary(Bytes::from(vec![7u8; 300])).into_frame_bytes();
    assert_eq!(&mid[..4], &[0x82, 126, 1, 44]);
    let big = WebSocketDataPayLoad::binary(Bytes::from(vec![7u8; 70000])).into_frame_bytes();
    assert_eq!(&big[..10], &[0x82, 127, 0, 0, 0, 0, 0, 1, 0x11, 0x70]);
    assert_eq!(big.len(), 70010);
    let text = WebSocketDataPayLoad::text("hi").into_frame_bytes();
    assert_eq!(&text[..], &[0x81, 2, b'h', b'i']);
}

#[test]
fn oversized_control_message_cannot_be_sent() {
    let ping = WebSocketDataPayLoad::ping(Bytes::from(vec![0u8; 126]));
    assert_eq!(
        ping.socket_frame_parts().unwrap_err(),
        "control frame payload must be 125 bytes or less"
    );
    let pong = WebSocketDataPayLoad::pong(Bytes::from(vec![0u8; 125]));
    let (head, body) = pong.socket_frame_parts().unwrap();
    assert_eq!(&head[..], &[0x8A, 125]);
    assert_eq!(body.len(), 125);
}

#[test]
fn pings_are_answered_and_closes_echoed() {
    let ping = WebSocketDataPayLoad::ping(Bytes::from_static(b"abc"));
    let (reply, action) = plan_reply(&ping);
    let reply = reply.unwrap();
    assert_eq!(reply.kind, WebSocketMessageType::Pong);
    assert_eq!(reply.as_bytes(), b"abc");
    assert_eq!(action, DriverAction::Continue);

    let close = WebSocketDataPayLoad::close(Bytes::from_static(&[3, 232]));
    let (reply, action) = plan_reply(&close);
    assert_eq!(reply.unwrap().as_bytes(), &[3, 232]);
    assert_eq!(action, DriverAction::Close);

    let text = WebSocketDataPayLoad::text("x");
    let (reply, action) = plan_reply(&text);
    assert!(reply.is_none());
    assert_eq!(action, DriverAction::Continue);
}

#[test]
fn binary_message_in_many_fragments_is_reassembled() {
    let mut assembler = MessageAssembler::new();
    let first = Frame { fin: false, opcode: WebSocketMessageType::Binary, payload: Bytes::from_static(&[1, 2]) };
    assert_eq!(assembler.push_frame(first).unwrap(), None);
    for part in [&[3u8][..], &[][..], &[4, 5, 6][..]] {
        let middle = Frame {
            fin: false,
            opcode: WebSocketMessageType::Continuation,
            payload: Bytes::copy_from_slice(part),
        };
        assert_eq!(assembler.push_frame(middle).unwrap(), None);
    }
    let last = Frame { fin: true, opcode: WebSocketMessageType::Continuation, payload: Bytes::from_static(&[7]) };
    let message = assembler.push_frame(last).unwrap().unwrap();
    assert_eq!(message.kind, WebSocketMessageType::Binary);
    assert_eq!(message.as_bytes(), &[1, 2, 3, 4, 5, 6, 7]);
    let next = Frame { fin: true, opcode: WebSocketMessageType::Text, payload: Bytes::from_static(b"ok") };
    let message = assembler.push_frame(next).unwrap().unwrap();
    assert_eq!(message.as_str().unwrap(), "ok");
}

#[test]
fn the_read_loop_stops_on_close_and_on_errors() {
    let (message, stop) = after_drain(&Ok(DriverAction::Continue));
    assert!(message.is_none() && !stop);
    let (message, stop) = after_drain(&Ok(DriverAction::Close));
    assert!(message.is_none() && stop);
    let (message, stop) = after_drain(&Err(ProtocolError::InvalidUtf8));
    let message = message.unwrap();
    assert_eq!(message.kind, WebSocketMessageType::Close);
    assert!(message.as_bytes().is_empty());
    assert!(stop);

    let (message, stop) = after_read(Some(0));
    assert!(message.is_none() && stop);
    let (message, stop) = after_read(Some(12));
    assert!(message.is_none() && !stop);
    let (message, stop) = after_read(None);
    assert_eq!(message.unwrap().kind, WebSocketMessageType::Close);
    assert!(stop);
}
