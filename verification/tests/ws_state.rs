use bytes::Bytes;
use faithea::websocket::WebSocketMessageType;
use faithea::ws_state::{ParserInnserState, ProcessOutcome, WebSocketActorState};

#[test]
fn test_parse_head_basic_text_frame() {
    let mut state = ParserInnserState::new();
    state.put(Bytes::from_static(&[0x81, 0x85, 0x01, 0x02, 0x03, 0x04]));
    assert!(state.parse_head());
    assert_eq!(state.current_message_type(), WebSocketMessageType::Text);
    assert_eq!(
        state.machine_state(),
        WebSocketActorState::Body { len: 5, mask: [0x01, 0x02, 0x03, 0x04], msg_finished: true, readed: 0 }
    );
}

#[test]
fn test_parse_head_connection_close() {
    let mut state = ParserInnserState::new();
    state.put(Bytes::from_static(&[0x88, 0x00]));
    assert!(state.parse_head());
    assert_eq!(state.current_message_type(), WebSocketMessageType::Close);
    assert_eq!(state.machine_state(), WebSocketActorState::ConnectionClose);
}

#[test]
fn test_parse_head_insufficient_data() {
    let mut state = ParserInnserState::new();
    state.put(Bytes::from_static(&[0x81]));
    assert!(!state.parse_head());
    assert_eq!(state.machine_state(), WebSocketActorState::Head);
}

#[test]
fn test_parse_head_extended_length_126() {
    let mut state = ParserInnserState::new();
    state.put(Bytes::from_static(&[0x81, 0x7E, 0x01, 0x00, 0x01, 0x02, 0x03, 0x04]));
    assert!(state.parse_head());
    assert_eq!(
        state.machine_state(),
        WebSocketActorState::Body { len: 256, mask: [0x01, 0x02, 0x03, 0x04], msg_finished: true, readed: 0 }
    );
}

#[test]
fn test_parse_head_extended_length_127() {
    let mut state = ParserInnserState::new();
    state.put(Bytes::from_static(&[0x81, 0x7F, 0, 0, 0, 0, 0, 0, 0x01, 0x00, 0x01, 0x02, 0x03, 0x04]));
    assert!(state.parse_head());
    assert_eq!(
        state.machine_state(),
        WebSocketActorState::Body { len: 256, mask: [0x01, 0x02, 0x03, 0x04], msg_finished: true, readed: 0 }
    );
}

#[test]
fn test_parse_head_insufficient_mask() {
    let mut state = ParserInnserState::new();
    state.put(Bytes::from_static(&[0x81, 0x85]));
    assert!(!state.parse_head());
}

#[test]
fn test_parse_body_complete() {
    let mut state = ParserInnserState::new();
    state.put(Bytes::from_static(&[105, 103, 111, 104, 110]));
    let mask = [0x01, 0x02, 0x03, 0x04];
    assert!(state.parse_body(0, 5, mask, true));
    assert_eq!(state.machine_state(), WebSocketActorState::Finished);
    assert_eq!(state.message(), b"hello");
}

#[test]
fn test_parse_body_partial() {
    let mut state = ParserInnserState::new();
    state.put(Bytes::from_static(&[105, 103]));
    let mask = [0x01, 0x02, 0x03, 0x04];
    assert!(!state.parse_body(0, 5, mask, true));
    assert_eq!(state.machine_state(), WebSocketActorState::Body { readed: 2, len: 5, mask, msg_finished: true });
    assert_eq!(state.message(), b"he");
}

#[test]
fn test_parse_body_with_existing_message() {
    let mut state = ParserInnserState::new();
    let mask = [0x01, 0x02, 0x03, 0x04];
    state.put(Bytes::from_static(&[105, 103, 111]));
    assert!(!state.parse_body(0, 5, mask, true));
    assert_eq!(state.message(), b"hel");
    state.put(Bytes::from_static(&[104]));
    assert!(!state.parse_body(3, 5, mask, true));
    assert_eq!(state.machine_state(), WebSocketActorState::Body { readed: 4, len: 5, mask, msg_finished: true });
    assert_eq!(state.message(), b"hell");
}

#[test]
fn test_parse_body_continuation_frame() {
    let mut state = ParserInnserState::new();
    state.put(Bytes::from_static(&[0x80, 0x85, 0x01, 0x02, 0x03, 0x04]));
    assert!(state.parse_head());
    assert_eq!(state.current_message_type(), WebSocketMessageType::Continuation);
    state.put(Bytes::from_static(&[105, 103, 111, 104, 110]));
    let mask = [0x01, 0x02, 0x03, 0x04];
    assert!(state.parse_body(0, 5, mask, true));
    assert_eq!(state.machine_state(), WebSocketActorState::Head);
    assert_eq!(state.message(), b"hello");
}

#[test]
fn test_parse_body_empty_payload() {
    let mut state = ParserInnserState::new();
    let mask = [0x01, 0x02, 0x03, 0x04];
    assert!(state.parse_body(0, 0, mask, true));
    assert_eq!(state.machine_state(), WebSocketActorState::Finished);
    assert_eq!(state.message().len(), 0);
}

#[test]
fn processing_a_whole_text_frame_delivers_it() {
    let mut state = ParserInnserState::new();
    state.put(Bytes::from_static(&[0x81, 0x85, 0x01, 0x02, 0x03, 0x04, 105, 103, 111, 104, 110]));
    match state.process() {
        ProcessOutcome::Incoming(m) => {
            assert_eq!(m.kind, WebSocketMessageType::Text);
            assert_eq!(m.as_bytes(), b"hello");
        }
        other => panic!("unexpected {:?}", other),
    }
    assert_eq!(state.machine_state(), WebSocketActorState::Head);
    assert_eq!(state.message().len(), 0);
}

#[test]
fn processing_waits_for_the_rest_of_a_frame() {
    let mut state = ParserInnserState::new();
    state.put(Bytes::from_static(&[0x81, 0x85, 0x01, 0x02, 0x03, 0x04, 105, 103]));
    assert!(matches!(state.process(), ProcessOutcome::Idle));
    state.put(Bytes::from_static(&[111, 104, 110]));
    match state.process() {
        ProcessOutcome::Incoming(m) => assert_eq!(m.as_bytes(), b"hello"),
        other => panic!("unexpected {:?}", other),
    }
}

#[test]
fn close_header_ends_the_connection_and_bad_opcode_stops() {
    let mut state = ParserInnserState::new();
    state.put(Bytes::from_static(&[0x88, 0x80, 1, 2, 3, 4]));
    match state.process() {
        ProcessOutcome::CloseConnection(m) => {
            assert_eq!(m.kind, WebSocketMessageType::Close);
            assert_eq!(m.as_bytes(), b"close");
        }
        other => panic!("unexpected {:?}", other),
    }
    let mut bad = ParserInnserState::new();
    bad.put(Bytes::from_static(&[0x83, 0x80]));
    assert!(matches!(bad.process(), ProcessOutcome::InvalidOpcode(0x83)));
}
