//! WebSocket messages as the application sends and receives them.
use crate::buffer::{
    alloc_limit, bytes_as_slice, bytes_copy_from_slice, bytes_len, bytes_mut_freeze,
    bytes_mut_new, bytes_mut_put_slice, bytes_mut_put_u16, bytes_mut_put_u64, bytes_mut_put_u8,
    bytes_mut_view, bytes_mut_with_capacity, bytes_view, u16_be_bytes, u64_be_bytes,
};
use crate::websocket::WebSocketMessageType;
use bytes::Bytes;
use std::str::Utf8Error;
use vstd::prelude::*;
use vstd::string::StringSliceAdditionalSpecFns;
use vstd::utf8::valid_utf8;

verus! {

/// The error `std::str::from_utf8` reports.
#[verifier::external_type_specification]
#[verifier::external_body]
pub struct ExUtf8Error(Utf8Error);

/// `std::str::from_utf8`: succeeds exactly on valid UTF-8, and then the
/// string's bytes are the input bytes.
#[verifier::external_body]
pub(crate) fn str_from_utf8(b: &[u8]) -> (res: Result<&str, Utf8Error>)
    ensures
        res is Ok <==> valid_utf8(b@),
        res matches Ok(s) ==> s.spec_bytes() == b@,
{
    std::str::from_utf8(b)
}

/// The header bytes that precede a server frame carrying `len` payload
/// bytes of type `kind`: FIN set, no mask, and the shortest of the three
/// length forms of RFC 6455 (section 5.2).
pub open spec fn spec_head_frame(kind: WebSocketMessageType, len: nat) -> Seq<u8> {
    let first = 0x80u8 | kind.spec_opcode();
    if len < 126 {
        seq![first, len as u8]
    } else if len <= 65535 {
        seq![first, 126u8] + u16_be_bytes(len as u16)
    } else {
        seq![first, 127u8] + u64_be_bytes(len as u64)
    }
}

/// A complete WebSocket message: its type and its payload.
#[derive(Debug, Clone, Eq, PartialEq)]
pub struct WebSocketDataPayLoad {
    pub kind: WebSocketMessageType,
    inner: Bytes,
}

impl WebSocketDataPayLoad {
    /// The message type.
    pub closed spec fn kind(&self) -> WebSocketMessageType {
        self.kind
    }

    /// The payload bytes.
    pub closed spec fn payload(&self) -> Seq<u8> {
        bytes_view(self.inner)
    }

    /// A text message carrying the UTF-8 bytes of `payload`.
    pub fn text(payload: &str) -> (res: Self)
        ensures
            res.kind() == WebSocketMessageType::Text,
            res.payload() == payload.spec_bytes(),
    {
        Self::_text(bytes_copy_from_slice(payload.as_bytes()))
    }

    pub(crate) fn _text(payload: Bytes) -> (res: Self)
        ensures
            res.kind() == WebSocketMessageType::Text,
            res.payload() == bytes_view(payload),
    {
        Self { inner: payload, kind: WebSocketMessageType::Text }
    }

    /// A ping carrying `payload`.
    pub fn ping(payload: Bytes) -> (res: Self)
        ensures
            res.kind() == WebSocketMessageType::Ping,
            res.payload() == bytes_view(payload),
    {
        Self { inner: payload, kind: WebSocketMessageType::Ping }
    }

    /// A pong carrying `payload`.
    pub fn pong(payload: Bytes) -> (res: Self)
        ensures
            res.kind() == WebSocketMessageType::Pong,
            res.payload() == bytes_view(payload),
    {
        Self { inner: payload, kind: WebSocketMessageType::Pong }
    }

    /// A close message carrying `payload`.
    pub fn close(payload: Bytes) -> (res: Self)
        ensures
            res.kind() == WebSocketMessageType::Close,
            res.payload() == bytes_view(payload),
    {
        Self { inner: payload, kind: WebSocketMessageType::Close }
    }

    /// A binary message carrying `payload`.
    pub fn binary(payload: Bytes) -> (res: Self)
        ensures
            res.kind() == WebSocketMessageType::Binary,
            res.payload() == bytes_view(payload),
    {
        Self { inner: payload, kind: WebSocketMessageType::Binary }
    }

    /// The payload bytes.
    pub fn as_bytes(&self) -> (res: &[u8])
        ensures
            res@ == self.payload(),
    {
        bytes_as_slice(&self.inner)
    }

    /// The payload as text, when it is valid UTF-8.
    pub fn as_str(&self) -> (res: Result<&str, Utf8Error>)
        ensures
            res is Ok <==> valid_utf8(self.payload()),
            res matches Ok(s) ==> s.spec_bytes() == self.payload(),
    {
        str_from_utf8(self.as_bytes())
    }

    /// The message type.
    pub fn message_type(&self) -> (res: WebSocketMessageType)
        ensures
            res == self.kind(),
    {
        self.kind
    }

    /// The frame header that precedes this message on the wire.
    pub fn generate_head_frame(&self) -> (res: Bytes)
        ensures
            bytes_view(res) == spec_head_frame(self.kind(), self.payload().len()),
    {
        let len = bytes_len(&self.inner);
        let mut buf = bytes_mut_new();
        let op = u8::from(self.kind);
        bytes_mut_put_u8(&mut buf, 0x80 | op);
        if len < 126 {
            bytes_mut_put_u8(&mut buf, len as u8);
        } else if len <= 65535 {
            bytes_mut_put_u8(&mut buf, 126);
            bytes_mut_put_u16(&mut buf, len as u16);
        } else {
            bytes_mut_put_u8(&mut buf, 127);
            bytes_mut_put_u64(&mut buf, len as u64);
        }
        assert(bytes_mut_view(buf) =~= spec_head_frame(self.kind(), self.payload().len()));
        bytes_mut_freeze(buf)
    }

    /// The whole server frame: header followed by the payload.
    pub fn into_frame_bytes(self) -> (res: Bytes)
        requires
            self.payload().len() + 10 <= alloc_limit(),
        ensures
            bytes_view(res) == spec_head_frame(self.kind(), self.payload().len()) + self.payload(),
    {
        let head = self.generate_head_frame();
        let head_len = bytes_len(&head);
        let body_len = bytes_len(&self.inner);
        let mut frame = bytes_mut_with_capacity(head_len + body_len);
        bytes_mut_put_slice(&mut frame, bytes_as_slice(&head));
        bytes_mut_put_slice(&mut frame, bytes_as_slice(&self.inner));
        bytes_mut_freeze(frame)
    }

    /// What goes on a byte stream for this message, header and payload in
    /// that order; a control message over 125 bytes is refused.
    pub fn socket_frame_parts(self) -> (res: Result<(Bytes, Bytes), String>)
        ensures
            self.kind().spec_is_control() && self.payload().len() > 125 <==> res is Err,
            res matches Err(e) ==> e@ == "control frame payload must be 125 bytes or less"@,
            res matches Ok((head, body)) ==> {
                &&& bytes_view(head) == spec_head_frame(self.kind(), self.payload().len())
                &&& bytes_view(body) == self.payload()
            },
    {
        if self.kind.is_control() && bytes_len(&self.inner) > 125 {
            return Err("control frame payload must be 125 bytes or less".to_string());
        }
        let head_frame = self.generate_head_frame();
        Ok((head_frame, self.inner))
    }
}

} // verus!
