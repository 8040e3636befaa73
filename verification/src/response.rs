//! Responses: their status, headers and body, and the modifiers that
//! handlers return to shape them (CORS, redirects, server-sent events,
//! cookies), with the WebSocket handshake answer.
use crate::buffer::{bytes_copy_from_slice, bytes_len, bytes_view};
use crate::error::{Error, ModifierError};
use crate::convert::{decimal, decimal_string};
use crate::request::{ascii_lower, insert_header, lookup, pairs_view, valid_header_value, visible_ascii, HttpRequest};
use crate::text::{chars_of, string_from_chars};
use crate::websocket::data::WebSocketDataPayLoad;
use base64::Engine;
use bytes::Bytes;
use sha1::Digest;
use tokio::fs::File;
use tokio::sync::mpsc::Receiver;
use vstd::prelude::*;

verus! {

/// A file opened for reading by the async runtime.
#[verifier::external_type_specification]
#[verifier::external_body]
pub struct ExFile(File);

/// The receiving end of an async channel.
#[verifier::external_type_specification]
#[verifier::external_body]
#[verifier::reject_recursive_types(T)]
pub struct ExReceiver<T>(Receiver<T>);

/// The body of a response.
#[derive(Debug)]
pub enum ResponseBody {
    /// In-memory bytes, for small responses.
    Simple(Bytes),
    /// A file, streamed out.
    File(File),
    /// No body.
    Empty,
    /// WebSocket messages, framed as they arrive.
    WsBody(Receiver<WebSocketDataPayLoad>),
    /// Chunks of bytes, sent as they arrive.
    Stream(Receiver<Bytes>),
}

impl Default for ResponseBody {
    fn default() -> (res: Self)
        ensures
            res is Empty,
    {
        ResponseBody::Empty
    }
}

/// A response: status code, headers (names in lower case) and body.
#[derive(Debug)]
pub struct HttpResponse {
    pub status: u16,
    pub headers: Vec<(String, String)>,
    pub body: ResponseBody,
}

/// The RFC 6455 GUID appended to a client's key.
pub open spec fn ws_guid() -> Seq<char> {
    "258EAFA5-E914-47DA-95CA-C5AB0DC85B11"@
}

/// The SHA-1 digest of `data`, as `sha1::Sha1` computes it.
pub uninterp spec fn sha1_digest(data: Seq<u8>) -> Seq<u8>;

/// `sha1::Sha1`: the digest of `data`, twenty bytes.
#[verifier::external_body]
fn sha1_of(data: &[u8]) -> (res: Vec<u8>)
    ensures
        res@ == sha1_digest(data@),
        res@.len() == 20,
{
    let mut hasher = sha1::Sha1::new();
    hasher.update(data);
    hasher.finalize().to_vec()
}

/// The character of the standard base64 alphabet for `i` (below 64).
pub open spec fn b64_char(i: int) -> char {
    if i < 26 {
        ('A' as int + i) as char
    } else if i < 52 {
        ('a' as int + (i - 26)) as char
    } else if i < 62 {
        ('0' as int + (i - 52)) as char
    } else if i == 62 {
        '+'
    } else {
        '/'
    }
}

/// Standard base64 with padding (RFC 4648, section 4): each three bytes
/// become four characters, and a last group of one or two bytes is padded
/// with `=`.
pub open spec fn base64_std(b: Seq<u8>) -> Seq<char>
    decreases b.len(),
{
    if b.len() == 0 {
        Seq::empty()
    } else if b.len() == 1 {
        seq![b64_char((b[0] / 4) as int), b64_char((b[0] % 4) * 16), '=', '=']
    } else if b.len() == 2 {
        seq![b64_char((b[0] / 4) as int), b64_char((b[0] % 4) * 16 + b[1] / 16), b64_char((b[1] % 16) * 4), '=']
    } else {
        seq![
            b64_char((b[0] / 4) as int),
            b64_char((b[0] % 4) * 16 + b[1] / 16),
            b64_char((b[1] % 16) * 4 + b[2] / 64),
            b64_char((b[2] % 64) as int),
        ] + base64_std(b.skip(3))
    }
}

/// `base64::prelude::BASE64_STANDARD.encode`: standard base64 with padding.
#[verifier::external_body]
fn base64_encode(data: &[u8]) -> (res: String)
    ensures
        res@ == base64_std(data@),
{
    base64::prelude::BASE64_STANDARD.encode(data)
}

/// The `Sec-WebSocket-Accept` value that answers a client's key.
pub open spec fn spec_accept_key(key: Seq<char>) -> Seq<char> {
    base64_std(sha1_digest(vstd::utf8::encode_utf8(key + ws_guid())))
}

/// A string holding the text `s`.
fn owned(s: &str) -> (res: String)
    ensures
        res@ == s@,
{
    s.to_string()
}

impl HttpResponse {
    /// The text of the headers.
    pub open spec fn header_view(&self) -> Seq<(Seq<char>, Seq<char>)> {
        pairs_view(self.headers@)
    }

    /// An empty `200` response.
    pub fn new() -> (res: Self)
        ensures
            res.status == 200,
            res.header_view().len() == 0,
            res.body is Empty,
    {
        let res = HttpResponse { status: 200, headers: Vec::new(), body: ResponseBody::Empty };
        assert(res.header_view() =~= Seq::<(Seq<char>, Seq<char>)>::empty());
        res
    }

    /// Replaces the body.
    pub fn set_body(&mut self, body: ResponseBody)
        ensures
            final(self).status == old(self).status,
            final(self).headers == old(self).headers,
            final(self).body == body,
    {
        self.body = body;
    }

    /// Sets the header `name` (in lower case) to `value`, replacing any
    /// value it had.
    pub fn add_header(&mut self, name: String, value: String)
        ensures
            final(self).status == old(self).status,
            final(self).body == old(self).body,
            final(self).header_view() == insert_header(old(self).header_view(), name@, value@),
    {
        let ghost before = self.header_view();
        let ghost nv = name@;
        let ghost vv = value@;
        match crate::request::find_header(&self.headers, &name) {
            Some(i) => {
                proof {
                    crate::request::lemma_first_named_unique(before, nv, i as int);
                }
                self.headers.set(i, (name, value));
                assert(self.header_view() =~= before.update(i as int, (nv, vv)));
            },
            None => {
                self.headers.push((name, value));
                assert(self.header_view() =~= before.push((nv, vv)));
            },
        }
    }

    /// The `Sec-WebSocket-Accept` value for a client's `Sec-WebSocket-Key`
    /// (RFC 6455, section 4.2.2): the base64 of the SHA-1 digest of the key
    /// followed by the protocol's GUID.
    pub fn cal_sec_websocket_accept(key: &str) -> (res: String)
        ensures
            res@ == spec_accept_key(key@),
    {
        let chars = chars_of(key);
        let guid = chars_of("258EAFA5-E914-47DA-95CA-C5AB0DC85B11");
        let mut all = chars;
        let mut g = guid;
        all.append(&mut g);
        let text = string_from_chars(all.as_slice());
        let digest = sha1_of(text.as_str().as_bytes());
        base64_encode(digest.as_slice())
    }

    /// The `101 Switching Protocols` answer to a WebSocket upgrade request:
    /// it echoes the `Upgrade` header and carries the accept key.
    pub fn websocket_response(req: &HttpRequest) -> (res: Self)
        requires
            lookup(req.head@.headers, "upgrade"@) is Some,
            lookup(req.head@.headers, "sec-websocket-key"@) matches Some(k) && visible_ascii(k),
        ensures
            res.status == 101,
            res.header_view() == seq![
                ("upgrade"@, lookup(req.head@.headers, "upgrade"@)->0),
                ("connection"@, "Upgrade"@),
                ("sec-websocket-accept"@, spec_accept_key(lookup(req.head@.headers, "sec-websocket-key"@)->0)),
            ],
            lookup(res.header_view(), "upgrade"@) == lookup(req.head@.headers, "upgrade"@),
            lookup(res.header_view(), "connection"@) == Some("Upgrade"@),
            lookup(res.header_view(), "sec-websocket-accept"@) == Some(
                spec_accept_key(lookup(req.head@.headers, "sec-websocket-key"@)->0),
            ),
            res.body is Empty,
    {
        proof {
            reveal_strlit("upgrade");
            reveal_strlit("sec-websocket-key");
            assert(ascii_lower("upgrade"@) =~= "upgrade"@);
            assert(ascii_lower("sec-websocket-key"@) =~= "sec-websocket-key"@);
        }
        let mut res = Self::new();
        res.status = 101;
        let upgrade = match req.get_header("upgrade") {
            Some(u) => u.clone(),
            None => String::new(),
        };
        let key = match req.get_header("sec-websocket-key") {
            Some(k) => k.clone(),
            None => String::new(),
        };
        let accept = Self::cal_sec_websocket_accept(key.as_str());
        let ghost h0 = res.header_view();
        res.add_header(owned("upgrade"), upgrade);
        let ghost h1 = res.header_view();
        res.add_header(owned("connection"), owned("Upgrade"));
        let ghost h2 = res.header_view();
        res.add_header(owned("sec-websocket-accept"), accept);
        proof {
            reveal_strlit("connection");
            reveal_strlit("sec-websocket-accept");
            assert("upgrade"@.len() == 7);
            assert("connection"@.len() == 10);
            assert("sec-websocket-accept"@.len() == 20);
            assert(h0.len() == 0);
            assert(h1 =~= seq![("upgrade"@, upgrade@)]);
            assert(h2 =~= seq![("upgrade"@, upgrade@), ("connection"@, "Upgrade"@)]);
            let h3 = res.header_view();
            assert(h3 =~= seq![("upgrade"@, upgrade@), ("connection"@, "Upgrade"@), ("sec-websocket-accept"@, accept@)]);
            assert(crate::request::is_first_named(h3, "upgrade"@, 0));
            assert(crate::request::is_first_named(h3, "connection"@, 1));
            assert(crate::request::is_first_named(h3, "sec-websocket-accept"@, 2));
            crate::request::lemma_lookup_at(h3, "upgrade"@, 0);
            crate::request::lemma_lookup_at(h3, "connection"@, 1);
            crate::request::lemma_lookup_at(h3, "sec-websocket-accept"@, 2);
        }
        res
    }

    /// A `404` response with the body `not found`.
    pub fn not_found() -> (res: Self)
        ensures
            res.status == 404,
            res.header_view() == seq![("content-length"@, "9"@)],
            res.body matches ResponseBody::Simple(b) && bytes_view(b) == vstd::utf8::encode_utf8(
                "not found"@,
            ),
    {
        let mut r = Self::new();
        r.status = 404;
        r.add_header(owned("content-length"), owned("9"));
        let body = bytes_copy_from_slice("not found".as_bytes());
        r.set_body(ResponseBody::Simple(body));
        proof {
            reveal_strlit("not found");
            assert(r.header_view() =~= seq![("content-length"@, "9"@)]);
        }
        r
    }

    /// A `500` response whose body is `err_message`, with its length.
    pub fn error(err_message: String) -> (res: Self)
        ensures
            res.status == 500,
            res.header_view() == seq![
                ("content-length"@, decimal(vstd::utf8::encode_utf8(err_message@).len())),
            ],
            res.body matches ResponseBody::Simple(b) && bytes_view(b) == vstd::utf8::encode_utf8(
                err_message@,
            ),
    {
        let mut r = Self::new();
        r.status = 500;
        let body = bytes_copy_from_slice(err_message.as_str().as_bytes());
        let len = bytes_len(&body);
        r.add_header(owned("content-length"), decimal_string(len));
        r.set_body(ResponseBody::Simple(body));
        proof {
            assert(r.header_view() =~= seq![("content-length"@, decimal(len as nat))]);
        }
        r
    }
}

/// Something a handler returns that shapes the response.
pub trait HttpResponseModifier {
    fn modify(&mut self, res: &mut HttpResponse) -> Result<(), Error>;
}

impl HttpResponseModifier for Error {
    /// Answers with the error's text as a plain-text body.
    fn modify(&mut self, res: &mut HttpResponse) -> (r: Result<(), Error>)
        ensures
            r is Ok,
            final(res).status == old(res).status,
            final(res).body matches ResponseBody::Simple(b) && {
                &&& final(res).header_view() == insert_header(
                    insert_header(old(res).header_view(), "content-type"@, "text/plain"@),
                    "content-length"@,
                    decimal(bytes_view(b).len()),
                )
                &&& crate::error::error_text(*old(self)) matches Some(t) ==> bytes_view(b) == vstd::utf8::encode_utf8(t)
            },
    {
        res.add_header(owned("content-type"), owned("text/plain"));
        let text = self.message();
        let body = bytes_copy_from_slice(text.as_str().as_bytes());
        let len = bytes_len(&body);
        res.add_header(owned("content-length"), decimal_string(len));
        res.set_body(ResponseBody::Simple(body));
        Ok(())
    }
}

/// Allows any origin, header and the usual methods, with credentials.
pub struct CORS;

impl HttpResponseModifier for CORS {
    fn modify(&mut self, res: &mut HttpResponse) -> (r: Result<(), Error>)
        ensures
            r is Ok,
            final(res).status == old(res).status,
            final(res).body == old(res).body,
            final(res).header_view() == insert_header(
                insert_header(
                    insert_header(
                        insert_header(old(res).header_view(), "access-control-allow-origin"@, "*"@),
                        "access-control-allow-headers"@,
                        "*"@,
                    ),
                    "access-control-allow-methods"@,
                    "GET, POST, PUT, DELETE"@,
                ),
                "access-control-allow-credentials"@,
                "true"@,
            ),
    {
        res.add_header(owned("access-control-allow-origin"), owned("*"));
        res.add_header(owned("access-control-allow-headers"), owned("*"));
        res.add_header(owned("access-control-allow-methods"), owned("GET, POST, PUT, DELETE"));
        res.add_header(owned("access-control-allow-credentials"), owned("true"));
        Ok(())
    }
}

/// Whether every character may stand in a header value.
fn value_is_valid(v: &String) -> (res: bool)
    ensures
        res == valid_header_value(v@),
{
    let chars = chars_of(v.as_str());
    let mut i: usize = 0;
    while i < chars.len()
        invariant
            i <= chars@.len(),
            chars@ == v@,
            forall|j: int| 0 <= j < i ==> crate::request::value_char(#[trigger] chars@[j]),
        decreases chars@.len() - i,
    {
        let c = chars[i];
        let code = c as u32;
        if !((code >= 32 && code != 127) || c == '\t') {
            assert(!crate::request::value_char(chars@[i as int]));
            return false;
        }
        i = i + 1;
    }
    true
}

/// A permanent redirect (`308`) to a location.
pub struct Redirect(pub String);

impl HttpResponseModifier for Redirect {
    fn modify(&mut self, res: &mut HttpResponse) -> (r: Result<(), Error>)
        ensures
            valid_header_value(old(self).0@) ==> {
                &&& r is Ok
                &&& final(res).status == 308
                &&& final(res).body == old(res).body
                &&& final(res).header_view() == insert_header(old(res).header_view(), "location"@, old(self).0@)
            },
            !valid_header_value(old(self).0@) ==> {
                &&& r is Err
                &&& r->Err_0 matches Error::AfterHandler(ModifierError::InvalidHeaderValue)
                &&& final(res).status == old(res).status
                &&& final(res).headers == old(res).headers
                &&& final(res).body == old(res).body
            },
    {
        if !value_is_valid(&self.0) {
            return Err(Error::AfterHandler(ModifierError::InvalidHeaderValue));
        }
        res.add_header(owned("location"), self.0.clone());
        res.status = 308;
        Ok(())
    }
}

/// Marks the response as a stream of server-sent events.
pub struct SSE;

impl HttpResponseModifier for SSE {
    fn modify(&mut self, res: &mut HttpResponse) -> (r: Result<(), Error>)
        ensures
            r is Ok,
            final(res).status == old(res).status,
            final(res).body == old(res).body,
            final(res).header_view() == insert_header(
                insert_header(old(res).header_view(), "content-type"@, "text/event-stream"@),
                "cache-control"@,
                "no-cache"@,
            ),
    {
        res.add_header(owned("content-type"), owned("text/event-stream"));
        res.add_header(owned("cache-control"), owned("no-cache"));
        Ok(())
    }
}

/// One item of a `Set-Cookie` header.
#[derive(Clone)]
pub enum CookieType {
    KeyValue(String, String),
    Attribute(String),
}

/// The text of one cookie item: `key=value;` or `attribute;`.
pub open spec fn cookie_item_text(c: CookieType) -> Seq<char> {
    match c {
        CookieType::KeyValue(k, v) => k@ + seq!['='] + v@ + seq![';'],
        CookieType::Attribute(a) => a@ + seq![';'],
    }
}

/// The text of a list of cookie items, one after another.
pub open spec fn cookie_text(items: Seq<CookieType>) -> Seq<char>
    decreases items.len(),
{
    if items.len() == 0 {
        Seq::empty()
    } else {
        cookie_text(items.drop_last()) + cookie_item_text(items.last())
    }
}

impl CookieType {
    /// The text of this item.
    pub fn text(&self) -> (res: String)
        ensures
            res@ == cookie_item_text(*self),
    {
        let mut out: Vec<char> = Vec::new();
        match self {
            CookieType::KeyValue(k, v) => {
                out.append(&mut chars_of(k.as_str()));
                out.push('=');
                out.append(&mut chars_of(v.as_str()));
                out.push(';');
            },
            CookieType::Attribute(a) => {
                out.append(&mut chars_of(a.as_str()));
                out.push(';');
            },
        }
        assert(out@ =~= cookie_item_text(*self));
        string_from_chars(out.as_slice())
    }
}

/// The items of a `Set-Cookie` header.
#[derive(Default)]
pub struct Cookie {
    _innser: Vec<CookieType>,
}

impl Cookie {
    /// The items, in order.
    pub closed spec fn items(&self) -> Seq<CookieType> {
        self._innser@
    }

    /// No items.
    pub fn new() -> (res: Self)
        ensures
            res.items().len() == 0,
    {
        Cookie { _innser: Vec::new() }
    }

    /// Adds an item at the end.
    pub fn push(&mut self, item: CookieType)
        ensures
            final(self).items() == old(self).items().push(item),
    {
        self._innser.push(item);
    }

    /// The items, in order.
    pub fn as_slice(&self) -> (res: &[CookieType])
        ensures
            res@ == self.items(),
    {
        self._innser.as_slice()
    }

    /// The header value: the text of every item, in order.
    pub fn to_header_value(&self) -> (res: String)
        ensures
            res@ == cookie_text(self.items()),
    {
        let mut out: Vec<char> = Vec::new();
        let mut i: usize = 0;
        while i < self._innser.len()
            invariant
                i <= self._innser@.len(),
                out@ == cookie_text(self._innser@.take(i as int)),
            decreases self._innser@.len() - i,
        {
            let t = self._innser[i].text();
            let mut tc = chars_of(t.as_str());
            out.append(&mut tc);
            i = i + 1;
            assert(self._innser@.take(i as int).drop_last() =~= self._innser@.take(i - 1));
            assert(out@ =~= cookie_text(self._innser@.take(i as int)));
        }
        assert(self._innser@.take(i as int) =~= self._innser@);
        string_from_chars(out.as_slice())
    }
}

impl HttpResponseModifier for Cookie {
    fn modify(&mut self, res: &mut HttpResponse) -> (r: Result<(), Error>)
        ensures
            valid_header_value(cookie_text(old(self).items())) ==> {
                &&& r is Ok
                &&& final(res).status == old(res).status
                &&& final(res).body == old(res).body
                &&& final(res).header_view() == insert_header(
                    old(res).header_view(),
                    "set-cookie"@,
                    cookie_text(old(self).items()),
                )
            },
            !valid_header_value(cookie_text(old(self).items())) ==> {
                &&& r is Err
                &&& r->Err_0 matches Error::AfterHandler(ModifierError::InvalidHeaderValue)
                &&& final(res).headers == old(res).headers
            },
    {
        let v = self.to_header_value();
        if !value_is_valid(&v) {
            return Err(Error::AfterHandler(ModifierError::InvalidHeaderValue));
        }
        res.add_header(owned("set-cookie"), v);
        Ok(())
    }
}

/// `http::StatusCode::canonical_reason`: the reason phrase the IANA
/// registry gives a status code, where it gives one.
pub uninterp spec fn canonical_reason(code: u16) -> Option<Seq<char>>;

/// The reason phrase written after a status code, as `http::StatusCode`'s
/// `Display` writes it: the canonical reason, or `<unknown status code>`
/// for a code that has none.
pub open spec fn reason_phrase(code: u16) -> Seq<char> {
    match canonical_reason(code) {
        Some(r) => r,
        None => "<unknown status code>"@,
    }
}

/// `http::StatusCode::canonical_reason` of the status `code`.
#[verifier::external_body]
fn canonical_reason_of(code: u16) -> (res: Option<String>)
    requires
        100 <= code <= 999,
    ensures
        match res {
            Some(r) => canonical_reason(code) == Some(r@),
            None => canonical_reason(code) is None,
        },
{
    match http::StatusCode::from_u16(code) {
        Ok(s) => match s.canonical_reason() {
            Some(r) => Some(r.to_string()),
            None => None,
        },
        Err(_) => None,
    }
}

/// The reason phrase written after the status `code`.
fn reason_text(code: u16) -> (res: String)
    requires
        100 <= code <= 999,
    ensures
        res@ == reason_phrase(code),
{
    match canonical_reason_of(code) {
        Some(r) => r,
        None => "<unknown status code>".to_string(),
    }
}

/// The header lines of a response head, each `name: value` and a line
/// break.
pub open spec fn headers_text(h: Seq<(Seq<char>, Seq<char>)>) -> Seq<char>
    decreases h.len(),
{
    if h.len() == 0 {
        Seq::empty()
    } else {
        headers_text(h.drop_last()) + h.last().0 + ": "@ + h.last().1 + "\r\n"@
    }
}

/// An HTTP/1.1 response head: the status line, the header lines and the
/// blank line that ends it.
pub open spec fn spec_head_text(status: u16, h: Seq<(Seq<char>, Seq<char>)>) -> Seq<char> {
    "HTTP/1.1 "@ + decimal(status as nat) + " "@ + reason_phrase(status) + "\r\n"@ + headers_text(h) + "\r\n"@
}

/// Appends the characters of `s`.
fn push_str(out: &mut Vec<char>, s: &str)
    ensures
        final(out)@ == old(out)@ + s@,
{
    let mut c = chars_of(s);
    out.append(&mut c);
}

impl HttpResponse {
    /// The head of this response as written on an HTTP/1.1 connection.
    pub fn write_line_header_bytes(&self) -> (res: String)
        requires
            100 <= self.status <= 999,
        ensures
            res@ == spec_head_text(self.status, self.header_view()),
    {
        let mut out: Vec<char> = Vec::new();
        push_str(&mut out, "HTTP/1.1 ");
        push_str(&mut out, decimal_string(self.status as usize).as_str());
        push_str(&mut out, " ");
        push_str(&mut out, reason_text(self.status).as_str());
        push_str(&mut out, "\r\n");
        let ghost start = out@;
        let mut i: usize = 0;
        assert(self.header_view().take(0) =~= Seq::<(Seq<char>, Seq<char>)>::empty());
        while i < self.headers.len()
            invariant
                i <= self.headers@.len(),
                out@ == start + headers_text(self.header_view().take(i as int)),
            decreases self.headers@.len() - i,
        {
            push_str(&mut out, self.headers[i].0.as_str());
            push_str(&mut out, ": ");
            push_str(&mut out, self.headers[i].1.as_str());
            push_str(&mut out, "\r\n");
            i = i + 1;
            proof {
                let t = self.header_view().take(i as int);
                assert(t.drop_last() =~= self.header_view().take(i - 1));
                assert(t.last() == (self.headers@[i - 1].0@, self.headers@[i - 1].1@));
            }
            assert(out@ =~= start + headers_text(self.header_view().take(i as int)));
        }
        push_str(&mut out, "\r\n");
        assert(self.header_view().take(i as int) =~= self.header_view());
        assert(out@ =~= spec_head_text(self.status, self.header_view()));
        string_from_chars(out.as_slice())
    }
}

/// A body sent in chunks as they arrive on a channel.
pub struct Stream {
    receiver: Option<Receiver<Bytes>>,
}

impl Stream {
    /// A body fed by `receiver`.
    pub fn new(receiver: Receiver<Bytes>) -> (res: Self)
        ensures
            res.receiver() == Some(receiver),
            res.has_receiver(),
    {
        Stream { receiver: Some(receiver) }
    }

    /// The channel has not been handed to a response yet.
    pub closed spec fn has_receiver(&self) -> bool {
        self.receiver is Some
    }

    /// The channel, while it has not been handed over.
    pub closed spec fn receiver(&self) -> Option<Receiver<Bytes>> {
        self.receiver
    }
}

impl HttpResponseModifier for Stream {
    /// Makes the channel the response's body; a stream whose channel was
    /// already handed over is refused.
    fn modify(&mut self, res: &mut HttpResponse) -> (r: Result<(), Error>)
        ensures
            old(self).has_receiver() ==> {
                &&& r is Ok
                &&& !final(self).has_receiver()
                &&& final(res).status == old(res).status
                &&& final(res).headers == old(res).headers
                &&& final(res).body == ResponseBody::Stream(old(self).receiver()->0)
            },
            !old(self).has_receiver() ==> r is Err && final(res).body == old(res).body,
    {
        match self.receiver.take() {
            Some(receiver) => {
                res.set_body(ResponseBody::Stream(receiver));
                Ok(())
            },
            None => Err(Error::after_handler_incompatible_body_type()),
        }
    }
}

} // verus!
