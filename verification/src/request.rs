//! HTTP/1 request heads: finding the end of the head in the bytes read so
//! far, parsing the request line and the header lines, and reading the
//! headers that decide how the body is parsed.
use crate::text::{
    chars_of, next_word, next_word_at, split_chars, split_crlf, split_crlf_chars, split_on,
    string_from_chars, trim, trim_chars,
};
use crate::error::Error;
use crate::multipart::MultipartDataMap;
use crate::route::{comp_view, route_view, CompSpec, Route, RouteComponent};
use crate::websocket::data::str_from_utf8;
use bytes::Bytes;
use std::str::Utf8Error;
use vstd::prelude::*;
use vstd::utf8::{decode_utf8, encode_utf8, valid_utf8};

verus! {

broadcast use vstd::utf8::encode_utf8_decode_utf8;

/// A token character (RFC 9110): a letter, a digit or one of
/// ``!#$%&'*+-.^_`|~``.
pub open spec fn token_char(c: char) -> bool {
    ||| ('a' <= c && c <= 'z')
    ||| ('A' <= c && c <= 'Z')
    ||| ('0' <= c && c <= '9')
    ||| c == '!' || c == '#' || c == '$' || c == '%' || c == '&' || c == '\'' || c == '*'
    ||| c == '+' || c == '-' || c == '.' || c == '^' || c == '_' || c == '`' || c == '|' || c == '~'
}

/// Whether `http::Method::from_bytes` accepts the bytes of `s`: a
/// non-empty token.
pub open spec fn valid_method(s: Seq<char>) -> bool {
    s.len() > 0 && forall|i: int| 0 <= i < s.len() ==> token_char(#[trigger] s[i])
}

/// `http::Method::from_bytes` on the bytes of `s`: whether it accepts them.
#[verifier::external_body]
fn method_is_valid(s: &str) -> (res: bool)
    ensures
        res == valid_method(s@),
{
    http::Method::from_bytes(s.as_bytes()).is_ok()
}

/// What `<http::Uri as FromStr>::from_str` says of `s`: `None` when it
/// accepts it, else the text of its error.
pub uninterp spec fn uri_check(s: Seq<char>) -> Option<Seq<char>>;

/// `<http::Uri as FromStr>::from_str`: `None` when `s` is a URI, else the
/// text of the error.
#[verifier::external_body]
fn uri_error(s: &str) -> (res: Option<String>)
    ensures
        match res {
            None => uri_check(s@) is None,
            Some(t) => uri_check(s@) == Some(t@),
        },
{
    match s.parse::<http::Uri>() {
        Ok(_) => None,
        Err(e) => Some(e.to_string()),
    }
}

/// Whether `<http::HeaderName as FromStr>::from_str` accepts `s`: a
/// non-empty token of at most 65535 characters.
pub open spec fn valid_header_name(s: Seq<char>) -> bool {
    &&& 0 < s.len() <= 65535
    &&& forall|i: int| 0 <= i < s.len() ==> token_char(#[trigger] s[i])
}

/// `s` with ASCII capitals made small.
pub open spec fn ascii_lower(s: Seq<char>) -> Seq<char> {
    s.map_values(
        |c: char|
            if 'A' <= c && c <= 'Z' {
                (((c as u8) + 32) as u8) as char
            } else {
                c
            },
    )
}

/// `<http::HeaderName as FromStr>::from_str`: the header name, which http
/// stores in lower case, or `None` when `s` is not a header name.
#[verifier::external_body]
fn header_name_of(s: &str) -> (res: Option<String>)
    ensures
        res is Some <==> valid_header_name(s@),
        res matches Some(n) ==> n@ == ascii_lower(s@),
{
    match s.parse::<http::HeaderName>() {
        Ok(n) => Some(n.as_str().to_string()),
        Err(_) => None,
    }
}

/// The text of a `std::str::Utf8Error`.
#[verifier::external_body]
fn utf8_error_text(e: &Utf8Error) -> String {
    e.to_string()
}

/// The protocol versions a request line may name.
#[derive(Debug, Clone, Copy, PartialEq, Eq, Structural)]
pub enum HttpVersion {
    Http10,
    Http11,
}

/// The head of a request: its line and its headers, names in lower case.
#[derive(Debug)]
pub struct RequestHead {
    pub method: String,
    pub uri: String,
    pub version: HttpVersion,
    pub headers: Vec<(String, String)>,
}

/// What a request head holds, as text.
pub struct HeadSpec {
    pub method: Seq<char>,
    pub uri: Seq<char>,
    pub version: HttpVersion,
    pub headers: Seq<(Seq<char>, Seq<char>)>,
}

/// The text of a list of header pairs.
pub open spec fn pairs_view(h: Seq<(String, String)>) -> Seq<(Seq<char>, Seq<char>)> {
    h.map_values(|p: (String, String)| (p.0@, p.1@))
}

impl RequestHead {
    /// What this head holds, as text.
    pub open spec fn view(&self) -> HeadSpec {
        HeadSpec {
            method: self.method@,
            uri: self.uri@,
            version: self.version,
            headers: pairs_view(self.headers@),
        }
    }
}

/// Position `i` holds the first header named `name`.
pub open spec fn is_first_named(h: Seq<(Seq<char>, Seq<char>)>, name: Seq<char>, i: int) -> bool {
    &&& 0 <= i < h.len()
    &&& h[i].0 == name
    &&& forall|j: int| 0 <= j < i ==> #[trigger] h[j].0 != name
}

/// The value of the first header named `name`.
pub open spec fn lookup(h: Seq<(Seq<char>, Seq<char>)>, name: Seq<char>) -> Option<Seq<char>> {
    if exists|i: int| 0 <= i < h.len() && #[trigger] h[i].0 == name {
        Some(h[choose|i: int| is_first_named(h, name, i)].1)
    } else {
        None
    }
}

/// `http::HeaderMap::insert`: the value of the header `name` is replaced
/// where it is held, or the header is added at the end.
pub open spec fn insert_header(h: Seq<(Seq<char>, Seq<char>)>, name: Seq<char>, v: Seq<char>) -> Seq<
    (Seq<char>, Seq<char>),
> {
    if exists|i: int| 0 <= i < h.len() && #[trigger] h[i].0 == name {
        h.update(choose|i: int| is_first_named(h, name, i), (name, v))
    } else {
        h.push((name, v))
    }
}

/// Finds the first header named `name`.
pub(crate) fn find_header(h: &Vec<(String, String)>, name: &String) -> (res: Option<usize>)
    ensures
        match res {
            Some(i) => is_first_named(pairs_view(h@), name@, i as int),
            None => forall|i: int| 0 <= i < h@.len() ==> #[trigger] pairs_view(h@)[i].0 != name@,
        },
{
    let mut j: usize = 0;
    while j < h.len()
        invariant
            j <= h@.len(),
            forall|k: int| 0 <= k < j ==> #[trigger] pairs_view(h@)[k].0 != name@,
        decreases h@.len() - j,
    {
        if h[j].0 == *name {
            return Some(j);
        }
        j = j + 1;
    }
    None
}

/// Sets `name` to `value` in a list of pairs: the first pair named `name`
/// takes the value, or the pair is added at the end.
pub(crate) fn insert_pair(h: &mut Vec<(String, String)>, name: String, value: String)
    ensures
        pairs_view(final(h)@) == insert_header(pairs_view(old(h)@), name@, value@),
{
    let ghost before = pairs_view(h@);
    let ghost nv = name@;
    let ghost vv = value@;
    match find_header(h, &name) {
        Some(i) => {
            proof {
                lemma_first_named_unique(before, nv, i as int);
            }
            h.set(i, (name, value));
            assert(pairs_view(h@) =~= before.update(i as int, (nv, vv)));
        },
        None => {
            h.push((name, value));
            assert(pairs_view(h@) =~= before.push((nv, vv)));
        },
    }
}

pub(crate) proof fn lemma_first_named_unique(h: Seq<(Seq<char>, Seq<char>)>, name: Seq<char>, i: int)
    requires
        is_first_named(h, name, i),
    ensures
        exists|j: int| 0 <= j < h.len() && #[trigger] h[j].0 == name,
        (choose|j: int| is_first_named(h, name, j)) == i,
{
    assert(h[i].0 == name);
    let c = choose|j: int| is_first_named(h, name, j);
    assert(is_first_named(h, name, c));
    if c < i {
        assert(h[c].0 != name);
    }
    if i < c {
        assert(h[i].0 != name);
    }
}

impl RequestHead {
    /// A head with no headers.
    pub fn new(method: String, uri: String, version: HttpVersion) -> (res: Self)
        ensures
            res@.method == method@,
            res@.uri == uri@,
            res@.version == version,
            res@.headers.len() == 0,
    {
        let res = RequestHead { method, uri, version, headers: Vec::new() };
        assert(res@.headers =~= Seq::<(Seq<char>, Seq<char>)>::empty());
        res
    }

    /// Sets the header `name` (already in lower case) to `value`.
    pub fn insert_header(&mut self, name: String, value: String)
        ensures
            final(self)@.method == old(self)@.method,
            final(self)@.uri == old(self)@.uri,
            final(self)@.version == old(self)@.version,
            final(self)@.headers == insert_header(old(self)@.headers, name@, value@),
    {
        insert_pair(&mut self.headers, name, value);
    }

    /// The value of the header `name`, looked up without regard to case,
    /// as `http::HeaderMap::get` does.
    pub fn get_header(&self, name: &str) -> (res: Option<&String>)
        ensures
            match lookup(self@.headers, ascii_lower(name@)) {
                None => res is None,
                Some(v) => res matches Some(r) && r@ == v,
            },
    {
        let key = lower_ascii(name);
        match find_header(&self.headers, &key) {
            Some(i) => {
                proof {
                    lemma_first_named_unique(self@.headers, key@, i as int);
                }
                Some(&self.headers[i].1)
            },
            None => None,
        }
    }
}

/// `s` with ASCII capitals made small.
fn lower_ascii(s: &str) -> (res: String)
    ensures
        res@ == ascii_lower(s@),
{
    let chars = chars_of(s);
    let mut out: Vec<char> = Vec::new();
    let mut i: usize = 0;
    while i < chars.len()
        invariant
            i <= chars@.len(),
            chars@ == s@,
            out@ == ascii_lower(s@).take(i as int),
        decreases chars@.len() - i,
    {
        let c = chars[i];
        let l = if 'A' <= c && c <= 'Z' {
            ((c as u8) + 32) as char
        } else {
            c
        };
        out.push(l);
        i = i + 1;
        assert(out@ =~= ascii_lower(s@).take(i as int));
    }
    assert(ascii_lower(s@).take(i as int) =~= ascii_lower(s@));
    string_from_chars(out.as_slice())
}

/// Bytes `i..i + 4` of `c` are `"\r\n\r\n"`, the end of a request head.
pub open spec fn head_end_at(c: Seq<u8>, i: int) -> bool {
    &&& 0 <= i
    &&& i + 4 <= c.len()
    &&& c[i] == 13
    &&& c[i + 1] == 10
    &&& c[i + 2] == 13
    &&& c[i + 3] == 10
}

/// Looks for the end of the request head in the bytes read so far: `(true,
/// n)` where the first `"\r\n\r\n"` ends at `n`, `(false, 0)` when there is
/// none yet.
pub fn check_header(c: &[u8]) -> (res: (bool, usize))
    requires
        c@.len() >= 4,
    ensures
        res.0 <==> exists|i: int| head_end_at(c@, i),
        res.0 ==> head_end_at(c@, res.1 - 4) && forall|j: int| 0 <= j < res.1 - 4 ==> !head_end_at(c@, j),
        !res.0 ==> res.1 == 0,
{
    let n = c.len();
    let mut i: usize = 0;
    while i <= n - 4
        invariant
            n == c@.len(),
            n >= 4,
            i <= n - 3,
            forall|j: int| 0 <= j < i ==> !head_end_at(c@, j),
        decreases n - i,
    {
        if c[i] == 13 && c[i + 1] == 10 && c[i + 2] == 13 && c[i + 3] == 10 {
            assert(head_end_at(c@, i as int));
            return (true, i + 4);
        }
        i = i + 1;
    }
    assert forall|j: int| !head_end_at(c@, j) by {
        if 0 <= j && j < i {
        }
    }
    (false, 0)
}

/// The words of a request line, read as the parser reads them: method,
/// target and version, each checked.
pub open spec fn spec_parse_line(s: Seq<char>) -> Result<(Seq<char>, Seq<char>, HttpVersion), Seq<char>> {
    match next_word(s) {
        None => Err("method parsing error"@),
        Some((m, r1)) => if !valid_method(m) {
            Err("invalid HTTP method"@)
        } else {
            match next_word(r1) {
                None => Err("uri parsing error"@),
                Some((u, r2)) => match uri_check(u) {
                    Some(e) => Err(e),
                    None => match next_word(r2) {
                        Some((v, _)) => if v == "HTTP/1.1"@ {
                            Ok((m, u, HttpVersion::Http11))
                        } else if v == "HTTP/1.0"@ {
                            Ok((m, u, HttpVersion::Http10))
                        } else {
                            Err("version parsing error"@)
                        },
                        None => Err("version parsing error"@),
                    },
                },
            }
        },
    }
}

/// The characters `s[a..b]`.
fn copy_range(s: &[char], a: usize, b: usize) -> (res: Vec<char>)
    requires
        a <= b <= s@.len(),
    ensures
        res@ == s@.subrange(a as int, b as int),
{
    let mut out: Vec<char> = Vec::new();
    let mut k = a;
    while k < b
        invariant
            a <= k <= b <= s@.len(),
            out@ == s@.subrange(a as int, k as int),
        decreases b - k,
    {
        out.push(s[k]);
        k = k + 1;
        assert(out@ =~= s@.subrange(a as int, k as int));
    }
    out
}

/// Whether `s[a..b]` is the text `t`.
fn range_is(s: &[char], a: usize, b: usize, t: &str) -> (res: bool)
    requires
        a <= b <= s@.len(),
    ensures
        res == (s@.subrange(a as int, b as int) == t@),
{
    let tc = chars_of(t);
    if b - a != tc.len() {
        return false;
    }
    let mut k: usize = 0;
    while k < tc.len()
        invariant
            tc@ == t@,
            b - a == tc@.len(),
            a <= b <= s@.len(),
            k <= tc@.len(),
            forall|j: int| 0 <= j < k ==> s@[a + j] == tc@[j],
        decreases tc@.len() - k,
    {
        if s[a + k] != tc[k] {
            assert(s@.subrange(a as int, b as int)[k as int] != t@[k as int]);
            return false;
        }
        k = k + 1;
    }
    assert(s@.subrange(a as int, b as int) =~= t@);
    true
}

/// Parses a request line: method, target and version.
fn parse_line(s: &[char]) -> (res: Result<(String, String, HttpVersion), String>)
    ensures
        match spec_parse_line(s@) {
            Ok((m, u, v)) => res is Ok && res->Ok_0.0@ == m && res->Ok_0.1@ == u && res->Ok_0.2 == v,
            Err(e) => res is Err && res->Err_0@ == e,
        },
{
    assert(s@.skip(0) =~= s@);
    let (a, b) = match next_word_at(s, 0) {
        Some(p) => p,
        None => return Err("method parsing error".to_string()),
    };
    let method = string_from_chars(copy_range(s, a, b).as_slice());
    if !method_is_valid(method.as_str()) {
        return Err("invalid HTTP method".to_string());
    }
    let (c, d) = match next_word_at(s, b) {
        Some(p) => p,
        None => return Err("uri parsing error".to_string()),
    };
    let uri = string_from_chars(copy_range(s, c, d).as_slice());
    match uri_error(uri.as_str()) {
        Some(e) => return Err(e),
        None => {},
    }
    let (e, f) = match next_word_at(s, d) {
        Some(p) => p,
        None => return Err("version parsing error".to_string()),
    };
    if range_is(s, e, f, "HTTP/1.1") {
        Ok((method, uri, HttpVersion::Http11))
    } else if range_is(s, e, f, "HTTP/1.0") {
        Ok((method, uri, HttpVersion::Http10))
    } else {
        Err("version parsing error".to_string())
    }
}

/// A character that may stand in a header value: `http` takes every byte
/// from 32 up but 127, and the tab; bytes of characters past ASCII are all
/// above 127.
pub open spec fn value_char(c: char) -> bool {
    ((c as u32) >= 32 && (c as u32) != 127) || c == '\t'
}

/// Every character may stand in a header value.
pub open spec fn valid_header_value(v: Seq<char>) -> bool {
    forall|i: int| 0 <= i < v.len() ==> value_char(#[trigger] v[i])
}

/// A header line read as the parser reads it: the name is the text before
/// the first `:`, the value the text between it and the next `:` (or the
/// end), both trimmed.
pub open spec fn spec_header_pair(line: Seq<char>) -> Result<(Seq<char>, Seq<char>), Seq<char>> {
    let pieces = split_on(line, ':');
    if pieces.len() < 2 {
        Err("no header value"@)
    } else {
        let k = trim(pieces[0]);
        let v = trim(pieces[1]);
        if valid_header_value(v) {
            Ok((k, v))
        } else {
            Err("failed to parse header value"@)
        }
    }
}

/// The headers of the lines from `i` on, added to `acc`; empty lines are
/// passed over and the first bad line ends the reading.
pub open spec fn spec_fold_headers(lines: Seq<Seq<char>>, i: int, acc: Seq<(Seq<char>, Seq<char>)>) -> Result<
    Seq<(Seq<char>, Seq<char>)>,
    Seq<char>,
>
    decreases lines.len() - i,
{
    if i >= lines.len() || i < 0 {
        Ok(acc)
    } else if lines[i].len() == 0 {
        spec_fold_headers(lines, i + 1, acc)
    } else {
        match spec_header_pair(lines[i]) {
            Err(e) => Err(e),
            Ok((k, v)) => spec_fold_headers(lines, i + 1, insert_header(acc, ascii_lower(k), v)),
        }
    }
}

/// Every header name that the reading of the lines from `i` on reaches is
/// one `http` accepts.
pub open spec fn header_names_ok(lines: Seq<Seq<char>>, i: int) -> bool
    decreases lines.len() - i,
{
    if i >= lines.len() || i < 0 {
        true
    } else if lines[i].len() == 0 {
        header_names_ok(lines, i + 1)
    } else {
        match spec_header_pair(lines[i]) {
            Err(_) => true,
            Ok((k, _)) => valid_header_name(k) && header_names_ok(lines, i + 1),
        }
    }
}

/// A request head read from its text: the request line, then the header
/// lines.
pub open spec fn spec_parse_head_text(text: Seq<char>) -> Result<HeadSpec, Seq<char>> {
    let lines = split_crlf(text);
    match spec_parse_line(lines[0]) {
        Err(e) => Err(e),
        Ok((m, u, v)) => match spec_fold_headers(lines, 1, Seq::empty()) {
            Err(e) => Err(e),
            Ok(h) => Ok(HeadSpec { method: m, uri: u, version: v, headers: h }),
        },
    }
}

/// Every header name in the head is one `http` accepts (it stops the
/// server otherwise).
pub open spec fn head_names_ok(raw: Seq<u8>) -> bool {
    valid_utf8(raw) ==> {
        let lines = split_crlf(decode_utf8(raw));
        spec_parse_line(lines[0]) is Ok ==> header_names_ok(lines, 1)
    }
}

/// Whether every character may stand in a header value.
fn all_value_chars(v: &[char]) -> (res: bool)
    ensures
        res == valid_header_value(v@),
{
    let mut i: usize = 0;
    while i < v.len()
        invariant
            i <= v@.len(),
            forall|j: int| 0 <= j < i ==> value_char(#[trigger] v@[j]),
        decreases v@.len() - i,
    {
        let c = v[i];
        let code = c as u32;
        if !((code >= 32 && code != 127) || c == '\t') {
            assert(!value_char(v@[i as int]));
            return false;
        }
        i = i + 1;
    }
    true
}

/// Reads one header line.
fn parse_header_pair(line: &[char]) -> (res: Result<(String, String), String>)
    ensures
        match spec_header_pair(line@) {
            Ok((k, v)) => res is Ok && res->Ok_0.0@ == k && res->Ok_0.1@ == v,
            Err(e) => res is Err && res->Err_0@ == e,
        },
{
    let pieces = split_chars(line, ':');
    let ghost pv = pieces@.map_values(|p: String| p@);
    if pieces.len() < 2 {
        return Err("no header value".to_string());
    }
    let kc = chars_of(pieces[0].as_str());
    let vc = chars_of(pieces[1].as_str());
    assert(kc@ == pv[0]);
    assert(vc@ == pv[1]);
    assert(kc@.subrange(0, kc@.len() as int) =~= kc@);
    assert(vc@.subrange(0, vc@.len() as int) =~= vc@);
    let k = trim_chars(kc.as_slice(), 0, kc.len());
    let v = trim_chars(vc.as_slice(), 0, vc.len());
    if !all_value_chars(v.as_slice()) {
        return Err("failed to parse header value".to_string());
    }
    Ok((string_from_chars(k.as_slice()), string_from_chars(v.as_slice())))
}

/// Parses a request head: the bytes up to and with the blank line that
/// ends it. A head that is not UTF-8 is refused with the decoder's error.
pub fn parse_line_header(raw: &[u8]) -> (res: Result<RequestHead, String>)
    requires
        head_names_ok(raw@),
    ensures
        !valid_utf8(raw@) ==> res is Err,
        valid_utf8(raw@) ==> match spec_parse_head_text(decode_utf8(raw@)) {
            Ok(h) => res is Ok && res->Ok_0@ == h,
            Err(e) => res is Err && res->Err_0@ == e,
        },
{
    let text = match str_from_utf8(raw) {
        Ok(t) => t,
        Err(e) => return Err(utf8_error_text(&e)),
    };
    assert(decode_utf8(raw@) == text@);
    let chars = chars_of(text);
    let lines = split_crlf_chars(chars.as_slice());
    let ghost lv = lines@.map_values(|p: Vec<char>| p@);
    proof {
        crate::text::lemma_split_crlf_nonempty(chars@);
    }
    assert(lines@[0]@ == lv[0]);
    let (method, uri, version) = parse_line(lines[0].as_slice())?;
    let mut head = RequestHead::new(method, uri, version);
    assert(head@.headers =~= Seq::<(Seq<char>, Seq<char>)>::empty());
    let mut i: usize = 1;
    while i < lines.len()
        invariant
            1 <= i <= lines@.len(),
            lv == lines@.map_values(|p: Vec<char>| p@),
            lv == split_crlf(decode_utf8(raw@)),
            spec_fold_headers(lv, 1, Seq::empty()) == spec_fold_headers(lv, i as int, head@.headers),
            header_names_ok(lv, i as int),
            spec_parse_line(lv[0]) matches Ok((m, u, v)) && head@.method == m && head@.uri == u
                && head@.version == v,
        decreases lines@.len() - i,
    {
        assert(lines@[i as int]@ == lv[i as int]);
        if lines[i].len() > 0 {
            let (k, v) = parse_header_pair(lines[i].as_slice())?;
            let name = match header_name_of(k.as_str()) {
                Some(n) => n,
                None => {
                    assert(false);
                    return Err("invalid HTTP header name".to_string());
                },
            };
            head.insert_header(name, v);
        }
        i = i + 1;
    }
    Ok(head)
}

/// Whether every header name that reading `raw` reaches is one `http`
/// accepts.
fn head_names_valid(raw: &[u8]) -> (res: bool)
    ensures
        res == head_names_ok(raw@),
{
    let text = match str_from_utf8(raw) {
        Ok(t) => t,
        Err(_) => return true,
    };
    assert(decode_utf8(raw@) == text@);
    let chars = chars_of(text);
    let lines = split_crlf_chars(chars.as_slice());
    let ghost lv = lines@.map_values(|p: Vec<char>| p@);
    proof {
        crate::text::lemma_split_crlf_nonempty(chars@);
    }
    assert(lines@[0]@ == lv[0]);
    if parse_line(lines[0].as_slice()).is_err() {
        return true;
    }
    let mut i: usize = 1;
    while i < lines.len()
        invariant
            1 <= i <= lines@.len(),
            lv == lines@.map_values(|p: Vec<char>| p@),
            lv == split_crlf(decode_utf8(raw@)),
            spec_parse_line(lv[0]) is Ok,
            valid_utf8(raw@),
            header_names_ok(lv, 1) == header_names_ok(lv, i as int),
        decreases lines@.len() - i,
    {
        assert(lines@[i as int]@ == lv[i as int]);
        if lines[i].len() > 0 {
            match parse_header_pair(lines[i].as_slice()) {
                Err(_) => return true,
                Ok((k, _)) => {
                    if header_name_of(k.as_str()).is_none() {
                        assert(!header_names_ok(lv, i as int));
                        assert(valid_utf8(raw@));
                        return false;
                    }
                },
            }
        }
        i = i + 1;
    }
    true
}

/// Parses a request head, first checking that every header name it
/// reaches is one `http` accepts: `None` when one is not (the server
/// stops there), else what [`parse_line_header`] gives.
pub fn parse_request_head(raw: &[u8]) -> (res: Option<Result<RequestHead, String>>)
    ensures
        res is None <==> !head_names_ok(raw@),
        res matches Some(r) ==> {
            &&& !valid_utf8(raw@) ==> r is Err
            &&& valid_utf8(raw@) ==> match spec_parse_head_text(decode_utf8(raw@)) {
                Ok(h) => r is Ok && r->Ok_0@ == h,
                Err(e) => r is Err && r->Err_0@ == e,
            }
        },
{
    if !head_names_valid(raw) {
        return None;
    }
    Some(parse_line_header(raw))
}

/// `s` begins with `p`.
pub open spec fn starts_with(s: Seq<char>, p: Seq<char>) -> bool {
    s.len() >= p.len() && s.take(p.len() as int) == p
}

/// Position `i` holds the first `c` of `s`.
pub open spec fn is_first_char(s: Seq<char>, c: char, i: int) -> bool {
    &&& 0 <= i < s.len()
    &&& s[i] == c
    &&& forall|j: int| 0 <= j < i ==> #[trigger] s[j] != c
}

/// `str::split_once` with a character: the text before the first `c` and
/// the text after it.
pub open spec fn split_once(s: Seq<char>, c: char) -> Option<(Seq<char>, Seq<char>)> {
    if exists|i: int| 0 <= i < s.len() && #[trigger] s[i] == c {
        let i = choose|i: int| is_first_char(s, c, i);
        Some((s.take(i), s.skip(i + 1)))
    } else {
        None
    }
}

/// Every character is visible ASCII or a tab, as
/// `http::HeaderValue::to_str` requires.
pub open spec fn visible_ascii(v: Seq<char>) -> bool {
    forall|i: int| 0 <= i < v.len() ==> ((32 <= (#[trigger] v[i]) as u32 && (v[i] as u32) < 127) || v[i] == '\t')
}

/// The multipart boundary that a `Content-Type` value names: the text
/// after the first `=` that follows the first `;`.
pub open spec fn spec_boundary(ct: Seq<char>) -> Option<Seq<char>> {
    match split_once(ct, ';') {
        None => None,
        Some((_, b)) => match split_once(b, '=') {
            None => None,
            Some((_, c)) => Some(c),
        },
    }
}

/// How a request body is to be read.
#[derive(Debug)]
pub enum ContentType {
    ApplicationJson,
    MultipartFormData(String),
    Simple,
}

/// How a request body is to be read, as text.
pub enum ContentKind {
    ApplicationJson,
    MultipartFormData(Seq<char>),
    Simple,
}

/// What the `Content-Type` header says of the body: JSON, multipart with
/// its boundary, or anything else; no header means anything else.
pub open spec fn spec_content_type(headers: Seq<(Seq<char>, Seq<char>)>) -> Result<ContentKind, Seq<char>> {
    match lookup(headers, "content-type"@) {
        None => Ok(ContentKind::Simple),
        Some(ct) => if !visible_ascii(ct) {
            Err("failed to convert header to a str"@)
        } else if starts_with(ct, "application/json"@) {
            Ok(ContentKind::ApplicationJson)
        } else if starts_with(ct, "multipart/form-data"@) {
            match spec_boundary(ct) {
                Some(b) => Ok(ContentKind::MultipartFormData(b)),
                None => Err("no boundary found in your multipart/form-data header"@),
            }
        } else {
            Ok(ContentKind::Simple)
        },
    }
}

/// Finds the first `c` in `s[from..]`.
fn find_char(s: &[char], from: usize, c: char) -> (res: Option<usize>)
    requires
        from <= s@.len(),
    ensures
        match res {
            Some(i) => from <= i < s@.len() && is_first_char(s@.skip(from as int), c, i - from),
            None => forall|j: int| from <= j < s@.len() ==> #[trigger] s@[j] != c,
        },
{
    let mut i = from;
    while i < s.len()
        invariant
            from <= i <= s@.len(),
            forall|j: int| from <= j < i ==> #[trigger] s@[j] != c,
        decreases s@.len() - i,
    {
        if s[i] == c {
            assert forall|j: int| 0 <= j < i - from implies #[trigger] s@.skip(from as int)[j] != c by {
                assert(s@.skip(from as int)[j] == s@[from + j]);
            }
            return Some(i);
        }
        i = i + 1;
    }
    None
}

proof fn lemma_split_once_at(s: Seq<char>, c: char, i: int)
    requires
        is_first_char(s, c, i),
    ensures
        split_once(s, c) == Some((s.take(i), s.skip(i + 1))),
{
    assert(s[i] == c);
    let k = choose|k: int| is_first_char(s, c, k);
    assert(is_first_char(s, c, k));
    if k < i {
        assert(s[k] != c);
    }
    if i < k {
        assert(s[i] != c);
    }
}

/// The multipart boundary named by a `Content-Type` value.
fn boundary_of(ct: &[char]) -> (res: Option<String>)
    ensures
        match spec_boundary(ct@) {
            None => res is None,
            Some(b) => res matches Some(r) && r@ == b,
        },
{
    let n = ct.len();
    let semi = match find_char(ct, 0, ';') {
        Some(i) => i,
        None => {
            assert(split_once(ct@, ';') is None) by {
                if exists|i: int| 0 <= i < ct@.len() && #[trigger] ct@[i] == ';' {
                    let i = choose|i: int| 0 <= i < ct@.len() && #[trigger] ct@[i] == ';';
                    assert(ct@[i] != ';');
                }
            }
            return None;
        },
    };
    assert(ct@.skip(0) =~= ct@);
    assert(semi < n);
    proof {
        lemma_split_once_at(ct@, ';', semi as int);
    }
    let ghost rest = ct@.skip(semi + 1);
    let eq = match find_char(ct, semi + 1, '=') {
        Some(i) => i,
        None => {
            assert(split_once(rest, '=') is None) by {
                if exists|i: int| 0 <= i < rest.len() && #[trigger] rest[i] == '=' {
                    let i = choose|i: int| 0 <= i < rest.len() && #[trigger] rest[i] == '=';
                    assert(ct@[semi + 1 + i] != '=');
                }
            }
            return None;
        },
    };
    assert(eq < n);
    proof {
        lemma_split_once_at(rest, '=', eq - (semi + 1));
        assert(rest.skip(eq - (semi + 1) + 1) =~= ct@.subrange(eq + 1, ct@.len() as int));
    }
    let b = copy_range(ct, eq + 1, ct.len());
    Some(string_from_chars(b.as_slice()))
}

/// Whether every character is visible ASCII or a tab.
fn all_visible_ascii(v: &[char]) -> (res: bool)
    ensures
        res == visible_ascii(v@),
{
    let mut i: usize = 0;
    while i < v.len()
        invariant
            i <= v@.len(),
            forall|j: int| 0 <= j < i ==> ((32 <= (#[trigger] v@[j]) as u32 && (v@[j] as u32) < 127) || v@[j]
                == '\t'),
        decreases v@.len() - i,
    {
        let code = v[i] as u32;
        if !((32 <= code && code < 127) || v[i] == '\t') {
            return false;
        }
        i = i + 1;
    }
    true
}

/// Whether `s` begins with `p`.
fn chars_start_with(s: &[char], p: &str) -> (res: bool)
    ensures
        res == starts_with(s@, p@),
{
    let pc = chars_of(p);
    if s.len() < pc.len() {
        return false;
    }
    let r = range_is(s, 0, pc.len(), p);
    assert(s@.subrange(0, pc@.len() as int) =~= s@.take(pc@.len() as int));
    r
}

impl ContentType {
    /// How the body of a request with this head is to be read.
    pub fn try_from_head(head: &RequestHead) -> (res: Result<ContentType, String>)
        ensures
            match spec_content_type(head@.headers) {
                Ok(ContentKind::ApplicationJson) => res matches Ok(ContentType::ApplicationJson),
                Ok(ContentKind::Simple) => res matches Ok(ContentType::Simple),
                Ok(ContentKind::MultipartFormData(b)) => res matches Ok(ContentType::MultipartFormData(r))
                    && r@ == b,
                Err(e) => res is Err && res->Err_0@ == e,
            },
    {
        let ct = match head.get_header("content-type") {
            None => {
                proof {
                    reveal_strlit("content-type");
                    assert(ascii_lower("content-type"@) =~= "content-type"@);
                }
                return Ok(ContentType::Simple);
            },
            Some(v) => v,
        };
        proof {
            reveal_strlit("content-type");
            assert(ascii_lower("content-type"@) =~= "content-type"@);
        }
        let chars = chars_of(ct.as_str());
        if !all_visible_ascii(chars.as_slice()) {
            return Err("failed to convert header to a str".to_string());
        }
        if chars_start_with(chars.as_slice(), "application/json") {
            Ok(ContentType::ApplicationJson)
        } else if chars_start_with(chars.as_slice(), "multipart/form-data") {
            match boundary_of(chars.as_slice()) {
                Some(b) => Ok(ContentType::MultipartFormData(b)),
                None => Err("no boundary found in your multipart/form-data header".to_string()),
            }
        } else {
            Ok(ContentType::Simple)
        }
    }
}

/// The multipart boundary that the request's `Content-Type` names, if it
/// names one.
pub fn get_multipart_boundary(head: &RequestHead) -> (res: Option<String>)
    ensures
        match lookup(head@.headers, "content-type"@) {
            Some(ct) => if visible_ascii(ct) {
                match spec_boundary(ct) {
                    None => res is None,
                    Some(b) => res matches Some(r) && r@ == b,
                }
            } else {
                res is None
            },
            None => res is None,
        },
{
    proof {
        reveal_strlit("content-type");
        assert(ascii_lower("content-type"@) =~= "content-type"@);
    }
    match head.get_header("content-type") {
        None => None,
        Some(v) => {
            let chars = chars_of(v.as_str());
            if !all_visible_ascii(chars.as_slice()) {
                return None;
            }
            boundary_of(chars.as_slice())
        },
    }
}

/// A handler parameter that is read from the whole request.
pub trait TryFromRequest<'a>: Sized {
    fn try_from_request(req: &'a mut HttpRequest) -> Result<Self, Error>;
}

/// The body of a request, as the server read it.
#[derive(Debug)]
pub enum RequestBody {
    Simple(Bytes),
    MultiPart(MultipartDataMap),
    /// The path of a file on disk that holds the body.
    Stream(String),
}

/// A request as handlers see it: the head, the body if one was read, the
/// path parameters and query parameters once they are read, and the part
/// of the path that a `**` route component took.
#[derive(Debug)]
pub struct HttpRequest {
    pub head: RequestHead,
    pub body: Option<RequestBody>,
    pub path_param: Option<Vec<(String, String)>>,
    pub search_param: Option<Vec<(String, String)>>,
    pub multi_seg_param: Option<String>,
}

/// The texts of the exact components of `r` at positions `from..to`.
pub open spec fn exact_texts(r: Seq<CompSpec>, from: int, to: int) -> Seq<Seq<char>>
    decreases to - from,
{
    if to <= from {
        Seq::empty()
    } else {
        let prev = exact_texts(r, from, to - 1);
        match r[to - 1] {
            CompSpec::Exact(s) => prev.push(s),
            _ => prev,
        }
    }
}

/// `[T]::join` with a one-character separator.
pub open spec fn join(parts: Seq<Seq<char>>, sep: char) -> Seq<char>
    decreases parts.len(),
{
    if parts.len() == 0 {
        Seq::empty()
    } else if parts.len() == 1 {
        parts[0]
    } else {
        join(parts.drop_last(), sep) + seq![sep] + parts.last()
    }
}

/// The path that a route ending in `**` hands to its handler: the exact
/// segments of the request path from the wildcard's position on, joined
/// by `/`.
pub open spec fn multi_seg_text(handler: Seq<CompSpec>, incoming: Seq<CompSpec>) -> Seq<char> {
    join(exact_texts(incoming, handler.len() - 1, incoming.len() as int), '/')
}

impl HttpRequest {
    /// A request with this head and body.
    pub fn new(head: RequestHead, body: Option<RequestBody>) -> (res: Self)
        ensures
            res.head@ == head@,
            res.body == body,
            res.path_param is None,
            res.search_param is None,
            res.multi_seg_param is None,
    {
        HttpRequest { head, body, path_param: None, search_param: None, multi_seg_param: None }
    }

    /// A `POST /api/data` HTTP/1.1 request with the body `request payload`
    /// and no headers.
    pub fn fake() -> (res: Self)
        ensures
            res.head@.method == "POST"@,
            res.head@.uri == "/api/data"@,
            res.head@.version == HttpVersion::Http11,
            res.head@.headers.len() == 0,
            res.body matches Some(RequestBody::Simple(b)) && crate::buffer::bytes_view(b)
                == vstd::utf8::encode_utf8("request payload"@),
            res.path_param is None,
            res.search_param is None,
            res.multi_seg_param is None,
    {
        let head = RequestHead::new("POST".to_string(), "/api/data".to_string(), HttpVersion::Http11);
        let body = crate::buffer::bytes_copy_from_slice("request payload".as_bytes());
        HttpRequest {
            head,
            body: Some(RequestBody::Simple(body)),
            path_param: None,
            search_param: None,
            multi_seg_param: None,
        }
    }

    /// The value of the header `name`, looked up without regard to case.
    pub fn get_header(&self, name: &str) -> (res: Option<&String>)
        ensures
            match lookup(self.head@.headers, ascii_lower(name@)) {
                None => res is None,
                Some(v) => res matches Some(r) && r@ == v,
            },
    {
        self.head.get_header(name)
    }

    /// Records the path that a route ending in `**` takes from the
    /// request's route; other routes leave the request as it is.
    pub fn assamble_multi_seg_param(&mut self, handler_route: &Route, incoming_route: &Route)
        ensures
            final(self).head@ == old(self).head@,
            final(self).body == old(self).body,
            final(self).path_param == old(self).path_param,
            final(self).search_param == old(self).search_param,
            ({
                let h = route_view(handler_route.r@);
                if h.len() > 0 && h.last() == CompSpec::Multi {
                    final(self).multi_seg_param matches Some(p) && p@ == multi_seg_text(
                        h,
                        route_view(incoming_route.r@),
                    )
                } else {
                    final(self).multi_seg_param == old(self).multi_seg_param
                }
            }),
    {
        let hl = handler_route.r.len();
        if hl == 0 {
            return;
        }
        match &handler_route.r[hl - 1] {
            RouteComponent::MultiSegWildCard => {},
            _ => {
                return;
            },
        }
        let ghost inc = route_view(incoming_route.r@);
        let from = hl - 1;
        let mut out: Vec<char> = Vec::new();
        let mut count: usize = 0;
        let mut i: usize = 0;
        while i < incoming_route.r.len()
            invariant
                i <= incoming_route.r@.len(),
                inc == route_view(incoming_route.r@),
                from == hl - 1,
                out@ == join(exact_texts(inc, from as int, if i < from { from as int } else { i as int }), '/'),
                count == exact_texts(inc, from as int, if i < from { from as int } else { i as int }).len(),
                count <= i,
            decreases incoming_route.r@.len() - i,
        {
            if i >= from {
                let ghost prev = exact_texts(inc, from as int, i as int);
                match &incoming_route.r[i] {
                    RouteComponent::Exact(p) => {
                        let pc = chars_of(p.as_str());
                        if count > 0 {
                            out.push('/');
                        }
                        let mut k: usize = 0;
                        let ghost base = out@;
                        while k < pc.len()
                            invariant
                                k <= pc@.len(),
                                out@ == base + pc@.take(k as int),
                            decreases pc@.len() - k,
                        {
                            out.push(pc[k]);
                            k = k + 1;
                            assert(out@ =~= base + pc@.take(k as int));
                        }
                        assert(pc@.take(k as int) =~= pc@);
                        count = count + 1;
                        proof {
                            assert(inc[i as int] == CompSpec::Exact(p@));
                            let next = exact_texts(inc, from as int, i + 1);
                            assert(next == prev.push(p@));
                            if prev.len() == 0 {
                                assert(next.len() == 1);
                                assert(out@ =~= p@);
                            } else {
                                assert(next.drop_last() =~= prev);
                            }
                        }
                    },
                    _ => {
                        proof {
                            assert(exact_texts(inc, from as int, i + 1) == prev);
                        }
                    },
                }
            }
            i = i + 1;
        }
        let ghost n = incoming_route.r@.len();
        proof {
            if n < from {
                assert(exact_texts(inc, from as int, n as int) =~= Seq::<Seq<char>>::empty());
                assert(exact_texts(inc, from as int, from as int) =~= Seq::<Seq<char>>::empty());
            }
        }
        self.multi_seg_param = Some(string_from_chars(out.as_slice()));
    }
}

/// The path parameters that a route hands its handler: each `{name}`
/// component of the handler's route paired, in order, with the exact
/// segment that the request path holds at the same position.
pub open spec fn path_params_of(handler: Seq<CompSpec>, incoming: Seq<CompSpec>) -> Seq<
    (Seq<char>, Seq<char>),
>
    decreases handler.len(),
{
    if handler.len() == 0 {
        Seq::empty()
    } else {
        let prev = path_params_of(handler.drop_last(), incoming);
        let i = handler.len() - 1;
        match handler[i] {
            CompSpec::Param(name) => if i < incoming.len() {
                match incoming[i] {
                    CompSpec::Exact(v) => prev.push((name, v)),
                    _ => prev,
                }
            } else {
                prev
            },
            _ => prev,
        }
    }
}

/// The query of a request target: the text after its first `?`, or
/// nothing.
pub open spec fn query_of(uri: Seq<char>) -> Seq<char> {
    match split_once(uri, '?') {
        Some((_, q)) => q,
        None => Seq::empty(),
    }
}

/// A query key or value with its percent escapes decoded; text whose
/// decoded bytes are not UTF-8 is kept as it was written.
pub open spec fn decode_text(s: Seq<char>) -> Seq<char> {
    let d = crate::util::percent_decode(encode_utf8(s));
    if valid_utf8(d) {
        decode_utf8(d)
    } else {
        s
    }
}

/// The key and value that one `key=value` piece of a query gives: the
/// text before and after its first `=`, or the whole piece and an empty
/// value when it has none; both decoded.
pub open spec fn query_pair(p: Seq<char>) -> (Seq<char>, Seq<char>) {
    match split_once(p, '=') {
        Some((k, v)) => (decode_text(k), decode_text(v)),
        None => (decode_text(p), Seq::empty()),
    }
}

/// The query parameters of the pieces of a query cut at `&`: empty pieces
/// are skipped, and a key given again takes the later value.
pub open spec fn search_pairs(pieces: Seq<Seq<char>>) -> Seq<(Seq<char>, Seq<char>)>
    decreases pieces.len(),
{
    if pieces.len() == 0 {
        Seq::empty()
    } else {
        let prev = search_pairs(pieces.drop_last());
        let p = pieces.last();
        if p.len() == 0 {
            prev
        } else {
            insert_header(prev, query_pair(p).0, query_pair(p).1)
        }
    }
}

/// The query parameters of a request target.
pub open spec fn search_params_of(uri: Seq<char>) -> Seq<(Seq<char>, Seq<char>)> {
    search_pairs(split_on(query_of(uri), '&'))
}

/// The value of `key` in an optional list of parameters.
pub open spec fn param_lookup(p: Option<Vec<(String, String)>>, key: Seq<char>) -> Option<Seq<char>> {
    match p {
        None => None,
        Some(v) => lookup(pairs_view(v@), key),
    }
}

/// Decodes the percent escapes of `s`, keeping `s` where they do not
/// spell UTF-8.
fn decode_or_keep(s: &[char]) -> (res: String)
    ensures
        res@ == decode_text(s@),
{
    let t = string_from_chars(s);
    match crate::util::url_decode(t.as_str()) {
        Some(d) => d,
        None => t,
    }
}

/// The key and value of one query piece.
fn split_query_piece(pc: &[char]) -> (res: (String, String))
    ensures
        res.0@ == query_pair(pc@).0,
        res.1@ == query_pair(pc@).1,
{
    match find_char(pc, 0, '=') {
        Some(i) => {
            proof {
                assert(pc@.skip(0) =~= pc@);
                lemma_split_once_at(pc@, '=', i as int);
            }
            let n = pc.len();
            let k = copy_range(pc, 0, i);
            let v = copy_range(pc, i + 1, n);
            assert(k@ =~= pc@.take(i as int));
            assert(v@ =~= pc@.skip(i + 1));
            (decode_or_keep(k.as_slice()), decode_or_keep(v.as_slice()))
        },
        None => (decode_or_keep(pc), String::new()),
    }
}

/// The value of `key` in a list of pairs.
fn lookup_pair<'a>(v: &'a Vec<(String, String)>, key: &str) -> (res: Option<&'a String>)
    ensures
        match lookup(pairs_view(v@), key@) {
            None => res is None,
            Some(x) => res matches Some(r) && r@ == x,
        },
{
    let k = key.to_string();
    match find_header(v, &k) {
        Some(i) => {
            proof {
                lemma_first_named_unique(pairs_view(v@), k@, i as int);
            }
            Some(&v[i].1)
        },
        None => None,
    }
}

impl HttpRequest {
    /// Records the path parameters of the handler's route: each `{name}`
    /// component paired with the request path's segment at its position.
    pub fn assamble_path_param(&mut self, handler_route: &Route, incoming_route: &Route)
        ensures
            final(self).path_param matches Some(p) && pairs_view(p@) == path_params_of(
                route_view(handler_route.r@),
                route_view(incoming_route.r@),
            ),
            final(self).head@ == old(self).head@,
            final(self).body == old(self).body,
            final(self).search_param == old(self).search_param,
            final(self).multi_seg_param == old(self).multi_seg_param,
    {
        let ghost h = route_view(handler_route.r@);
        let ghost inc = route_view(incoming_route.r@);
        let mut out: Vec<(String, String)> = Vec::new();
        let mut i: usize = 0;
        while i < handler_route.r.len()
            invariant
                i <= handler_route.r@.len(),
                h == route_view(handler_route.r@),
                inc == route_view(incoming_route.r@),
                pairs_view(out@) == path_params_of(h.take(i as int), inc),
            decreases handler_route.r@.len() - i,
        {
            let ghost before = pairs_view(out@);
            proof {
                assert(h.take(i + 1).drop_last() =~= h.take(i as int));
                assert(h.take(i + 1)[i as int] == h[i as int]);
            }
            match &handler_route.r[i] {
                RouteComponent::PathParam(name) => {
                    if i < incoming_route.r.len() {
                        match &incoming_route.r[i] {
                            RouteComponent::Exact(seg) => {
                                out.push((name.clone(), seg.clone()));
                                assert(pairs_view(out@) =~= before.push((name@, seg@)));
                            },
                            _ => {},
                        }
                    }
                },
                _ => {},
            }
            i = i + 1;
        }
        assert(h.take(i as int) =~= h);
        self.path_param = Some(out);
    }

    /// The path parameter `key`, once the path parameters are read.
    pub fn get_pathparam(&self, key: &str) -> (res: Option<&String>)
        ensures
            match param_lookup(self.path_param, key@) {
                None => res is None,
                Some(x) => res matches Some(r) && r@ == x,
            },
    {
        match &self.path_param {
            Some(p) => lookup_pair(p, key),
            None => None,
        }
    }

    /// Records the query parameters of the request target.
    pub fn process_search_param(&mut self)
        ensures
            final(self).search_param matches Some(p) && pairs_view(p@) == search_params_of(
                old(self).head@.uri,
            ),
            final(self).head@ == old(self).head@,
            final(self).body == old(self).body,
            final(self).path_param == old(self).path_param,
            final(self).multi_seg_param == old(self).multi_seg_param,
    {
        let uc = chars_of(self.head.uri.as_str());
        let query: Vec<char> = match find_char(uc.as_slice(), 0, '?') {
            Some(i) => {
                proof {
                    assert(uc@.skip(0) =~= uc@);
                    lemma_split_once_at(uc@, '?', i as int);
                }
                let n = uc.len();
                let q = copy_range(uc.as_slice(), i + 1, n);
                assert(q@ =~= uc@.skip(i + 1));
                q
            },
            None => Vec::new(),
        };
        assert(query@ == query_of(self.head@.uri));
        let pieces = split_chars(query.as_slice(), '&');
        let ghost ps = split_on(query@, '&');
        let mut out: Vec<(String, String)> = Vec::new();
        let mut i: usize = 0;
        while i < pieces.len()
            invariant
                i <= pieces@.len(),
                pieces@.map_values(|p: String| p@) == ps,
                pairs_view(out@) == search_pairs(ps.take(i as int)),
            decreases pieces@.len() - i,
        {
            proof {
                assert(ps.take(i + 1).drop_last() =~= ps.take(i as int));
                assert(ps.take(i + 1).last() == pieces@[i as int]@);
            }
            let pc = chars_of(pieces[i].as_str());
            if pc.len() > 0 {
                let (k, v) = split_query_piece(pc.as_slice());
                insert_pair(&mut out, k, v);
            }
            i = i + 1;
        }
        assert(ps.take(i as int) =~= ps);
        self.search_param = Some(out);
    }

    /// The query parameter `key`, once the query parameters are read.
    pub fn get_search_param(&self, key: &str) -> (res: Option<&String>)
        ensures
            match param_lookup(self.search_param, key@) {
                None => res is None,
                Some(x) => res matches Some(r) && r@ == x,
            },
    {
        match &self.search_param {
            Some(p) => lookup_pair(p, key),
            None => None,
        }
    }

    /// Reads what the matched route hands the handler: the path
    /// parameters and, for a route ending in `**`, the path it took.
    pub fn process_routes(&mut self, handler_route: &Route, incoming_route: &Route)
        ensures
            final(self).path_param matches Some(p) && pairs_view(p@) == path_params_of(
                route_view(handler_route.r@),
                route_view(incoming_route.r@),
            ),
            ({
                let h = route_view(handler_route.r@);
                if h.len() > 0 && h.last() == CompSpec::Multi {
                    final(self).multi_seg_param matches Some(p) && p@ == multi_seg_text(
                        h,
                        route_view(incoming_route.r@),
                    )
                } else {
                    final(self).multi_seg_param == old(self).multi_seg_param
                }
            }),
            final(self).head@ == old(self).head@,
            final(self).body == old(self).body,
            final(self).search_param == old(self).search_param,
    {
        self.assamble_path_param(handler_route, incoming_route);
        self.assamble_multi_seg_param(handler_route, incoming_route);
    }
}

/// Text with no `sep` in it is one piece.
proof fn lemma_split_on_without_sep(s: Seq<char>, sep: char)
    requires
        forall|i: int| 0 <= i < s.len() ==> s[i] != sep,
    ensures
        split_on(s, sep) == seq![s],
    decreases s.len(),
{
    if s.len() == 0 {
        assert(s =~= Seq::<char>::empty());
    } else {
        lemma_split_on_without_sep(s.drop_last(), sep);
        assert(s.drop_last().push(s.last()) =~= s);
        assert(seq![s.drop_last()].update(0, s.drop_last().push(s.last())) =~= seq![s]);
    }
}

/// A request target whose query is one `key=value` piece gives exactly
/// one query parameter: the key and the value, each with its percent
/// escapes decoded, so that looking up the decoded key finds the decoded
/// value.
pub proof fn law_query_parameter_is_decoded(path: Seq<char>, key: Seq<char>, value: Seq<char>)
    requires
        forall|i: int| 0 <= i < path.len() ==> path[i] != '?',
        forall|i: int| 0 <= i < key.len() ==> key[i] != '&' && key[i] != '=',
        forall|i: int| 0 <= i < value.len() ==> value[i] != '&',
        valid_utf8(crate::util::percent_decode(encode_utf8(key))),
        valid_utf8(crate::util::percent_decode(encode_utf8(value))),
    ensures
        ({
            let k = decode_utf8(crate::util::percent_decode(encode_utf8(key)));
            let v = decode_utf8(crate::util::percent_decode(encode_utf8(value)));
            let params = search_params_of(path + seq!['?'] + key + seq!['='] + value);
            &&& params == seq![(k, v)]
            &&& lookup(params, k) == Some(v)
        }),
{
    let k = decode_utf8(crate::util::percent_decode(encode_utf8(key)));
    let v = decode_utf8(crate::util::percent_decode(encode_utf8(value)));
    let q = key + seq!['='] + value;
    let uri = path + seq!['?'] + key + seq!['='] + value;
    assert(uri =~= path + seq!['?'] + q);
    assert(is_first_char(uri, '?', path.len() as int)) by {
        assert forall|j: int| 0 <= j < path.len() implies #[trigger] uri[j] != '?' by {
            assert(uri[j] == path[j]);
        }
    }
    lemma_split_once_at(uri, '?', path.len() as int);
    assert(uri.skip(path.len() as int + 1) =~= q);
    assert(query_of(uri) == q);
    assert forall|i: int| 0 <= i < q.len() implies q[i] != '&' by {
        if i < key.len() {
            assert(q[i] == key[i]);
        } else if i > key.len() {
            assert(q[i] == value[i - key.len() - 1]);
        }
    }
    lemma_split_on_without_sep(q, '&');
    assert(is_first_char(q, '=', key.len() as int)) by {
        assert forall|j: int| 0 <= j < key.len() implies #[trigger] q[j] != '=' by {
            assert(q[j] == key[j]);
        }
    }
    lemma_split_once_at(q, '=', key.len() as int);
    assert(q.take(key.len() as int) =~= key);
    assert(q.skip(key.len() as int + 1) =~= value);
    assert(query_pair(q) == (k, v));
    let pieces = seq![q];
    assert(pieces.drop_last() =~= Seq::<Seq<char>>::empty());
    assert(search_pairs(pieces.drop_last()) =~= Seq::<(Seq<char>, Seq<char>)>::empty());
    let e = Seq::<(Seq<char>, Seq<char>)>::empty();
    assert(!(exists|i: int| 0 <= i < e.len() && #[trigger] e[i].0 == k));
    assert(insert_header(e, k, v) =~= seq![(k, v)]);
    let params = seq![(k, v)];
    assert(search_params_of(uri) == params);
    assert(is_first_named(params, k, 0));
    lemma_lookup_at(params, k, 0);
}

/// Cutting `a`, a separator and then `b` (which holds no separator) gives
/// the pieces of `a` followed by `b`.
proof fn lemma_split_on_append(a: Seq<char>, b: Seq<char>, sep: char)
    requires
        forall|i: int| 0 <= i < b.len() ==> b[i] != sep,
    ensures
        split_on(a + seq![sep] + b, sep) == split_on(a, sep).push(b),
    decreases b.len(),
{
    let s = a + seq![sep] + b;
    if b.len() == 0 {
        assert(s.drop_last() =~= a);
        assert(b =~= Seq::<char>::empty());
    } else {
        lemma_split_on_append(a, b.drop_last(), sep);
        assert(s.drop_last() =~= a + seq![sep] + b.drop_last());
        assert(s.last() == b.last());
        let r = split_on(a, sep).push(b.drop_last());
        assert(b.drop_last().push(b.last()) =~= b);
        assert(r.update(r.len() - 1, r.last().push(s.last())) =~= split_on(a, sep).push(b));
    }
}

/// A query parameter given last in the query is the one found for its
/// key, whatever came before it: the key and the value are read with
/// their percent escapes decoded, and a key given again takes the later
/// value.
pub proof fn law_last_query_parameter_wins(
    path: Seq<char>,
    query: Seq<char>,
    key: Seq<char>,
    value: Seq<char>,
)
    requires
        forall|i: int| 0 <= i < path.len() ==> path[i] != '?',
        forall|i: int| 0 <= i < key.len() ==> key[i] != '&' && key[i] != '=',
        forall|i: int| 0 <= i < value.len() ==> value[i] != '&',
        valid_utf8(crate::util::percent_decode(encode_utf8(key))),
        valid_utf8(crate::util::percent_decode(encode_utf8(value))),
    ensures
        lookup(
            search_params_of(path + seq!['?'] + query + seq!['&'] + key + seq!['='] + value),
            decode_utf8(crate::util::percent_decode(encode_utf8(key))),
        ) == Some(decode_utf8(crate::util::percent_decode(encode_utf8(value)))),
{
    let k = decode_utf8(crate::util::percent_decode(encode_utf8(key)));
    let v = decode_utf8(crate::util::percent_decode(encode_utf8(value)));
    let piece = key + seq!['='] + value;
    let q = query + seq!['&'] + piece;
    let uri = path + seq!['?'] + query + seq!['&'] + key + seq!['='] + value;
    assert(uri =~= path + seq!['?'] + q);
    assert(is_first_char(uri, '?', path.len() as int)) by {
        assert forall|j: int| 0 <= j < path.len() implies #[trigger] uri[j] != '?' by {
            assert(uri[j] == path[j]);
        }
    }
    lemma_split_once_at(uri, '?', path.len() as int);
    assert(uri.skip(path.len() as int + 1) =~= q);
    assert(query_of(uri) == q);
    assert forall|i: int| 0 <= i < piece.len() implies piece[i] != '&' by {
        if i < key.len() {
            assert(piece[i] == key[i]);
        } else if i > key.len() {
            assert(piece[i] == value[i - key.len() - 1]);
        }
    }
    lemma_split_on_append(query, piece, '&');
    let ps = split_on(query, '&');
    assert(split_on(q, '&') == ps.push(piece));
    assert(is_first_char(piece, '=', key.len() as int)) by {
        assert forall|j: int| 0 <= j < key.len() implies #[trigger] piece[j] != '=' by {
            assert(piece[j] == key[j]);
        }
    }
    lemma_split_once_at(piece, '=', key.len() as int);
    assert(piece.take(key.len() as int) =~= key);
    assert(piece.skip(key.len() as int + 1) =~= value);
    assert(query_pair(piece) == (k, v));
    assert(ps.push(piece).drop_last() =~= ps);
    assert(search_params_of(uri) == insert_header(search_pairs(ps), k, v));
    law_header_insert_then_lookup(search_pairs(ps), k, v, k);
}

/// The value found for a header is the one at its first position.
pub(crate) proof fn lemma_lookup_at(h: Seq<(Seq<char>, Seq<char>)>, name: Seq<char>, i: int)
    requires
        is_first_named(h, name, i),
    ensures
        lookup(h, name) == Some(h[i].1),
{
    lemma_first_named_unique(h, name, i);
}

/// Reading a header back after setting it gives the value set, and every
/// other header reads as it did before.
pub proof fn law_header_insert_then_lookup(
    h: Seq<(Seq<char>, Seq<char>)>,
    name: Seq<char>,
    v: Seq<char>,
    other: Seq<char>,
)
    ensures
        lookup(insert_header(h, name, v), name) == Some(v),
        other != name ==> lookup(insert_header(h, name, v), other) == lookup(h, other),
{
    let h2 = insert_header(h, name, v);
    if exists|i: int| 0 <= i < h.len() && #[trigger] h[i].0 == name {
        let w = choose|i: int| 0 <= i < h.len() && #[trigger] h[i].0 == name;
        let f = first_named_index(h, name, w);
        lemma_first_named_unique(h, name, f);
        let c = choose|i: int| is_first_named(h, name, i);
        assert(c == f);
        assert(h2 == h.update(c, (name, v)));
        assert(is_first_named(h2, name, c)) by {
            assert forall|j: int| 0 <= j < c implies #[trigger] h2[j].0 != name by {
                assert(h2[j] == h[j]);
            }
        }
        lemma_lookup_at(h2, name, c);
        if other != name {
            if exists|i: int| 0 <= i < h.len() && #[trigger] h[i].0 == other {
                let w2 = choose|i: int| 0 <= i < h.len() && #[trigger] h[i].0 == other;
                let f2 = first_named_index(h, other, w2);
                lemma_lookup_at(h, other, f2);
                assert(f2 != c);
                assert(is_first_named(h2, other, f2)) by {
                    assert forall|j: int| 0 <= j < f2 implies #[trigger] h2[j].0 != other by {
                        if j != c {
                            assert(h2[j] == h[j]);
                        }
                    }
                }
                lemma_lookup_at(h2, other, f2);
            } else {
                assert forall|i: int| 0 <= i < h2.len() implies #[trigger] h2[i].0 != other by {
                    if i != c {
                        assert(h2[i] == h[i]);
                    }
                }
            }
        }
    } else {
        assert(h2 == h.push((name, v)));
        assert(is_first_named(h2, name, h.len() as int)) by {
            assert forall|j: int| 0 <= j < h.len() implies #[trigger] h2[j].0 != name by {
                assert(h2[j] == h[j]);
            }
        }
        lemma_lookup_at(h2, name, h.len() as int);
        if other != name {
            if exists|i: int| 0 <= i < h.len() && #[trigger] h[i].0 == other {
                let w2 = choose|i: int| 0 <= i < h.len() && #[trigger] h[i].0 == other;
                let f2 = first_named_index(h, other, w2);
                lemma_lookup_at(h, other, f2);
                assert(is_first_named(h2, other, f2)) by {
                    assert forall|j: int| 0 <= j < f2 implies #[trigger] h2[j].0 != other by {
                        assert(h2[j] == h[j]);
                    }
                }
                lemma_lookup_at(h2, other, f2);
            } else {
                assert forall|i: int| 0 <= i < h2.len() implies #[trigger] h2[i].0 != other by {
                    if i < h.len() {
                        assert(h2[i] == h[i]);
                    }
                }
            }
        }
    }
}

/// Some position holds the first header named `name` when position `w`
/// holds one.
proof fn first_named_index(h: Seq<(Seq<char>, Seq<char>)>, name: Seq<char>, w: int) -> (f: int)
    requires
        0 <= w < h.len(),
        h[w].0 == name,
    ensures
        is_first_named(h, name, f),
    decreases w,
{
    if exists|j: int| 0 <= j < w && #[trigger] h[j].0 == name {
        let j = choose|j: int| 0 <= j < w && #[trigger] h[j].0 == name;
        first_named_index(h, name, j)
    } else {
        w
    }
}

} // verus!
