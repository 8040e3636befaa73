//! Small containers shared by the server's parts.
use crate::text::{chars_of, string_from_chars};
use std::collections::HashMap;
use vstd::prelude::*;
use vstd::utf8::{decode_utf8, encode_utf8, valid_utf8};

verus! {

/// A trie keyed by `K`, holding a `T` at each node.
pub struct Trie<T, K> {
    pub next: HashMap<K, Box<Trie<T, K>>>,
    pub value: T,
}

impl<T: Default, K> Default for Trie<T, K> {
    /// A node with no children, holding `T`'s default.
    fn default() -> (res: Self)
        ensures
            res.next@ == Map::<K, Box<Trie<T, K>>>::empty(),
    {
        Trie { next: HashMap::new(), value: T::default() }
    }
}

/// The value of a hexadecimal digit byte.
pub open spec fn hex_value(b: u8) -> Option<u8> {
    if 48 <= b && b <= 57 {
        Some((b - 48) as u8)
    } else if 65 <= b && b <= 70 {
        Some((b - 55) as u8)
    } else if 97 <= b && b <= 102 {
        Some((b - 87) as u8)
    } else {
        None
    }
}

/// Percent-decoding as `urlencoding::decode_binary` does it: `%` and two
/// hexadecimal digits become the byte they spell; a `%` not followed by
/// two hexadecimal digits stays as it is, and so does `+`.
pub open spec fn percent_decode(b: Seq<u8>) -> Seq<u8>
    decreases b.len(),
{
    if b.len() == 0 {
        Seq::empty()
    } else if b[0] != 37 {
        seq![b[0]] + percent_decode(b.drop_first())
    } else if b.len() < 3 {
        b
    } else {
        match (hex_value(b[1]), hex_value(b[2])) {
            (Some(h), Some(l)) => seq![(h * 16 + l) as u8] + percent_decode(b.skip(3)),
            (Some(_), None) => seq![37u8, b[1]] + percent_decode(b.skip(2)),
            _ => seq![37u8] + percent_decode(b.drop_first()),
        }
    }
}

/// `urlencoding::decode`: the text that the percent-decoded bytes of `s`
/// spell, or `None` when they are not UTF-8.
#[verifier::external_body]
pub(crate) fn url_decode(s: &str) -> (res: Option<String>)
    ensures
        match res {
            Some(t) => valid_utf8(percent_decode(encode_utf8(s@))) && t@ == decode_utf8(
                percent_decode(encode_utf8(s@)),
            ),
            None => !valid_utf8(percent_decode(encode_utf8(s@))),
        },
{
    match urlencoding::decode(s) {
        Ok(t) => Some(t.into_owned()),
        Err(_) => None,
    }
}

/// The file that a static route serves: the path a `**` route took from
/// the request, percent-decoded, under the directory `base`; `None` when
/// the route took no path or it does not decode to text.
pub fn static_file_target(multi_seg_param: &Option<String>, base: &str) -> (res: Option<String>)
    ensures
        match multi_seg_param {
            None => res is None,
            Some(p) => {
                let d = percent_decode(encode_utf8(p@));
                if valid_utf8(d) {
                    res matches Some(t) && t@ == base@ + seq!['/'] + decode_utf8(d)
                } else {
                    res is None
                }
            },
        },
{
    match multi_seg_param {
        None => None,
        Some(p) => match url_decode(p.as_str()) {
            None => None,
            Some(decoded) => {
                let mut out = chars_of(base);
                out.push('/');
                let mut d = chars_of(decoded.as_str());
                out.append(&mut d);
                Some(string_from_chars(out.as_slice()))
            },
        },
    }
}

} // verus!
