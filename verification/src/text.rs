//! Character-level helpers for paths, header values and parameters.
use vstd::prelude::*;
use vstd::std_specs::iter::IteratorSpec;

verus! {

broadcast use vstd::string::group_string_axioms;

/// `String::push`: appends one character.
#[verifier::external_body]
pub(crate) fn string_push(s: &mut String, c: char)
    ensures
        final(s)@ == old(s)@.push(c),
{
    s.push(c)
}

/// The characters of `s`, in order.
pub fn chars_of(s: &str) -> (res: Vec<char>)
    ensures
        res@ == s@,
{
    let mut out: Vec<char> = Vec::new();
    let mut it = s.chars();
    loop
        invariant
            it.obeys_prophetic_iter_laws(),
            out@ + it.remaining() == s@,
        decreases s@.len() - out@.len(),
    {
        let ghost before = it.remaining();
        match it.next() {
            Some(c) => {
                out.push(c);
                assert(out@ + it.remaining() =~= s@) by {
                    assert(before =~= seq![c] + it.remaining());
                }
            },
            None => {
                assert(out@ =~= s@);
                return out;
            },
        }
    }
}

/// A string holding `chars`.
pub fn string_from_chars(chars: &[char]) -> (res: String)
    ensures
        res@ == chars@,
{
    let mut out = String::new();
    let mut i: usize = 0;
    while i < chars.len()
        invariant
            i <= chars@.len(),
            out@ == chars@.take(i as int),
        decreases chars@.len() - i,
    {
        string_push(&mut out, chars[i]);
        i = i + 1;
        assert(out@ =~= chars@.take(i as int));
    }
    assert(chars@.take(i as int) =~= chars@);
    out
}

/// `s` cut at every `sep`, as `str::split` with a character pattern cuts
/// it: `n` separators give `n + 1` pieces, empty pieces included.
pub open spec fn split_on(s: Seq<char>, sep: char) -> Seq<Seq<char>>
    decreases s.len(),
{
    if s.len() == 0 {
        seq![Seq::empty()]
    } else {
        let r = split_on(s.drop_last(), sep);
        if s.last() == sep {
            r.push(Seq::empty())
        } else {
            r.update(r.len() - 1, r.last().push(s.last()))
        }
    }
}

/// Splitting always gives at least one piece.
pub proof fn lemma_split_nonempty(s: Seq<char>, sep: char)
    ensures
        split_on(s, sep).len() >= 1,
    decreases s.len(),
{
    if s.len() > 0 {
        lemma_split_nonempty(s.drop_last(), sep);
    }
}

/// The pieces of `s` between the separators `sep`.
pub fn split_chars(s: &[char], sep: char) -> (res: Vec<String>)
    ensures
        res@.map_values(|p: String| p@) == split_on(s@, sep),
{
    let mut pieces: Vec<String> = Vec::new();
    let mut current: Vec<char> = Vec::new();
    let mut i: usize = 0;
    proof {
        assert(s@.take(0) =~= Seq::<char>::empty());
    }
    while i < s.len()
        invariant
            i <= s@.len(),
            pieces@.map_values(|p: String| p@).push(current@) == split_on(s@.take(i as int), sep),
        decreases s@.len() - i,
    {
        let c = s[i];
        let ghost prev = s@.take(i as int);
        proof {
            assert(s@.take(i + 1).drop_last() =~= prev);
            lemma_split_nonempty(prev, sep);
        }
        if c == sep {
            let piece = string_from_chars(current.as_slice());
            pieces.push(piece);
            current = Vec::new();
            proof {
                assert(pieces@.map_values(|p: String| p@).push(current@) =~= split_on(prev, sep).push(
                    Seq::empty(),
                ));
            }
        } else {
            current.push(c);
            proof {
                let r = split_on(prev, sep);
                assert(pieces@.map_values(|p: String| p@).push(current@) =~= r.update(
                    r.len() - 1,
                    r.last().push(c),
                ));
            }
        }
        i = i + 1;
    }
    let last = string_from_chars(current.as_slice());
    pieces.push(last);
    proof {
        assert(s@.take(i as int) =~= s@);
        assert(pieces@.map_values(|p: String| p@) =~= split_on(s@, sep));
    }
    pieces
}

/// A Unicode white-space character, as `char::is_whitespace` decides.
pub open spec fn is_ws(c: char) -> bool {
    ('\u{9}' <= c && c <= '\u{d}') || c == ' ' || c == '\u{85}' || c == '\u{a0}' || c == '\u{1680}'
        || ('\u{2000}' <= c && c <= '\u{200a}') || c == '\u{2028}' || c == '\u{2029}' || c == '\u{202f}'
        || c == '\u{205f}' || c == '\u{3000}'
}

/// `char::is_whitespace`.
pub fn char_is_ws(c: char) -> (res: bool)
    ensures
        res == is_ws(c),
{
    ('\u{9}' <= c && c <= '\u{d}') || c == ' ' || c == '\u{85}' || c == '\u{a0}' || c == '\u{1680}'
        || ('\u{2000}' <= c && c <= '\u{200a}') || c == '\u{2028}' || c == '\u{2029}' || c == '\u{202f}'
        || c == '\u{205f}' || c == '\u{3000}'
}

/// `s` without its leading white space.
pub open spec fn skip_ws(s: Seq<char>) -> Seq<char>
    decreases s.len(),
{
    if s.len() > 0 && is_ws(s[0]) {
        skip_ws(s.drop_first())
    } else {
        s
    }
}

/// The number of characters before the first white space of `s`.
pub open spec fn word_len(s: Seq<char>) -> nat
    decreases s.len(),
{
    if s.len() > 0 && !is_ws(s[0]) {
        1 + word_len(s.drop_first())
    } else {
        0
    }
}

/// The first white-space separated word of `s` and what follows it, as
/// `str::split_whitespace` yields words; `None` when only white space is
/// left.
pub open spec fn next_word(s: Seq<char>) -> Option<(Seq<char>, Seq<char>)> {
    let t = skip_ws(s);
    if t.len() == 0 {
        None
    } else {
        Some((t.take(word_len(t) as int), t.skip(word_len(t) as int)))
    }
}

/// The next word of `s[from..]`: where it starts and where it ends, or
/// `None` when only white space is left.
pub fn next_word_at(s: &[char], from: usize) -> (res: Option<(usize, usize)>)
    requires
        from <= s@.len(),
    ensures
        match next_word(s@.skip(from as int)) {
            None => res is None,
            Some((w, rest)) => res matches Some((a, b)) && from <= a < b <= s@.len() && w == s@.subrange(
                a as int,
                b as int,
            ) && rest == s@.skip(b as int),
        },
{
    let n = s.len();
    let mut a = from;
    while a < n && char_is_ws(s[a])
        invariant
            from <= a <= n,
            n == s@.len(),
            skip_ws(s@.skip(from as int)) == skip_ws(s@.skip(a as int)),
        decreases n - a,
    {
        assert(s@.skip(a as int).drop_first() =~= s@.skip(a + 1));
        a = a + 1;
    }
    let ghost t = s@.skip(a as int);
    assert(skip_ws(t) == t);
    if a == n {
        return None;
    }
    let mut b = a;
    while b < n && !char_is_ws(s[b])
        invariant
            a <= b <= n,
            n == s@.len(),
            t == s@.skip(a as int),
            word_len(t) == (b - a) + word_len(s@.skip(b as int)),
            forall|j: int| a <= j < b ==> !is_ws(#[trigger] s@[j]),
        decreases n - b,
    {
        assert(s@.skip(b as int).drop_first() =~= s@.skip(b + 1));
        b = b + 1;
    }
    assert(word_len(s@.skip(b as int)) == 0);
    assert(t.take(word_len(t) as int) =~= s@.subrange(a as int, b as int));
    assert(t.skip(word_len(t) as int) =~= s@.skip(b as int));
    Some((a, b))
}

/// `s` without leading white space.
pub open spec fn trim_start(s: Seq<char>) -> Seq<char> {
    skip_ws(s)
}

/// `s` without trailing white space.
pub open spec fn trim_end(s: Seq<char>) -> Seq<char>
    decreases s.len(),
{
    if s.len() > 0 && is_ws(s.last()) {
        trim_end(s.drop_last())
    } else {
        s
    }
}

/// `str::trim`: `s` without leading and trailing white space.
pub open spec fn trim(s: Seq<char>) -> Seq<char> {
    trim_end(trim_start(s))
}

/// The characters of `s[from..to]` without leading and trailing white
/// space.
pub fn trim_chars(s: &[char], from: usize, to: usize) -> (res: Vec<char>)
    requires
        from <= to <= s@.len(),
    ensures
        res@ == trim(s@.subrange(from as int, to as int)),
{
    let mut a = from;
    while a < to && char_is_ws(s[a])
        invariant
            from <= a <= to <= s@.len(),
            skip_ws(s@.subrange(from as int, to as int)) == skip_ws(s@.subrange(a as int, to as int)),
        decreases to - a,
    {
        assert(s@.subrange(a as int, to as int).drop_first() =~= s@.subrange(a + 1, to as int));
        a = a + 1;
    }
    let ghost u = s@.subrange(a as int, to as int);
    assert(skip_ws(u) == u);
    let mut b = to;
    while b > a && char_is_ws(s[b - 1])
        invariant
            a <= b <= to,
            to <= s@.len(),
            trim_end(u) == trim_end(s@.subrange(a as int, b as int)),
        decreases b - a,
    {
        assert(s@.subrange(a as int, b as int).drop_last() =~= s@.subrange(a as int, b - 1));
        b = b - 1;
    }
    let mut out: Vec<char> = Vec::new();
    let mut k = a;
    while k < b
        invariant
            a <= k <= b <= s@.len(),
            out@ == s@.subrange(a as int, k as int),
        decreases b - k,
    {
        out.push(s[k]);
        k = k + 1;
        assert(out@ =~= s@.subrange(a as int, k as int));
    }
    assert(trim_end(s@.subrange(a as int, b as int)) == s@.subrange(a as int, b as int));
    out
}

/// `s` cut at every `"\r\n"`, as `str::split("\r\n")` cuts it, empty
/// pieces included.
pub open spec fn split_crlf(s: Seq<char>) -> Seq<Seq<char>>
    decreases s.len(),
{
    if s.len() == 0 {
        seq![Seq::empty()]
    } else if s.len() >= 2 && s[s.len() - 2] == '\r' && s.last() == '\n' {
        split_crlf(s.subrange(0, s.len() - 2)).push(Seq::empty())
    } else {
        let r = split_crlf(s.drop_last());
        r.update(r.len() - 1, r.last().push(s.last()))
    }
}

/// Splitting always gives at least one piece.
pub proof fn lemma_split_crlf_nonempty(s: Seq<char>)
    ensures
        split_crlf(s).len() >= 1,
    decreases s.len(),
{
    if s.len() >= 2 && s[s.len() - 2] == '\r' && s.last() == '\n' {
        lemma_split_crlf_nonempty(s.subrange(0, s.len() - 2));
    } else if s.len() > 0 {
        lemma_split_crlf_nonempty(s.drop_last());
    }
}

/// The lines of `s`: the pieces between the `"\r\n"` separators.
pub fn split_crlf_chars(s: &[char]) -> (res: Vec<Vec<char>>)
    ensures
        res@.map_values(|p: Vec<char>| p@) == split_crlf(s@),
{
    let n = s.len();
    let mut pieces: Vec<Vec<char>> = Vec::new();
    let mut current: Vec<char> = Vec::new();
    let mut i: usize = 0;
    assert(s@.take(0) =~= Seq::<char>::empty());
    while i < n
        invariant
            i <= n,
            n == s@.len(),
            pieces@.map_values(|p: Vec<char>| p@).push(current@) == split_crlf(s@.take(i as int)),
            i > 0 && s@[i - 1] == '\r' ==> i >= n || s@[i as int] != '\n',
        decreases n - i,
    {
        if i + 1 < n && s[i] == '\r' && s[i + 1] == '\n' {
            let ghost prev = s@.take(i as int);
            proof {
                let t = s@.take(i + 2);
                assert(t.subrange(0, t.len() - 2) =~= prev);
            }
            let piece = current;
            pieces.push(piece);
            current = Vec::new();
            i = i + 2;
            proof {
                assert(pieces@.map_values(|p: Vec<char>| p@).push(current@) =~= split_crlf(prev).push(
                    Seq::empty(),
                ));
            }
        } else {
            let c = s[i];
            let ghost prev = s@.take(i as int);
            proof {
                assert(s@.take(i + 1).drop_last() =~= prev);
                lemma_split_crlf_nonempty(prev);
            }
            current.push(c);
            i = i + 1;
            proof {
                let r = split_crlf(prev);
                assert(pieces@.map_values(|p: Vec<char>| p@).push(current@) =~= r.update(
                    r.len() - 1,
                    r.last().push(c),
                ));
            }
        }
    }
    pieces.push(current);
    proof {
        assert(s@.take(i as int) =~= s@);
    }
    pieces
}

} // verus!
