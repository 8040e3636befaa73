//! Conversions from the text of path parameters, query parameters and
//! multipart fields into the values that handlers take.
use crate::error::Error;
use crate::text::{chars_of, string_from_chars};
use vstd::prelude::*;

verus! {

/// A value of `Self` made from a `T`, or the error that says why not.
pub trait TryConvertFrom<T>: Sized {
    fn try_convert_from(value: T) -> Result<Self, Error>;
}

/// The other direction of [`TryConvertFrom`]; implement that trait instead.
pub trait TryConvertInto<O> {
    fn try_convert_into(self) -> Result<O, Error>;
}

impl<O, T: TryConvertFrom<O>> TryConvertInto<T> for O {
    fn try_convert_into(self) -> (res: Result<T, Error>)
        ensures
            call_ensures(T::try_convert_from, (self,), res),
    {
        T::try_convert_from(self)
    }
}

/// The characters of a string slice.
pub open spec fn str_text(s: &str) -> Seq<char> {
    s@
}

/// The characters of a string.
pub open spec fn string_text(s: &String) -> Seq<char> {
    s@
}

/// A conversion from a borrowed `String` that cannot fail.
pub trait ConvertFromRefString<'a, O> {
    fn convert(self) -> Result<O, String>;
}

impl<'a, T> ConvertFromRefString<'a, T> for T {
    fn convert(self) -> (res: Result<T, String>)
        ensures
            res == Ok::<T, String>(self),
    {
        Ok(self)
    }
}

impl<'a> ConvertFromRefString<'a, Option<&'a str>> for &'a String {
    fn convert(self) -> (res: Result<Option<&'a str>, String>)
        ensures
            res matches Ok(Some(s)) && s@ == self@,
    {
        Ok(Some(self.as_str()))
    }
}

impl<'a> ConvertFromRefString<'a, &'a str> for &'a String {
    fn convert(self) -> (res: Result<&'a str, String>)
        ensures
            res is Ok,
            str_text(res->Ok_0) == string_text(self),
    {
        Ok(self.as_str())
    }
}

impl<'a> ConvertFromRefString<'a, String> for &'a String {
    fn convert(self) -> (res: Result<String, String>)
        ensures
            res is Ok,
            string_text(&res->Ok_0) == string_text(self),
    {
        Ok(self.clone())
    }
}

/// An ASCII decimal digit.
pub open spec fn is_digit(c: char) -> bool {
    '0' <= c && c <= '9'
}

/// Every character is an ASCII decimal digit.
pub open spec fn all_digits(s: Seq<char>) -> bool {
    forall|i: int| 0 <= i < s.len() ==> is_digit(#[trigger] s[i])
}

/// The number that a string of decimal digits spells.
pub open spec fn digits_value(s: Seq<char>) -> nat
    decreases s.len(),
{
    if s.len() == 0 {
        0
    } else {
        digits_value(s.drop_last()) * 10 + (s.last() as nat - '0' as nat) as nat
    }
}

/// The integer that `s` spells the way Rust's `str::parse` reads integers:
/// an optional `+` (or `-` where `signed`), then one or more ASCII digits,
/// nothing else.
pub open spec fn spec_parse_int(s: Seq<char>, signed: bool) -> Option<int> {
    if s.len() == 0 {
        None
    } else {
        let neg = s[0] == '-' && signed;
        let digits = if s[0] == '+' || neg {
            s.drop_first()
        } else {
            s
        };
        if digits.len() == 0 || !all_digits(digits) {
            None
        } else if neg {
            Some(-(digits_value(digits) as int))
        } else {
            Some(digits_value(digits) as int)
        }
    }
}

/// The integer that `s` spells when it lies in `lo..=hi`, the range of the
/// integer type asked for.
pub open spec fn spec_parse_in(s: Seq<char>, signed: bool, lo: int, hi: int) -> Option<int> {
    match spec_parse_int(s, signed) {
        Some(v) => if lo <= v && v <= hi {
            Some(v)
        } else {
            None
        },
        None => None,
    }
}

proof fn lemma_digits_prefix_le(s: Seq<char>, k: int)
    requires
        0 <= k <= s.len(),
        forall|i: int| 0 <= i < s.len() ==> is_digit(#[trigger] s[i]),
    ensures
        digits_value(s.take(k)) <= digits_value(s),
    decreases s.len() - k,
{
    if k < s.len() {
        lemma_digits_prefix_le(s, k + 1);
        assert(s.take(k + 1).drop_last() =~= s.take(k));
    } else {
        assert(s.take(k) =~= s);
    }
}

/// Why a text is not an integer of the type asked for, as Rust's integer
/// parsing reports it.
#[derive(Debug, Clone, Copy, PartialEq, Eq, Structural)]
pub enum IntErrorKind {
    Empty,
    InvalidDigit,
    PosOverflow,
    NegOverflow,
}

/// The text Rust gives for each kind of integer parsing error.
pub open spec fn spec_int_error_text(k: IntErrorKind) -> Seq<char> {
    match k {
        IntErrorKind::Empty => "cannot parse integer from empty string"@,
        IntErrorKind::InvalidDigit => "invalid digit found in string"@,
        IntErrorKind::PosOverflow => "number too large to fit in target type"@,
        IntErrorKind::NegOverflow => "number too small to fit in target type"@,
    }
}

impl IntErrorKind {
    /// The text of this error.
    pub fn message(&self) -> (res: String)
        ensures
            res@ == spec_int_error_text(*self),
    {
        match self {
            IntErrorKind::Empty => "cannot parse integer from empty string".to_string(),
            IntErrorKind::InvalidDigit => "invalid digit found in string".to_string(),
            IntErrorKind::PosOverflow => "number too large to fit in target type".to_string(),
            IntErrorKind::NegOverflow => "number too small to fit in target type".to_string(),
        }
    }
}

/// Reads digits from position `i` on, the value read so far being `acc`:
/// the value, or the first fault met going left to right (a character
/// that is not a digit, or a value past `bound`).
pub open spec fn scan_from(d: Seq<char>, i: int, acc: nat, bound: nat) -> Result<nat, IntErrorKind>
    decreases d.len() - i,
{
    if i >= d.len() || i < 0 {
        Ok(acc)
    } else if !is_digit(d[i]) {
        Err(IntErrorKind::InvalidDigit)
    } else {
        let a = acc * 10 + (d[i] as nat - '0' as nat) as nat;
        if a > bound {
            Err(IntErrorKind::PosOverflow)
        } else {
            scan_from(d, i + 1, a, bound)
        }
    }
}

/// Rust's integer parsing, fault by fault: an empty text, a lone sign, a
/// character that is not a digit, or a value that leaves the type's range
/// (`-neg_bound..=pos_bound`) on the way, whichever comes first.
pub open spec fn spec_int_scan(s: Seq<char>, signed: bool, neg_bound: nat, pos_bound: nat) -> Result<int, IntErrorKind> {
    if s.len() == 0 {
        Err(IntErrorKind::Empty)
    } else if s.len() == 1 && (s[0] == '+' || s[0] == '-') {
        Err(IntErrorKind::InvalidDigit)
    } else {
        let neg = s[0] == '-' && signed;
        let digits = if s[0] == '+' || neg {
            s.drop_first()
        } else {
            s
        };
        match scan_from(digits, 0, 0, if neg { neg_bound } else { pos_bound }) {
            Ok(m) => Ok(if neg { -(m as int) } else { m as int }),
            Err(IntErrorKind::InvalidDigit) => Err(IntErrorKind::InvalidDigit),
            Err(_) => Err(if neg { IntErrorKind::NegOverflow } else { IntErrorKind::PosOverflow }),
        }
    }
}

proof fn lemma_scan_from(d: Seq<char>, i: int, acc: nat, bound: nat)
    requires
        0 <= i <= d.len(),
        acc == digits_value(d.take(i)),
        acc <= bound,
        all_digits(d.take(i)),
    ensures
        scan_from(d, i, acc, bound) is Ok <==> (all_digits(d) && digits_value(d) <= bound),
        scan_from(d, i, acc, bound) matches Ok(m) ==> m == digits_value(d),
        scan_from(d, i, acc, bound) is Err ==> scan_from(d, i, acc, bound) == Err::<nat, IntErrorKind>(
            IntErrorKind::InvalidDigit,
        ) || scan_from(d, i, acc, bound) == Err::<nat, IntErrorKind>(IntErrorKind::PosOverflow),
    decreases d.len() - i,
{
    if i == d.len() {
        assert(d.take(i) =~= d);
    } else {
        let t = d.take(i + 1);
        assert(t.drop_last() =~= d.take(i));
        assert(t.last() == d[i]);
        if is_digit(d[i]) {
            assert(all_digits(t)) by {
                assert forall|j: int| 0 <= j < t.len() implies is_digit(#[trigger] t[j]) by {
                    if j < i {
                        assert(t[j] == d.take(i)[j]);
                    }
                }
            }
            let a = acc * 10 + (d[i] as nat - '0' as nat) as nat;
            assert(a == digits_value(t));
            if a > bound {
                if all_digits(d) {
                    lemma_digits_prefix_le(d, i + 1);
                }
            } else {
                lemma_scan_from(d, i + 1, a, bound);
            }
        }
    }
}

/// Fault by fault, the scan agrees with [`spec_parse_in`]: it succeeds
/// exactly when the text spells an integer in range, with that integer.
pub proof fn lemma_int_scan_agrees(s: Seq<char>, signed: bool, neg_bound: nat, pos_bound: nat)
    ensures
        spec_int_scan(s, signed, neg_bound, pos_bound) is Ok <==> spec_parse_in(
            s,
            signed,
            -(neg_bound as int),
            pos_bound as int,
        ) is Some,
        spec_int_scan(s, signed, neg_bound, pos_bound) matches Ok(v) ==> spec_parse_in(
            s,
            signed,
            -(neg_bound as int),
            pos_bound as int,
        ) == Some(v),
{
    if s.len() > 0 && !(s.len() == 1 && (s[0] == '+' || s[0] == '-')) {
        let neg = s[0] == '-' && signed;
        let digits = if s[0] == '+' || neg {
            s.drop_first()
        } else {
            s
        };
        let bound = if neg {
            neg_bound
        } else {
            pos_bound
        };
        assert(digits.take(0) =~= Seq::<char>::empty());
        lemma_scan_from(digits, 0, 0, bound);
    }
}

/// Reads an integer the way Rust's integer parsing does, within
/// `-neg_bound..=pos_bound`; the result is the sign and the magnitude.
fn scan_int(s: &str, signed: bool, neg_bound: u128, pos_bound: u128) -> (res: Result<(bool, u128), IntErrorKind>)
    ensures
        match res {
            Ok((neg, m)) => spec_int_scan(s@, signed, neg_bound as nat, pos_bound as nat) == Ok::<
                int,
                IntErrorKind,
            >(if neg { -(m as int) } else { m as int }) && (neg ==> m <= neg_bound) && (!neg ==> m
                <= pos_bound),
            Err(k) => spec_int_scan(s@, signed, neg_bound as nat, pos_bound as nat) == Err::<
                int,
                IntErrorKind,
            >(k),
        },
{
    let chars = chars_of(s);
    let n = chars.len();
    if n == 0 {
        return Err(IntErrorKind::Empty);
    }
    if n == 1 && (chars[0] == '+' || chars[0] == '-') {
        return Err(IntErrorKind::InvalidDigit);
    }
    let neg = chars[0] == '-' && signed;
    let start: usize = if chars[0] == '+' || neg {
        1
    } else {
        0
    };
    let bound = if neg {
        neg_bound
    } else {
        pos_bound
    };
    let ghost digits = if chars@[0] == '+' || neg {
        s@.drop_first()
    } else {
        s@
    };
    let mut i: usize = start;
    let mut m: u128 = 0;
    while i < n
        invariant
            chars@ == s@,
            n == s@.len(),
            start <= i <= n,
            digits == s@.skip(start as int),
            n > 0,
            !(n == 1 && (s@[0] == '+' || s@[0] == '-')),
            neg == (s@[0] == '-' && signed),
            digits == (if s@[0] == '+' || neg {
                s@.drop_first()
            } else {
                s@
            }),
            bound == (if neg {
                neg_bound
            } else {
                pos_bound
            }),
            m <= bound,
            scan_from(digits, (i - start) as int, m as nat, bound as nat) == scan_from(
                digits,
                0,
                0,
                bound as nat,
            ),
        decreases n - i,
    {
        let c = chars[i];
        assert(digits[i - start] == c);
        if !('0' <= c && c <= '9') {
            assert(!is_digit(digits[i - start]));
            return Err(IntErrorKind::InvalidDigit);
        }
        let d = (c as u32 - '0' as u32) as u128;
        if d > bound || m > (bound - d) / 10 {
            assert(m * 10 + d > bound) by (nonlinear_arith)
                requires
                    d > bound || m > (bound - d) / 10,
            ;
            return Err(
                if neg {
                    IntErrorKind::NegOverflow
                } else {
                    IntErrorKind::PosOverflow
                },
            );
        }
        assert(m * 10 + d <= bound) by (nonlinear_arith)
            requires
                d <= bound,
                m <= (bound - d) / 10,
        ;
        m = m * 10 + d;
        i = i + 1;
    }
    Ok((neg, m))
}

/// Parses a signed integer within `lo..=hi`.
pub(crate) fn parse_signed(s: &str, lo: i128, hi: i128) -> (res: Result<i128, IntErrorKind>)
    requires
        lo <= 0 <= hi,
    ensures
        match res {
            Ok(v) => spec_parse_in(s@, true, lo as int, hi as int) == Some(v as int),
            Err(k) => spec_parse_in(s@, true, lo as int, hi as int) is None && spec_int_scan(
                s@,
                true,
                (-lo) as nat,
                hi as nat,
            ) == Err::<int, IntErrorKind>(k),
        },
{
    let neg_bound: u128 = if lo == i128::MIN {
        (i128::MAX as u128) + 1
    } else {
        (-lo) as u128
    };
    proof {
        lemma_int_scan_agrees(s@, true, neg_bound as nat, hi as nat);
    }
    match scan_int(s, true, neg_bound, hi as u128) {
        Err(k) => Err(k),
        Ok((neg, m)) => {
            if neg {
                if m == (i128::MAX as u128) + 1 {
                    Ok(i128::MIN)
                } else {
                    Ok(-(m as i128))
                }
            } else {
                Ok(m as i128)
            }
        },
    }
}

/// Parses an unsigned integer no larger than `hi`.
pub(crate) fn parse_unsigned(s: &str, hi: u128) -> (res: Result<u128, IntErrorKind>)
    ensures
        match res {
            Ok(v) => spec_parse_in(s@, false, 0, hi as int) == Some(v as int),
            Err(k) => spec_parse_in(s@, false, 0, hi as int) is None && spec_int_scan(s@, false, 0, hi as nat)
                == Err::<int, IntErrorKind>(k),
        },
{
    proof {
        lemma_int_scan_agrees(s@, false, 0, hi as nat);
    }
    match scan_int(s, false, 0, hi) {
        Err(k) => Err(k),
        Ok((neg, m)) => Ok(m),
    }
}

/// The boolean that `s` spells, as `str::parse::<bool>` reads it.
pub open spec fn spec_parse_bool(s: Seq<char>) -> Option<bool> {
    if s == seq!['t', 'r', 'u', 'e'] {
        Some(true)
    } else if s == seq!['f', 'a', 'l', 's', 'e'] {
        Some(false)
    } else {
        None
    }
}

pub(crate) fn parse_bool(s: &str) -> (res: Option<bool>)
    ensures
        res == spec_parse_bool(s@),
{
    let c = chars_of(s);
    if c.len() == 4 && c[0] == 't' && c[1] == 'r' && c[2] == 'u' && c[3] == 'e' {
        assert(s@ =~= seq!['t', 'r', 'u', 'e']);
        return Some(true);
    }
    if c.len() == 5 && c[0] == 'f' && c[1] == 'a' && c[2] == 'l' && c[3] == 's' && c[4] == 'e' {
        assert(s@ =~= seq!['f', 'a', 'l', 's', 'e']);
        return Some(false);
    }
    assert(s@ != seq!['t', 'r', 'u', 'e']) by {
        if s@ == seq!['t', 'r', 'u', 'e'] {
            assert(c@.len() == 4 && c@[0] == 't' && c@[1] == 'r' && c@[2] == 'u' && c@[3] == 'e');
        }
    }
    assert(s@ != seq!['f', 'a', 'l', 's', 'e']) by {
        if s@ == seq!['f', 'a', 'l', 's', 'e'] {
            assert(c@.len() == 5 && c@[0] == 'f' && c@[4] == 'e');
        }
    }
    None
}

impl<'a> TryConvertFrom<&'a String> for &'a String {
    fn try_convert_from(value: &'a String) -> (res: Result<&'a String, Error>)
        ensures
            res == Ok::<&'a String, Error>(value),
    {
        Ok(value)
    }
}

impl<'a> TryConvertFrom<Option<&'a String>> for &'a String {
    fn try_convert_from(value: Option<&'a String>) -> (res: Result<&'a String, Error>)
        ensures
            match value {
                Some(s) => res == Ok::<&'a String, Error>(s),
                None => res is Err && res->Err_0.is_param_missing(),
            },
    {
        match value {
            Some(value) => Ok(value),
            None => Err(Error::param_not_exist()),
        }
    }
}

impl<'a> TryConvertFrom<&'a String> for &'a str {
    fn try_convert_from(value: &'a String) -> (res: Result<&'a str, Error>)
        ensures
            res is Ok,
            str_text(res->Ok_0) == string_text(value),
    {
        Ok(value.as_str())
    }
}

impl<'a> TryConvertFrom<Option<&'a String>> for &'a str {
    fn try_convert_from(value: Option<&'a String>) -> (res: Result<&'a str, Error>)
        ensures
            match value {
                Some(s) => res is Ok && str_text(res->Ok_0) == string_text(s),
                None => res is Err && res->Err_0.is_param_missing(),
            },
    {
        match value {
            Some(value) => Ok(value.as_str()),
            None => Err(Error::param_not_exist()),
        }
    }
}

impl<'a> TryConvertFrom<&'a String> for String {
    fn try_convert_from(value: &'a String) -> (res: Result<String, Error>)
        ensures
            res is Ok,
            string_text(&res->Ok_0) == string_text(value),
    {
        Ok(value.clone())
    }
}

impl<'a> TryConvertFrom<Option<&'a String>> for String {
    fn try_convert_from(value: Option<&'a String>) -> (res: Result<String, Error>)
        ensures
            match value {
                Some(s) => res is Ok && string_text(&res->Ok_0) == string_text(s),
                None => res is Err && res->Err_0.is_param_missing(),
            },
    {
        match value {
            Some(value) => Ok(value.clone()),
            None => Err(Error::param_not_exist()),
        }
    }
}

/// An optional parameter: a value that cannot be converted counts as absent.
impl<'a, O: TryConvertFrom<&'a String>> TryConvertFrom<&'a String> for Option<O> {
    fn try_convert_from(value: &'a String) -> (res: Result<Option<O>, Error>)
        ensures
            exists|r: Result<O, Error>|
                call_ensures(O::try_convert_from, (value,), r) && res == Ok::<Option<O>, Error>(
                    match r {
                        Ok(x) => Some(x),
                        Err(_) => None,
                    },
                ),
    {
        match O::try_convert_from(value) {
            Ok(r) => Ok(Some(r)),
            Err(_) => Ok(None),
        }
    }
}

/// An optional parameter: a missing value, or one that cannot be
/// converted, counts as absent.
impl<'a, O: TryConvertFrom<Option<&'a String>>> TryConvertFrom<Option<&'a String>> for Option<O> {
    fn try_convert_from(value: Option<&'a String>) -> (res: Result<Option<O>, Error>)
        ensures
            exists|r: Result<O, Error>|
                call_ensures(O::try_convert_from, (value,), r) && res == Ok::<Option<O>, Error>(
                    match r {
                        Ok(x) => Some(x),
                        Err(_) => None,
                    },
                ),
    {
        match O::try_convert_from(value) {
            Ok(r) => Ok(Some(r)),
            Err(_) => Ok(None),
        }
    }
}

impl<'a> TryConvertFrom<&'a String> for bool {
    fn try_convert_from(value: &'a String) -> (res: Result<bool, Error>)
        ensures
            res is Ok <==> spec_parse_bool(value@) is Some,
            res is Ok ==> spec_parse_bool(value@) == Some(res->Ok_0),
            res is Err ==> res->Err_0.is_convert_error(value@),
    {
        match parse_bool(value.as_str()) {
            Some(b) => Ok(b),
            None => Err(Error::convert_error(value, "bool")),
        }
    }
}

impl<'a> TryConvertFrom<Option<&'a String>> for bool {
    fn try_convert_from(value: Option<&'a String>) -> (res: Result<bool, Error>)
        ensures
            match value {
                Some(s) => {
                    &&& res is Ok <==> spec_parse_bool(s@) is Some
                    &&& res is Ok ==> spec_parse_bool(s@) == Some(res->Ok_0)
                    &&& res is Err ==> res->Err_0.is_convert_error(s@)
                },
                None => res is Err && res->Err_0.is_param_missing(),
            },
    {
        match value {
            Some(value) => <bool as TryConvertFrom<&'a String>>::try_convert_from(value),
            None => Err(Error::param_not_exist()),
        }
    }
}

impl<'a> TryConvertFrom<&'a String> for i8 {
    fn try_convert_from(value: &'a String) -> (res: Result<i8, Error>)
        ensures
            res is Ok <==> spec_parse_in(value@, true, i8::MIN as int, i8::MAX as int) is Some,
            res is Ok ==> spec_parse_in(value@, true, i8::MIN as int, i8::MAX as int) == Some(res->Ok_0 as int),
            res is Err ==> res->Err_0.is_convert_error(value@),
    {
        match parse_signed(value.as_str(), i8::MIN as i128, i8::MAX as i128) {
            Ok(v) => Ok(v as i8),
            Err(_) => Err(Error::convert_error(value, "i8")),
        }
    }
}

impl<'a> TryConvertFrom<Option<&'a String>> for i8 {
    fn try_convert_from(value: Option<&'a String>) -> (res: Result<i8, Error>)
        ensures
            match value {
                Some(s) => {
                    &&& res is Ok <==> spec_parse_in(s@, true, i8::MIN as int, i8::MAX as int) is Some
                    &&& res is Ok ==> spec_parse_in(s@, true, i8::MIN as int, i8::MAX as int) == Some(res->Ok_0 as int)
                    &&& res is Err ==> res->Err_0.is_convert_error(s@)
                },
                None => res is Err && res->Err_0.is_param_missing(),
            },
    {
        match value {
            Some(value) => <i8 as TryConvertFrom<&'a String>>::try_convert_from(value),
            None => Err(Error::param_not_exist()),
        }
    }
}

impl<'a> TryConvertFrom<&'a String> for i16 {
    fn try_convert_from(value: &'a String) -> (res: Result<i16, Error>)
        ensures
            res is Ok <==> spec_parse_in(value@, true, i16::MIN as int, i16::MAX as int) is Some,
            res is Ok ==> spec_parse_in(value@, true, i16::MIN as int, i16::MAX as int) == Some(res->Ok_0 as int),
            res is Err ==> res->Err_0.is_convert_error(value@),
    {
        match parse_signed(value.as_str(), i16::MIN as i128, i16::MAX as i128) {
            Ok(v) => Ok(v as i16),
            Err(_) => Err(Error::convert_error(value, "i16")),
        }
    }
}

impl<'a> TryConvertFrom<Option<&'a String>> for i16 {
    fn try_convert_from(value: Option<&'a String>) -> (res: Result<i16, Error>)
        ensures
            match value {
                Some(s) => {
                    &&& res is Ok <==> spec_parse_in(s@, true, i16::MIN as int, i16::MAX as int) is Some
                    &&& res is Ok ==> spec_parse_in(s@, true, i16::MIN as int, i16::MAX as int) == Some(res->Ok_0 as int)
                    &&& res is Err ==> res->Err_0.is_convert_error(s@)
                },
                None => res is Err && res->Err_0.is_param_missing(),
            },
    {
        match value {
            Some(value) => <i16 as TryConvertFrom<&'a String>>::try_convert_from(value),
            None => Err(Error::param_not_exist()),
        }
    }
}

impl<'a> TryConvertFrom<&'a String> for i32 {
    fn try_convert_from(value: &'a String) -> (res: Result<i32, Error>)
        ensures
            res is Ok <==> spec_parse_in(value@, true, i32::MIN as int, i32::MAX as int) is Some,
            res is Ok ==> spec_parse_in(value@, true, i32::MIN as int, i32::MAX as int) == Some(res->Ok_0 as int),
            res is Err ==> res->Err_0.is_convert_error(value@),
    {
        match parse_signed(value.as_str(), i32::MIN as i128, i32::MAX as i128) {
            Ok(v) => Ok(v as i32),
            Err(_) => Err(Error::convert_error(value, "i32")),
        }
    }
}

impl<'a> TryConvertFrom<Option<&'a String>> for i32 {
    fn try_convert_from(value: Option<&'a String>) -> (res: Result<i32, Error>)
        ensures
            match value {
                Some(s) => {
                    &&& res is Ok <==> spec_parse_in(s@, true, i32::MIN as int, i32::MAX as int) is Some
                    &&& res is Ok ==> spec_parse_in(s@, true, i32::MIN as int, i32::MAX as int) == Some(res->Ok_0 as int)
                    &&& res is Err ==> res->Err_0.is_convert_error(s@)
                },
                None => res is Err && res->Err_0.is_param_missing(),
            },
    {
        match value {
            Some(value) => <i32 as TryConvertFrom<&'a String>>::try_convert_from(value),
            None => Err(Error::param_not_exist()),
        }
    }
}

impl<'a> TryConvertFrom<&'a String> for i64 {
    fn try_convert_from(value: &'a String) -> (res: Result<i64, Error>)
        ensures
            res is Ok <==> spec_parse_in(value@, true, i64::MIN as int, i64::MAX as int) is Some,
            res is Ok ==> spec_parse_in(value@, true, i64::MIN as int, i64::MAX as int) == Some(res->Ok_0 as int),
            res is Err ==> res->Err_0.is_convert_error(value@),
    {
        match parse_signed(value.as_str(), i64::MIN as i128, i64::MAX as i128) {
            Ok(v) => Ok(v as i64),
            Err(_) => Err(Error::convert_error(value, "i64")),
        }
    }
}

impl<'a> TryConvertFrom<Option<&'a String>> for i64 {
    fn try_convert_from(value: Option<&'a String>) -> (res: Result<i64, Error>)
        ensures
            match value {
                Some(s) => {
                    &&& res is Ok <==> spec_parse_in(s@, true, i64::MIN as int, i64::MAX as int) is Some
                    &&& res is Ok ==> spec_parse_in(s@, true, i64::MIN as int, i64::MAX as int) == Some(res->Ok_0 as int)
                    &&& res is Err ==> res->Err_0.is_convert_error(s@)
                },
                None => res is Err && res->Err_0.is_param_missing(),
            },
    {
        match value {
            Some(value) => <i64 as TryConvertFrom<&'a String>>::try_convert_from(value),
            None => Err(Error::param_not_exist()),
        }
    }
}

impl<'a> TryConvertFrom<&'a String> for i128 {
    fn try_convert_from(value: &'a String) -> (res: Result<i128, Error>)
        ensures
            res is Ok <==> spec_parse_in(value@, true, i128::MIN as int, i128::MAX as int) is Some,
            res is Ok ==> spec_parse_in(value@, true, i128::MIN as int, i128::MAX as int) == Some(res->Ok_0 as int),
            res is Err ==> res->Err_0.is_convert_error(value@),
    {
        match parse_signed(value.as_str(), i128::MIN as i128, i128::MAX as i128) {
            Ok(v) => Ok(v as i128),
            Err(_) => Err(Error::convert_error(value, "i128")),
        }
    }
}

impl<'a> TryConvertFrom<Option<&'a String>> for i128 {
    fn try_convert_from(value: Option<&'a String>) -> (res: Result<i128, Error>)
        ensures
            match value {
                Some(s) => {
                    &&& res is Ok <==> spec_parse_in(s@, true, i128::MIN as int, i128::MAX as int) is Some
                    &&& res is Ok ==> spec_parse_in(s@, true, i128::MIN as int, i128::MAX as int) == Some(res->Ok_0 as int)
                    &&& res is Err ==> res->Err_0.is_convert_error(s@)
                },
                None => res is Err && res->Err_0.is_param_missing(),
            },
    {
        match value {
            Some(value) => <i128 as TryConvertFrom<&'a String>>::try_convert_from(value),
            None => Err(Error::param_not_exist()),
        }
    }
}

impl<'a> TryConvertFrom<&'a String> for isize {
    fn try_convert_from(value: &'a String) -> (res: Result<isize, Error>)
        ensures
            res is Ok <==> spec_parse_in(value@, true, isize::MIN as int, isize::MAX as int) is Some,
            res is Ok ==> spec_parse_in(value@, true, isize::MIN as int, isize::MAX as int) == Some(res->Ok_0 as int),
            res is Err ==> res->Err_0.is_convert_error(value@),
    {
        match parse_signed(value.as_str(), isize::MIN as i128, isize::MAX as i128) {
            Ok(v) => Ok(v as isize),
            Err(_) => Err(Error::convert_error(value, "isize")),
        }
    }
}

impl<'a> TryConvertFrom<Option<&'a String>> for isize {
    fn try_convert_from(value: Option<&'a String>) -> (res: Result<isize, Error>)
        ensures
            match value {
                Some(s) => {
                    &&& res is Ok <==> spec_parse_in(s@, true, isize::MIN as int, isize::MAX as int) is Some
                    &&& res is Ok ==> spec_parse_in(s@, true, isize::MIN as int, isize::MAX as int) == Some(res->Ok_0 as int)
                    &&& res is Err ==> res->Err_0.is_convert_error(s@)
                },
                None => res is Err && res->Err_0.is_param_missing(),
            },
    {
        match value {
            Some(value) => <isize as TryConvertFrom<&'a String>>::try_convert_from(value),
            None => Err(Error::param_not_exist()),
        }
    }
}

impl<'a> TryConvertFrom<&'a String> for u8 {
    fn try_convert_from(value: &'a String) -> (res: Result<u8, Error>)
        ensures
            res is Ok <==> spec_parse_in(value@, false, 0, u8::MAX as int) is Some,
            res is Ok ==> spec_parse_in(value@, false, 0, u8::MAX as int) == Some(res->Ok_0 as int),
            res is Err ==> res->Err_0.is_convert_error(value@),
    {
        match parse_unsigned(value.as_str(), u8::MAX as u128) {
            Ok(v) => Ok(v as u8),
            Err(_) => Err(Error::convert_error(value, "u8")),
        }
    }
}

impl<'a> TryConvertFrom<Option<&'a String>> for u8 {
    fn try_convert_from(value: Option<&'a String>) -> (res: Result<u8, Error>)
        ensures
            match value {
                Some(s) => {
                    &&& res is Ok <==> spec_parse_in(s@, false, 0, u8::MAX as int) is Some
                    &&& res is Ok ==> spec_parse_in(s@, false, 0, u8::MAX as int) == Some(res->Ok_0 as int)
                    &&& res is Err ==> res->Err_0.is_convert_error(s@)
                },
                None => res is Err && res->Err_0.is_param_missing(),
            },
    {
        match value {
            Some(value) => <u8 as TryConvertFrom<&'a String>>::try_convert_from(value),
            None => Err(Error::param_not_exist()),
        }
    }
}

impl<'a> TryConvertFrom<&'a String> for u16 {
    fn try_convert_from(value: &'a String) -> (res: Result<u16, Error>)
        ensures
            res is Ok <==> spec_parse_in(value@, false, 0, u16::MAX as int) is Some,
            res is Ok ==> spec_parse_in(value@, false, 0, u16::MAX as int) == Some(res->Ok_0 as int),
            res is Err ==> res->Err_0.is_convert_error(value@),
    {
        match parse_unsigned(value.as_str(), u16::MAX as u128) {
            Ok(v) => Ok(v as u16),
            Err(_) => Err(Error::convert_error(value, "u16")),
        }
    }
}

impl<'a> TryConvertFrom<Option<&'a String>> for u16 {
    fn try_convert_from(value: Option<&'a String>) -> (res: Result<u16, Error>)
        ensures
            match value {
                Some(s) => {
                    &&& res is Ok <==> spec_parse_in(s@, false, 0, u16::MAX as int) is Some
                    &&& res is Ok ==> spec_parse_in(s@, false, 0, u16::MAX as int) == Some(res->Ok_0 as int)
                    &&& res is Err ==> res->Err_0.is_convert_error(s@)
                },
                None => res is Err && res->Err_0.is_param_missing(),
            },
    {
        match value {
            Some(value) => <u16 as TryConvertFrom<&'a String>>::try_convert_from(value),
            None => Err(Error::param_not_exist()),
        }
    }
}

impl<'a> TryConvertFrom<&'a String> for u32 {
    fn try_convert_from(value: &'a String) -> (res: Result<u32, Error>)
        ensures
            res is Ok <==> spec_parse_in(value@, false, 0, u32::MAX as int) is Some,
            res is Ok ==> spec_parse_in(value@, false, 0, u32::MAX as int) == Some(res->Ok_0 as int),
            res is Err ==> res->Err_0.is_convert_error(value@),
    {
        match parse_unsigned(value.as_str(), u32::MAX as u128) {
            Ok(v) => Ok(v as u32),
            Err(_) => Err(Error::convert_error(value, "u32")),
        }
    }
}

impl<'a> TryConvertFrom<Option<&'a String>> for u32 {
    fn try_convert_from(value: Option<&'a String>) -> (res: Result<u32, Error>)
        ensures
            match value {
                Some(s) => {
                    &&& res is Ok <==> spec_parse_in(s@, false, 0, u32::MAX as int) is Some
                    &&& res is Ok ==> spec_parse_in(s@, false, 0, u32::MAX as int) == Some(res->Ok_0 as int)
                    &&& res is Err ==> res->Err_0.is_convert_error(s@)
                },
                None => res is Err && res->Err_0.is_param_missing(),
            },
    {
        match value {
            Some(value) => <u32 as TryConvertFrom<&'a String>>::try_convert_from(value),
            None => Err(Error::param_not_exist()),
        }
    }
}

impl<'a> TryConvertFrom<&'a String> for u64 {
    fn try_convert_from(value: &'a String) -> (res: Result<u64, Error>)
        ensures
            res is Ok <==> spec_parse_in(value@, false, 0, u64::MAX as int) is Some,
            res is Ok ==> spec_parse_in(value@, false, 0, u64::MAX as int) == Some(res->Ok_0 as int),
            res is Err ==> res->Err_0.is_convert_error(value@),
    {
        match parse_unsigned(value.as_str(), u64::MAX as u128) {
            Ok(v) => Ok(v as u64),
            Err(_) => Err(Error::convert_error(value, "u64")),
        }
    }
}

impl<'a> TryConvertFrom<Option<&'a String>> for u64 {
    fn try_convert_from(value: Option<&'a String>) -> (res: Result<u64, Error>)
        ensures
            match value {
                Some(s) => {
                    &&& res is Ok <==> spec_parse_in(s@, false, 0, u64::MAX as int) is Some
                    &&& res is Ok ==> spec_parse_in(s@, false, 0, u64::MAX as int) == Some(res->Ok_0 as int)
                    &&& res is Err ==> res->Err_0.is_convert_error(s@)
                },
                None => res is Err && res->Err_0.is_param_missing(),
            },
    {
        match value {
            Some(value) => <u64 as TryConvertFrom<&'a String>>::try_convert_from(value),
            None => Err(Error::param_not_exist()),
        }
    }
}

impl<'a> TryConvertFrom<&'a String> for u128 {
    fn try_convert_from(value: &'a String) -> (res: Result<u128, Error>)
        ensures
            res is Ok <==> spec_parse_in(value@, false, 0, u128::MAX as int) is Some,
            res is Ok ==> spec_parse_in(value@, false, 0, u128::MAX as int) == Some(res->Ok_0 as int),
            res is Err ==> res->Err_0.is_convert_error(value@),
    {
        match parse_unsigned(value.as_str(), u128::MAX as u128) {
            Ok(v) => Ok(v as u128),
            Err(_) => Err(Error::convert_error(value, "u128")),
        }
    }
}

impl<'a> TryConvertFrom<Option<&'a String>> for u128 {
    fn try_convert_from(value: Option<&'a String>) -> (res: Result<u128, Error>)
        ensures
            match value {
                Some(s) => {
                    &&& res is Ok <==> spec_parse_in(s@, false, 0, u128::MAX as int) is Some
                    &&& res is Ok ==> spec_parse_in(s@, false, 0, u128::MAX as int) == Some(res->Ok_0 as int)
                    &&& res is Err ==> res->Err_0.is_convert_error(s@)
                },
                None => res is Err && res->Err_0.is_param_missing(),
            },
    {
        match value {
            Some(value) => <u128 as TryConvertFrom<&'a String>>::try_convert_from(value),
            None => Err(Error::param_not_exist()),
        }
    }
}

impl<'a> TryConvertFrom<&'a String> for usize {
    fn try_convert_from(value: &'a String) -> (res: Result<usize, Error>)
        ensures
            res is Ok <==> spec_parse_in(value@, false, 0, usize::MAX as int) is Some,
            res is Ok ==> spec_parse_in(value@, false, 0, usize::MAX as int) == Some(res->Ok_0 as int),
            res is Err ==> res->Err_0.is_convert_error(value@),
    {
        match parse_unsigned(value.as_str(), usize::MAX as u128) {
            Ok(v) => Ok(v as usize),
            Err(_) => Err(Error::convert_error(value, "usize")),
        }
    }
}

impl<'a> TryConvertFrom<Option<&'a String>> for usize {
    fn try_convert_from(value: Option<&'a String>) -> (res: Result<usize, Error>)
        ensures
            match value {
                Some(s) => {
                    &&& res is Ok <==> spec_parse_in(s@, false, 0, usize::MAX as int) is Some
                    &&& res is Ok ==> spec_parse_in(s@, false, 0, usize::MAX as int) == Some(res->Ok_0 as int)
                    &&& res is Err ==> res->Err_0.is_convert_error(s@)
                },
                None => res is Err && res->Err_0.is_param_missing(),
            },
    {
        match value {
            Some(value) => <usize as TryConvertFrom<&'a String>>::try_convert_from(value),
            None => Err(Error::param_not_exist()),
        }
    }
}

/// The decimal digits of `n`.
pub open spec fn decimal(n: nat) -> Seq<char>
    decreases n,
{
    if n < 10 {
        seq![('0' as nat + n) as char]
    } else {
        decimal(n / 10).push(('0' as nat + n % 10) as char)
    }
}

fn push_decimal(out: &mut Vec<char>, n: usize)
    ensures
        final(out)@ == old(out)@ + decimal(n as nat),
    decreases n,
{
    if n >= 10 {
        push_decimal(out, n / 10);
    }
    let d = (n % 10) as u8;
    out.push(('0' as u8 + d) as char);
    assert(out@ =~= old(out)@ + decimal(n as nat));
}

/// The decimal text of `n`.
pub fn decimal_string(n: usize) -> (res: String)
    ensures
        res@ == decimal(n as nat),
{
    let mut out: Vec<char> = Vec::new();
    push_decimal(&mut out, n);
    assert(out@ =~= decimal(n as nat));
    string_from_chars(out.as_slice())
}

proof fn lemma_decimal_digits(n: nat)
    ensures
        all_digits(decimal(n)),
        digits_value(decimal(n)) == n,
        decimal(n).len() >= 1,
    decreases n,
{
    if n >= 10 {
        lemma_decimal_digits(n / 10);
        let s = decimal(n);
        assert(s.drop_last() =~= decimal(n / 10));
        assert((n / 10) * 10 + n % 10 == n) by (nonlinear_arith);
        assert(s.last() == ('0' as nat + n % 10) as char);
        assert((s.last() as nat - '0' as nat) as nat == n % 10);
        assert(digits_value(s) == digits_value(s.drop_last()) * 10 + (s.last() as nat - '0' as nat) as nat);
        assert(digits_value(s.drop_last()) == n / 10);
        let q = n / 10;
        let r = n % 10;
        assert(q * 10 + r == n) by (nonlinear_arith)
            requires
                q == n / 10,
                r == n % 10,
        ;
        assert(digits_value(s) == n);
        assert forall|i: int| 0 <= i < s.len() implies is_digit(#[trigger] s[i]) by {
            if i < s.len() - 1 {
                assert(s[i] == decimal(n / 10)[i]);
            }
        }
    } else {
        let s = decimal(n);
        assert(s.drop_last() =~= Seq::<char>::empty());
        assert(digits_value(s.drop_last()) == 0);
        assert((s.last() as nat - '0' as nat) as nat == n);
        assert(digits_value(s) == digits_value(s.drop_last()) * 10 + (s.last() as nat - '0' as nat) as nat);
    }
}

/// The decimal text the library writes for a number reads back as that
/// number, whether read as signed or unsigned.
pub proof fn law_decimal_roundtrip(n: nat)
    ensures
        spec_parse_int(decimal(n), false) == Some(n as int),
        spec_parse_int(decimal(n), true) == Some(n as int),
{
    lemma_decimal_digits(n);
    let s = decimal(n);
    assert(is_digit(s[0]));
}

} // verus!
