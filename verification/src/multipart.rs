//! Multipart form data as handlers receive it: parts, conversions of parts
//! into handler parameters, and the boundary table of the body scanner.
use crate::convert::{
    parse_bool, parse_signed, parse_unsigned, spec_int_error_text, spec_int_scan, spec_parse_bool,
    TryConvertFrom,
};
use crate::error::{BeforeHandlerError, Error, MultipartError, ParseHandlerParamError};
use crate::request::{HttpRequest, RequestBody, TryFromRequest};
use std::collections::HashMap;
use vstd::prelude::*;

verus! {

/// The parts of a multipart body, by field name.
pub type MultipartDataMap = HashMap<String, Vec<Part>>;

/// A type that a whole multipart body can become (usually derived).
pub trait TryFromMultipartDataMap: Sized {
    fn try_from_multipart_data_map(data: &mut MultipartDataMap) -> Result<Self, Error>;
}

/// A file that arrived in a multipart body, kept on disk under
/// `temp_path`.
#[derive(Debug)]
pub struct MultiPartFile {
    pub file_name: Option<String>,
    pub temp_path: String,
    pub mime_type: Option<String>,
}

/// One part of a multipart body: a text field or a file.
#[derive(Debug)]
pub enum Part {
    Lit(String),
    File(MultiPartFile),
}

/// A type that one multipart part can become.
pub trait TryFromPart: Sized {
    fn try_from_part(part: Part) -> Result<Self, Error>;
}

/// The text of the error for a part that is a file where text is wanted.
pub open spec fn not_text_message(target: Seq<char>) -> Seq<char> {
    target + " not compatiable to transform part to MultiPartFile"@
}

/// The text of the error for a part that is not `true` or `false`.
pub open spec fn bool_error_text() -> Seq<char> {
    "provided string was not `true` or `false`"@
}

impl TryFromPart for String {
    fn try_from_part(part: Part) -> (res: Result<String, Error>)
        ensures
            match part {
                Part::Lit(l) => res is Ok && res->Ok_0@ == l@,
                Part::File(_) => res is Err && res->Err_0.is_incompatible_part(not_text_message("String"@)),
            },
    {
        match part {
            Part::Lit(l) => Ok(l),
            Part::File(_) => {
                let text = "String not compatiable to transform part to MultiPartFile".to_string();
                proof {
                    reveal_strlit("String not compatiable to transform part to MultiPartFile");
                    reveal_strlit("String");
                    reveal_strlit(" not compatiable to transform part to MultiPartFile");
                    assert(text@ =~= not_text_message("String"@));
                }
                Err(Error::before_handler_multipart_incompatible_type(text))
            },
        }
    }
}

impl TryFromPart for bool {
    fn try_from_part(part: Part) -> (res: Result<bool, Error>)
        ensures
            match part {
                Part::Lit(l) => match spec_parse_bool(l@) {
                    Some(b) => res == Ok::<bool, Error>(b),
                    None => res is Err && res->Err_0.is_unparsable_part(bool_error_text()),
                },
                Part::File(_) => res is Err && res->Err_0.is_incompatible_part(not_text_message("bool"@)),
            },
    {
        match part {
            Part::Lit(l) => match parse_bool(l.as_str()) {
                Some(b) => Ok(b),
                None => {
                    let text = "provided string was not `true` or `false`".to_string();
                    Err(Error::before_handler_multipart_can_not_parse_from_part(text))
                },
            },
            Part::File(_) => {
                let text = "bool not compatiable to transform part to MultiPartFile".to_string();
                proof {
                    reveal_strlit("bool not compatiable to transform part to MultiPartFile");
                    reveal_strlit("bool");
                    reveal_strlit(" not compatiable to transform part to MultiPartFile");
                    assert(text@ =~= not_text_message("bool"@));
                }
                Err(Error::before_handler_multipart_incompatible_type(text))
            },
        }
    }
}

impl TryFromPart for i8 {
    fn try_from_part(part: Part) -> (res: Result<i8, Error>)
        ensures
            match part {
                Part::Lit(l) => match spec_int_scan(l@, true, (-(i8::MIN as int)) as nat, i8::MAX as nat) {
                    Ok(v) => res is Ok && res->Ok_0 as int == v,
                    Err(k) => res is Err && res->Err_0.is_unparsable_part(spec_int_error_text(k)),
                },
                Part::File(_) => res is Err && res->Err_0.is_incompatible_part(not_text_message("i8"@)),
            },
    {
        match part {
            Part::Lit(l) => {
                proof {
                    crate::convert::lemma_int_scan_agrees(l@, true, (-(i8::MIN as int)) as nat, i8::MAX as nat);
                }
                match parse_signed(l.as_str(), i8::MIN as i128, i8::MAX as i128) {
                    Ok(v) => Ok(v as i8),
                    Err(k) => Err(Error::before_handler_multipart_can_not_parse_from_part(k.message())),
                }
            },
            Part::File(_) => {
                let text = "i8 not compatiable to transform part to MultiPartFile".to_string();
                proof {
                    reveal_strlit("i8 not compatiable to transform part to MultiPartFile");
                    reveal_strlit("i8");
                    reveal_strlit(" not compatiable to transform part to MultiPartFile");
                    assert(text@ =~= not_text_message("i8"@));
                }
                Err(Error::before_handler_multipart_incompatible_type(text))
            },
        }
    }
}

impl TryFromPart for i16 {
    fn try_from_part(part: Part) -> (res: Result<i16, Error>)
        ensures
            match part {
                Part::Lit(l) => match spec_int_scan(l@, true, (-(i16::MIN as int)) as nat, i16::MAX as nat) {
                    Ok(v) => res is Ok && res->Ok_0 as int == v,
                    Err(k) => res is Err && res->Err_0.is_unparsable_part(spec_int_error_text(k)),
                },
                Part::File(_) => res is Err && res->Err_0.is_incompatible_part(not_text_message("i16"@)),
            },
    {
        match part {
            Part::Lit(l) => {
                proof {
                    crate::convert::lemma_int_scan_agrees(l@, true, (-(i16::MIN as int)) as nat, i16::MAX as nat);
                }
                match parse_signed(l.as_str(), i16::MIN as i128, i16::MAX as i128) {
                    Ok(v) => Ok(v as i16),
                    Err(k) => Err(Error::before_handler_multipart_can_not_parse_from_part(k.message())),
                }
            },
            Part::File(_) => {
                let text = "i16 not compatiable to transform part to MultiPartFile".to_string();
                proof {
                    reveal_strlit("i16 not compatiable to transform part to MultiPartFile");
                    reveal_strlit("i16");
                    reveal_strlit(" not compatiable to transform part to MultiPartFile");
                    assert(text@ =~= not_text_message("i16"@));
                }
                Err(Error::before_handler_multipart_incompatible_type(text))
            },
        }
    }
}

impl TryFromPart for i32 {
    fn try_from_part(part: Part) -> (res: Result<i32, Error>)
        ensures
            match part {
                Part::Lit(l) => match spec_int_scan(l@, true, (-(i32::MIN as int)) as nat, i32::MAX as nat) {
                    Ok(v) => res is Ok && res->Ok_0 as int == v,
                    Err(k) => res is Err && res->Err_0.is_unparsable_part(spec_int_error_text(k)),
                },
                Part::File(_) => res is Err && res->Err_0.is_incompatible_part(not_text_message("i32"@)),
            },
    {
        match part {
            Part::Lit(l) => {
                proof {
                    crate::convert::lemma_int_scan_agrees(l@, true, (-(i32::MIN as int)) as nat, i32::MAX as nat);
                }
                match parse_signed(l.as_str(), i32::MIN as i128, i32::MAX as i128) {
                    Ok(v) => Ok(v as i32),
                    Err(k) => Err(Error::before_handler_multipart_can_not_parse_from_part(k.message())),
                }
            },
            Part::File(_) => {
                let text = "i32 not compatiable to transform part to MultiPartFile".to_string();
                proof {
                    reveal_strlit("i32 not compatiable to transform part to MultiPartFile");
                    reveal_strlit("i32");
                    reveal_strlit(" not compatiable to transform part to MultiPartFile");
                    assert(text@ =~= not_text_message("i32"@));
                }
                Err(Error::before_handler_multipart_incompatible_type(text))
            },
        }
    }
}

impl TryFromPart for i64 {
    fn try_from_part(part: Part) -> (res: Result<i64, Error>)
        ensures
            match part {
                Part::Lit(l) => match spec_int_scan(l@, true, (-(i64::MIN as int)) as nat, i64::MAX as nat) {
                    Ok(v) => res is Ok && res->Ok_0 as int == v,
                    Err(k) => res is Err && res->Err_0.is_unparsable_part(spec_int_error_text(k)),
                },
                Part::File(_) => res is Err && res->Err_0.is_incompatible_part(not_text_message("i64"@)),
            },
    {
        match part {
            Part::Lit(l) => {
                proof {
                    crate::convert::lemma_int_scan_agrees(l@, true, (-(i64::MIN as int)) as nat, i64::MAX as nat);
                }
                match parse_signed(l.as_str(), i64::MIN as i128, i64::MAX as i128) {
                    Ok(v) => Ok(v as i64),
                    Err(k) => Err(Error::before_handler_multipart_can_not_parse_from_part(k.message())),
                }
            },
            Part::File(_) => {
                let text = "i64 not compatiable to transform part to MultiPartFile".to_string();
                proof {
                    reveal_strlit("i64 not compatiable to transform part to MultiPartFile");
                    reveal_strlit("i64");
                    reveal_strlit(" not compatiable to transform part to MultiPartFile");
                    assert(text@ =~= not_text_message("i64"@));
                }
                Err(Error::before_handler_multipart_incompatible_type(text))
            },
        }
    }
}

impl TryFromPart for i128 {
    fn try_from_part(part: Part) -> (res: Result<i128, Error>)
        ensures
            match part {
                Part::Lit(l) => match spec_int_scan(l@, true, (-(i128::MIN as int)) as nat, i128::MAX as nat) {
                    Ok(v) => res is Ok && res->Ok_0 as int == v,
                    Err(k) => res is Err && res->Err_0.is_unparsable_part(spec_int_error_text(k)),
                },
                Part::File(_) => res is Err && res->Err_0.is_incompatible_part(not_text_message("i128"@)),
            },
    {
        match part {
            Part::Lit(l) => {
                proof {
                    crate::convert::lemma_int_scan_agrees(l@, true, (-(i128::MIN as int)) as nat, i128::MAX as nat);
                }
                match parse_signed(l.as_str(), i128::MIN as i128, i128::MAX as i128) {
                    Ok(v) => Ok(v as i128),
                    Err(k) => Err(Error::before_handler_multipart_can_not_parse_from_part(k.message())),
                }
            },
            Part::File(_) => {
                let text = "i128 not compatiable to transform part to MultiPartFile".to_string();
                proof {
                    reveal_strlit("i128 not compatiable to transform part to MultiPartFile");
                    reveal_strlit("i128");
                    reveal_strlit(" not compatiable to transform part to MultiPartFile");
                    assert(text@ =~= not_text_message("i128"@));
                }
                Err(Error::before_handler_multipart_incompatible_type(text))
            },
        }
    }
}

impl TryFromPart for isize {
    fn try_from_part(part: Part) -> (res: Result<isize, Error>)
        ensures
            match part {
                Part::Lit(l) => match spec_int_scan(l@, true, (-(isize::MIN as int)) as nat, isize::MAX as nat) {
                    Ok(v) => res is Ok && res->Ok_0 as int == v,
                    Err(k) => res is Err && res->Err_0.is_unparsable_part(spec_int_error_text(k)),
                },
                Part::File(_) => res is Err && res->Err_0.is_incompatible_part(not_text_message("isize"@)),
            },
    {
        match part {
            Part::Lit(l) => {
                proof {
                    crate::convert::lemma_int_scan_agrees(l@, true, (-(isize::MIN as int)) as nat, isize::MAX as nat);
                }
                match parse_signed(l.as_str(), isize::MIN as i128, isize::MAX as i128) {
                    Ok(v) => Ok(v as isize),
                    Err(k) => Err(Error::before_handler_multipart_can_not_parse_from_part(k.message())),
                }
            },
            Part::File(_) => {
                let text = "isize not compatiable to transform part to MultiPartFile".to_string();
                proof {
                    reveal_strlit("isize not compatiable to transform part to MultiPartFile");
                    reveal_strlit("isize");
                    reveal_strlit(" not compatiable to transform part to MultiPartFile");
                    assert(text@ =~= not_text_message("isize"@));
                }
                Err(Error::before_handler_multipart_incompatible_type(text))
            },
        }
    }
}

impl TryFromPart for u8 {
    fn try_from_part(part: Part) -> (res: Result<u8, Error>)
        ensures
            match part {
                Part::Lit(l) => match spec_int_scan(l@, false, 0, u8::MAX as nat) {
                    Ok(v) => res is Ok && res->Ok_0 as int == v,
                    Err(k) => res is Err && res->Err_0.is_unparsable_part(spec_int_error_text(k)),
                },
                Part::File(_) => res is Err && res->Err_0.is_incompatible_part(not_text_message("u8"@)),
            },
    {
        match part {
            Part::Lit(l) => {
                proof {
                    crate::convert::lemma_int_scan_agrees(l@, false, 0, u8::MAX as nat);
                }
                match parse_unsigned(l.as_str(), u8::MAX as u128) {
                    Ok(v) => Ok(v as u8),
                    Err(k) => Err(Error::before_handler_multipart_can_not_parse_from_part(k.message())),
                }
            },
            Part::File(_) => {
                let text = "u8 not compatiable to transform part to MultiPartFile".to_string();
                proof {
                    reveal_strlit("u8 not compatiable to transform part to MultiPartFile");
                    reveal_strlit("u8");
                    reveal_strlit(" not compatiable to transform part to MultiPartFile");
                    assert(text@ =~= not_text_message("u8"@));
                }
                Err(Error::before_handler_multipart_incompatible_type(text))
            },
        }
    }
}

impl TryFromPart for u16 {
    fn try_from_part(part: Part) -> (res: Result<u16, Error>)
        ensures
            match part {
                Part::Lit(l) => match spec_int_scan(l@, false, 0, u16::MAX as nat) {
                    Ok(v) => res is Ok && res->Ok_0 as int == v,
                    Err(k) => res is Err && res->Err_0.is_unparsable_part(spec_int_error_text(k)),
                },
                Part::File(_) => res is Err && res->Err_0.is_incompatible_part(not_text_message("u16"@)),
            },
    {
        match part {
            Part::Lit(l) => {
                proof {
                    crate::convert::lemma_int_scan_agrees(l@, false, 0, u16::MAX as nat);
                }
                match parse_unsigned(l.as_str(), u16::MAX as u128) {
                    Ok(v) => Ok(v as u16),
                    Err(k) => Err(Error::before_handler_multipart_can_not_parse_from_part(k.message())),
                }
            },
            Part::File(_) => {
                let text = "u16 not compatiable to transform part to MultiPartFile".to_string();
                proof {
                    reveal_strlit("u16 not compatiable to transform part to MultiPartFile");
                    reveal_strlit("u16");
                    reveal_strlit(" not compatiable to transform part to MultiPartFile");
                    assert(text@ =~= not_text_message("u16"@));
                }
                Err(Error::before_handler_multipart_incompatible_type(text))
            },
        }
    }
}

impl TryFromPart for u32 {
    fn try_from_part(part: Part) -> (res: Result<u32, Error>)
        ensures
            match part {
                Part::Lit(l) => match spec_int_scan(l@, false, 0, u32::MAX as nat) {
                    Ok(v) => res is Ok && res->Ok_0 as int == v,
                    Err(k) => res is Err && res->Err_0.is_unparsable_part(spec_int_error_text(k)),
                },
                Part::File(_) => res is Err && res->Err_0.is_incompatible_part(not_text_message("u32"@)),
            },
    {
        match part {
            Part::Lit(l) => {
                proof {
                    crate::convert::lemma_int_scan_agrees(l@, false, 0, u32::MAX as nat);
                }
                match parse_unsigned(l.as_str(), u32::MAX as u128) {
                    Ok(v) => Ok(v as u32),
                    Err(k) => Err(Error::before_handler_multipart_can_not_parse_from_part(k.message())),
                }
            },
            Part::File(_) => {
                let text = "u32 not compatiable to transform part to MultiPartFile".to_string();
                proof {
                    reveal_strlit("u32 not compatiable to transform part to MultiPartFile");
                    reveal_strlit("u32");
                    reveal_strlit(" not compatiable to transform part to MultiPartFile");
                    assert(text@ =~= not_text_message("u32"@));
                }
                Err(Error::before_handler_multipart_incompatible_type(text))
            },
        }
    }
}

impl TryFromPart for u64 {
    fn try_from_part(part: Part) -> (res: Result<u64, Error>)
        ensures
            match part {
                Part::Lit(l) => match spec_int_scan(l@, false, 0, u64::MAX as nat) {
                    Ok(v) => res is Ok && res->Ok_0 as int == v,
                    Err(k) => res is Err && res->Err_0.is_unparsable_part(spec_int_error_text(k)),
                },
                Part::File(_) => res is Err && res->Err_0.is_incompatible_part(not_text_message("u64"@)),
            },
    {
        match part {
            Part::Lit(l) => {
                proof {
                    crate::convert::lemma_int_scan_agrees(l@, false, 0, u64::MAX as nat);
                }
                match parse_unsigned(l.as_str(), u64::MAX as u128) {
                    Ok(v) => Ok(v as u64),
                    Err(k) => Err(Error::before_handler_multipart_can_not_parse_from_part(k.message())),
                }
            },
            Part::File(_) => {
                let text = "u64 not compatiable to transform part to MultiPartFile".to_string();
                proof {
                    reveal_strlit("u64 not compatiable to transform part to MultiPartFile");
                    reveal_strlit("u64");
                    reveal_strlit(" not compatiable to transform part to MultiPartFile");
                    assert(text@ =~= not_text_message("u64"@));
                }
                Err(Error::before_handler_multipart_incompatible_type(text))
            },
        }
    }
}

impl TryFromPart for u128 {
    fn try_from_part(part: Part) -> (res: Result<u128, Error>)
        ensures
            match part {
                Part::Lit(l) => match spec_int_scan(l@, false, 0, u128::MAX as nat) {
                    Ok(v) => res is Ok && res->Ok_0 as int == v,
                    Err(k) => res is Err && res->Err_0.is_unparsable_part(spec_int_error_text(k)),
                },
                Part::File(_) => res is Err && res->Err_0.is_incompatible_part(not_text_message("u128"@)),
            },
    {
        match part {
            Part::Lit(l) => {
                proof {
                    crate::convert::lemma_int_scan_agrees(l@, false, 0, u128::MAX as nat);
                }
                match parse_unsigned(l.as_str(), u128::MAX as u128) {
                    Ok(v) => Ok(v as u128),
                    Err(k) => Err(Error::before_handler_multipart_can_not_parse_from_part(k.message())),
                }
            },
            Part::File(_) => {
                let text = "u128 not compatiable to transform part to MultiPartFile".to_string();
                proof {
                    reveal_strlit("u128 not compatiable to transform part to MultiPartFile");
                    reveal_strlit("u128");
                    reveal_strlit(" not compatiable to transform part to MultiPartFile");
                    assert(text@ =~= not_text_message("u128"@));
                }
                Err(Error::before_handler_multipart_incompatible_type(text))
            },
        }
    }
}

impl TryFromPart for usize {
    fn try_from_part(part: Part) -> (res: Result<usize, Error>)
        ensures
            match part {
                Part::Lit(l) => match spec_int_scan(l@, false, 0, usize::MAX as nat) {
                    Ok(v) => res is Ok && res->Ok_0 as int == v,
                    Err(k) => res is Err && res->Err_0.is_unparsable_part(spec_int_error_text(k)),
                },
                Part::File(_) => res is Err && res->Err_0.is_incompatible_part(not_text_message("usize"@)),
            },
    {
        match part {
            Part::Lit(l) => {
                proof {
                    crate::convert::lemma_int_scan_agrees(l@, false, 0, usize::MAX as nat);
                }
                match parse_unsigned(l.as_str(), usize::MAX as u128) {
                    Ok(v) => Ok(v as usize),
                    Err(k) => Err(Error::before_handler_multipart_can_not_parse_from_part(k.message())),
                }
            },
            Part::File(_) => {
                let text = "usize not compatiable to transform part to MultiPartFile".to_string();
                proof {
                    reveal_strlit("usize not compatiable to transform part to MultiPartFile");
                    reveal_strlit("usize");
                    reveal_strlit(" not compatiable to transform part to MultiPartFile");
                    assert(text@ =~= not_text_message("usize"@));
                }
                Err(Error::before_handler_multipart_incompatible_type(text))
            },
        }
    }
}

impl TryFromPart for MultiPartFile {
    fn try_from_part(part: Part) -> (res: Result<MultiPartFile, Error>)
        ensures
            match part {
                Part::File(f) => res == Ok::<MultiPartFile, Error>(f),
                Part::Lit(_) => res is Err && res->Err_0.is_incompatible_part("this is not a file"@),
            },
    {
        match part {
            Part::File(f) => Ok(f),
            Part::Lit(_) => Err(Error::before_handler_multipart_incompatible_type("this is not a file".to_string())),
        }
    }
}

/// A required field: the last part sent under the name, converted.
impl<T: TryFromPart> TryConvertFrom<Option<Vec<Part>>> for T {
    fn try_convert_from(value: Option<Vec<Part>>) -> (res: Result<T, Error>)
        ensures
            value is None ==> res is Err && res->Err_0.is_field_missing(),
            value matches Some(v) && v@.len() == 0 ==> res is Err && res->Err_0.is_incompatible_part(Seq::empty()),
            value matches Some(v) ==> (v@.len() > 0 ==> call_ensures(T::try_from_part, (v@.last(),), res)),
    {
        match value {
            Some(mut value) => match value.pop() {
                Some(last) => T::try_from_part(last),
                None => Err(Error::before_handler_multipart_incompatible_type(String::new())),
            },
            None => Err(Error::before_handler_multipart_field_not_exist()),
        }
    }
}

/// An optional field: absent when nothing was sent under the name.
impl<T: TryFromPart> TryConvertFrom<Option<Vec<Part>>> for Option<T> {
    fn try_convert_from(value: Option<Vec<Part>>) -> (res: Result<Option<T>, Error>)
        ensures
            exists|r: Result<T, Error>|
                call_ensures(<T as TryConvertFrom<Option<Vec<Part>>>>::try_convert_from, (value,), r) && res
                    == match r {
                    Ok(x) => Ok::<Option<T>, Error>(Some(x)),
                    Err(e) => if e.is_field_missing() {
                        Ok::<Option<T>, Error>(None)
                    } else {
                        Err::<Option<T>, Error>(e)
                    },
                },
    {
        match <T as TryConvertFrom<Option<Vec<Part>>>>::try_convert_from(value) {
            Ok(r) => Ok(Some(r)),
            Err(e) => match e {
                Error::BeforeHandler(
                    BeforeHandlerError::ParseHandlerParamError(
                        ParseHandlerParamError::MultipartError(MultipartError::FieldNotExist),
                    ),
                ) => Ok(None),
                _ => Err(e),
            },
        }
    }
}

/// A repeated field: every part sent under the name that converts, in the
/// order sent; none when nothing was sent.
/// The values of the results that are `Ok`, in order.
pub open spec fn oks<T>(rs: Seq<Result<T, Error>>) -> Seq<T>
    decreases rs.len(),
{
    if rs.len() == 0 {
        Seq::empty()
    } else {
        let prev = oks(rs.drop_last());
        match rs.last() {
            Ok(x) => prev.push(x),
            Err(_) => prev,
        }
    }
}

impl<T: TryFromPart> TryConvertFrom<Option<Vec<Part>>> for Vec<T> {
    fn try_convert_from(value: Option<Vec<Part>>) -> (res: Result<Vec<T>, Error>)
        ensures
            res is Ok,
            value is None ==> res->Ok_0@.len() == 0,
            value matches Some(v) ==> exists|rs: Seq<Result<T, Error>>|
                {
                    &&& rs.len() == v@.len()
                    &&& forall|i: int| 0 <= i < rs.len() ==> call_ensures(T::try_from_part, (v@[i],), #[trigger] rs[i])
                    &&& res->Ok_0@ == oks(rs)
                },
    {
        match value {
            Some(value) => {
                let ghost hs = value@;
                let n = value.len();
                let mut rest = value;
                let mut stack: Vec<Part> = Vec::new();
                while rest.len() > 0
                    invariant
                        rest@ + stack@.reverse() == hs,
                    decreases rest@.len(),
                {
                    let ghost r0 = rest@;
                    let ghost s0 = stack@;
                    let p = rest.pop().unwrap();
                    stack.push(p);
                    proof {
                        assert(stack@.reverse() =~= seq![p] + s0.reverse());
                        assert(r0 =~= rest@.push(p));
                        assert(rest@ + stack@.reverse() =~= r0 + s0.reverse());
                    }
                }
                assert(rest@ + stack@.reverse() =~= stack@.reverse());
                let mut out: Vec<T> = Vec::new();
                let mut k: usize = 0;
                let ghost mut rs: Seq<Result<T, Error>> = Seq::empty();
                assert(hs.take(0) =~= Seq::<Part>::empty());
                while stack.len() > 0
                    invariant
                        hs.len() == n,
                        k + stack@.len() == n,
                        hs.take(k as int) + stack@.reverse() == hs,
                        rs.len() == k,
                        forall|i: int| 0 <= i < k ==> call_ensures(T::try_from_part, (hs[i],), #[trigger] rs[i]),
                        out@ == oks(rs),
                    decreases stack@.len(),
                {
                    let ghost s0 = stack@;
                    let p = stack.pop().unwrap();
                    proof {
                        assert(s0 =~= stack@.push(p));
                        assert(s0.reverse() =~= seq![p] + stack@.reverse());
                        assert(hs[k as int] == p);
                        assert(hs.take(k + 1) =~= hs.take(k as int).push(p));
                    }
                    let r = T::try_from_part(p);
                    let ghost prev = rs;
                    proof {
                        rs = rs.push(r);
                        assert(rs.drop_last() =~= prev);
                    }
                    match r {
                        Ok(t) => out.push(t),
                        Err(_) => {},
                    }
                    k = k + 1;
                }
                assert(hs.take(k as int) =~= hs);
                Ok(out)
            },
            None => Ok(Vec::new()),
        }
    }
}

/// A handler parameter read from the whole multipart body.
#[derive(Debug)]
pub struct Multipart<T: TryFromMultipartDataMap>(pub T);

impl<T: TryFromMultipartDataMap> Multipart<T> {
    /// The value read from the body.
    pub fn into_inner(self) -> (res: T)
        ensures
            res == self.0,
    {
        self.0
    }
}

impl<'a, T: TryFromMultipartDataMap> TryFromRequest<'a> for Multipart<T> {
    /// Reads the value from the request's multipart body, handing `T` the
    /// request's own part map; a request whose body is not multipart is
    /// refused and left as it was.
    fn try_from_request(req: &'a mut HttpRequest) -> (res: Result<Multipart<T>, Error>)
        ensures
            !(old(req).body matches Some(RequestBody::MultiPart(_))) ==> {
                &&& res is Err
                &&& res->Err_0 matches Error::BeforeHandler(
                    BeforeHandlerError::ParseHandlerParamError(ParseHandlerParamError::BodyNotExist),
                )
                &&& *final(req) == *old(req)
            },
            old(req).body matches Some(RequestBody::MultiPart(_)) ==> exists|
                q: &mut MultipartDataMap,
                r: Result<T, Error>,
            |
                {
                    &&& old(req).body == Some(RequestBody::MultiPart(*q))
                    &&& final(req).body == Some(RequestBody::MultiPart(*final(q)))
                    &&& call_ensures(T::try_from_multipart_data_map, (q,), r)
                    &&& res == match r {
                        Ok(v) => Ok::<Multipart<T>, Error>(Multipart(v)),
                        Err(e) => Err::<Multipart<T>, Error>(e),
                    }
                },
            final(req).head == old(req).head,
            final(req).multi_seg_param == old(req).multi_seg_param,
    {
        match &mut req.body {
            Some(RequestBody::MultiPart(body)) => {
                let r = T::try_from_multipart_data_map(body);
                match r {
                    Ok(v) => Ok(Multipart(v)),
                    Err(e) => Err(e),
                }
            },
            _ => Err(Error::before_handler_incompatible_request_body_type()),
        }
    }
}

impl<T: TryFromMultipartDataMap> std::ops::Deref for Multipart<T> {
    type Target = T;

    fn deref(&self) -> (res: &T)
        ensures
            *res == self.0,
    {
        &self.0
    }
}

/// `b[0..end)` has a border of length `k`: its first `k` bytes are also
/// its last `k`, and `k` is shorter than the whole.
pub open spec fn border_at(b: Seq<u8>, end: int, k: int) -> bool {
    &&& 0 <= k < end
    &&& forall|t: int| 0 <= t < k ==> b[t] == #[trigger] b[end - k + t]
}

/// `k` is the longest border of `b[0..end)`.
pub open spec fn longest_border(b: Seq<u8>, end: int, k: int) -> bool {
    &&& border_at(b, end, k)
    &&& forall|j: int| #[trigger] border_at(b, end, j) ==> j <= k
}

proof fn lemma_border_shrink(b: Seq<u8>, end: int, k: int)
    requires
        border_at(b, end + 1, k),
        k >= 1,
        end + 1 <= b.len(),
    ensures
        border_at(b, end, k - 1),
{
    assert forall|t: int| 0 <= t < k - 1 implies b[t] == #[trigger] b[end - (k - 1) + t] by {
        assert(b[t] == b[end + 1 - k + t]);
    }
}

proof fn lemma_border_inner(b: Seq<u8>, i: int, len: int, k: int)
    requires
        border_at(b, i, len),
        border_at(b, i, k),
        k < len,
        i <= b.len(),
    ensures
        border_at(b, len, k),
{
    assert forall|t: int| 0 <= t < k implies b[t] == #[trigger] b[len - k + t] by {
        assert(b[t] == b[i - k + t]);
        let s = len - k + t;
        assert(b[s] == b[i - len + s]);
    }
}

proof fn lemma_border_outer(b: Seq<u8>, i: int, len: int, k: int)
    requires
        border_at(b, i, len),
        border_at(b, len, k),
        i <= b.len(),
    ensures
        border_at(b, i, k),
{
    assert forall|t: int| 0 <= t < k implies b[t] == #[trigger] b[i - k + t] by {
        assert(b[t] == b[len - k + t]);
        let s = len - k + t;
        assert(b[s] == b[i - len + s]);
    }
}

/// The failure table of the boundary scanner (the prefix function of
/// Knuth, Morris and Pratt): entry `j` is the length of the longest border
/// of `boundary[0..=j]`, for every `j` but the last, whose entry is left 0.
pub fn build_boundary_next_array(boundary: &[u8]) -> (ans: Vec<usize>)
    requires
        boundary@.len() >= 1,
    ensures
        ans@.len() == boundary@.len(),
        forall|j: int| 0 <= j < boundary@.len() - 1 ==> longest_border(boundary@, j + 1, #[trigger] ans@[j] as int),
        ans@[boundary@.len() - 1] == 0,
{
    let n = boundary.len();
    let ghost b = boundary@;
    let mut ans: Vec<usize> = Vec::new();
    while ans.len() < n
        invariant
            ans@.len() <= n,
            forall|j: int| 0 <= j < ans@.len() ==> ans@[j] == 0,
        decreases n - ans@.len(),
    {
        ans.push(0);
    }
    let mut i: usize = 1;
    let mut len: usize = 0;
    proof {
        assert forall|k: int| #[trigger] border_at(b, 2, k) implies k <= 1 by {}
    }
    while i < n - 1
        invariant
            n == b.len(),
            boundary@ == b,
            n >= 1,
            1 <= i <= n,
            i <= n - 1 || (n == 1 && i == 1),
            ans@.len() == n,
            forall|j: int| 0 <= j < i ==> longest_border(b, j + 1, #[trigger] ans@[j] as int),
            forall|j: int| i <= j < n ==> #[trigger] ans@[j] == 0,
            len < i,
            border_at(b, i as int, len as int),
            forall|k: int| #[trigger] border_at(b, i + 1, k) ==> k <= len + 1,
        decreases n - i, len,
    {
        if boundary[i] == boundary[len] {
            proof {
                assert forall|t: int| 0 <= t < len + 1 implies b[t] == #[trigger] b[(i + 1) - (len + 1) + t] by {
                    if t < len {
                        assert(b[t] == b[i - len + t]);
                    }
                }
                assert(border_at(b, i + 1, len + 1));
            }
            len = len + 1;
            ans.set(i, len);
            i = i + 1;
            proof {
                assert(longest_border(b, i as int, len as int));
                assert forall|k: int| #[trigger] border_at(b, i + 1, k) implies k <= len + 1 by {
                    if k >= 1 {
                        lemma_border_shrink(b, i as int, k);
                    }
                }
            }
        } else if len > 0 {
            let next = ans[len - 1];
            proof {
                assert(longest_border(b, len as int, next as int));
                lemma_border_outer(b, i as int, len as int, next as int);
                assert forall|k: int| #[trigger] border_at(b, i + 1, k) implies k <= next + 1 by {
                    if k == len + 1 {
                        assert(b[len as int] == b[(i + 1) - k + len]);
                    }
                    if 1 <= k <= len {
                        lemma_border_shrink(b, i as int, k);
                        lemma_border_inner(b, i as int, len as int, k - 1);
                        assert(border_at(b, len as int, k - 1));
                    }
                }
            }
            len = next;
        } else {
            proof {
                assert forall|k: int| #[trigger] border_at(b, i + 1, k) implies k <= 0 by {
                    if k == 1 {
                        assert(b[0] == b[(i + 1) - 1 + 0]);
                    }
                }
                assert(border_at(b, i + 1, 0));
                assert(longest_border(b, i + 1, 0));
            }
            i = i + 1;
            proof {
                assert forall|k: int| #[trigger] border_at(b, i + 1, k) implies k <= 1 by {
                    if k >= 1 {
                        lemma_border_shrink(b, i as int, k);
                        assert(longest_border(b, i as int, ans@[i - 1] as int));
                    }
                }
            }
        }
    }
    proof {
        if n == 1 {
            assert(longest_border(b, 1, ans@[0] as int));
        }
    }
    ans
}

} // verus!
