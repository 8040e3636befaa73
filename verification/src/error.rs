//! The errors of the framework: those raised before a handler runs (a
//! request that cannot be read, a parameter that cannot be converted) and
//! those raised while a handler's result is written into the response.
use http::header::InvalidHeaderValue;
use serde_json::Error as JsonError;
use std::io::Error as IoError;
use std::str::Utf8Error;
use vstd::prelude::*;

verus! {

/// The error `std::io` operations report.
#[verifier::external_type_specification]
#[verifier::external_body]
pub struct ExIoError(IoError);

/// The error `serde_json` reports for text that is not the JSON expected.
#[verifier::external_type_specification]
#[verifier::external_body]
pub struct ExJsonError(JsonError);

/// The error `http` reports for bytes that cannot be a header value.
#[verifier::external_type_specification]
#[verifier::external_body]
pub struct ExInvalidHeaderValue(InvalidHeaderValue);

/// Errors that occur during low-level body and multipart parsing.
#[derive(Debug)]
pub enum BodyParseError {
    Io(IoError),
    InvalidBoundary,
    UnexpectedEof,
    Utf8(Utf8Error),
    Other(String),
}

/// A parameter whose text is not a value of the type asked for.
#[derive(Debug)]
pub struct ConvertError {
    /// The text that was given.
    pub value: String,
    /// The name of the type it was to become.
    pub target: String,
}

/// A handler parameter that cannot be produced from the request.
#[derive(Debug)]
pub enum ParseHandlerParamError {
    ConvertError(ConvertError),
    ParamNotExist,
    MultipartError(MultipartError),
    BodyNotExist,
}

/// A request that cannot be read.
#[derive(Debug)]
pub enum ParseHttpRequestError {
    ParseBodyError(BodyParseError),
}

/// Errors raised before the handler runs.
#[derive(Debug)]
pub enum BeforeHandlerError {
    ParseHandlerParamError(ParseHandlerParamError),
    ParseHttpRequestError(ParseHttpRequestError),
}

/// A multipart field that is missing or cannot become the type asked for.
#[derive(Debug)]
pub enum MultipartError {
    FieldNotExist,
    CanNotParseFromPart(String),
    IncompatibleType(String),
}

/// Errors raised while a handler's result is written into the response.
#[derive(Debug)]
pub enum ModifierError {
    InvalidHeaderValue,
    IncompatibleBodyType,
    IoError(IoError),
    FileNotExists(String),
}

/// Any error of the framework.
#[derive(Debug)]
#[non_exhaustive]
pub enum Error {
    Unknown,
    AfterHandler(ModifierError),
    BeforeHandler(BeforeHandlerError),
    InvalidJsonStr(JsonError),
}

impl Error {
    /// This error reports that the text `value` could not be converted.
    pub open spec fn is_convert_error(&self, value: Seq<char>) -> bool {
        self matches Error::BeforeHandler(
            BeforeHandlerError::ParseHandlerParamError(ParseHandlerParamError::ConvertError(c)),
        ) && c.value@ == value
    }

    /// This error reports a parameter that was not given.
    pub open spec fn is_param_missing(&self) -> bool {
        self matches Error::BeforeHandler(
            BeforeHandlerError::ParseHandlerParamError(ParseHandlerParamError::ParamNotExist),
        )
    }

    /// This error reports a multipart field that was not sent.
    pub open spec fn is_field_missing(&self) -> bool {
        self matches Error::BeforeHandler(
            BeforeHandlerError::ParseHandlerParamError(
                ParseHandlerParamError::MultipartError(MultipartError::FieldNotExist),
            ),
        )
    }

    /// This error reports a multipart part of the wrong kind, with the
    /// text `text`.
    pub open spec fn is_incompatible_part(&self, text: Seq<char>) -> bool {
        self matches Error::BeforeHandler(
            BeforeHandlerError::ParseHandlerParamError(
                ParseHandlerParamError::MultipartError(MultipartError::IncompatibleType(c)),
            ),
        ) && c@ == text
    }

    /// This error reports a multipart text part that cannot be parsed.
    pub open spec fn is_unparsable_part(&self, text: Seq<char>) -> bool {
        self matches Error::BeforeHandler(
            BeforeHandlerError::ParseHandlerParamError(
                ParseHandlerParamError::MultipartError(MultipartError::CanNotParseFromPart(c)),
            ),
        ) && c@ == text
    }

    /// The text `value` could not become a value of type `target`.
    pub fn convert_error(value: &String, target: &str) -> (res: Self)
        ensures
            res.is_convert_error(value@),
    {
        Error::BeforeHandler(
            BeforeHandlerError::ParseHandlerParamError(
                ParseHandlerParamError::ConvertError(
                    ConvertError { value: value.clone(), target: target.to_string() },
                ),
            ),
        )
    }

    /// A parameter that the handler needs was not given.
    pub fn param_not_exist() -> (res: Self)
        ensures
            res.is_param_missing(),
    {
        Error::BeforeHandler(BeforeHandlerError::ParseHandlerParamError(ParseHandlerParamError::ParamNotExist))
    }

    /// A multipart field that the handler needs was not sent.
    pub fn before_handler_multipart_field_not_exist() -> (res: Self)
        ensures
            res.is_field_missing(),
    {
        Error::BeforeHandler(
            BeforeHandlerError::ParseHandlerParamError(
                ParseHandlerParamError::MultipartError(MultipartError::FieldNotExist),
            ),
        )
    }

    /// A multipart part is not of the kind the handler asks for.
    pub fn before_handler_multipart_incompatible_type(cause: String) -> (res: Self)
        ensures
            res.is_incompatible_part(cause@),
    {
        Error::BeforeHandler(
            BeforeHandlerError::ParseHandlerParamError(
                ParseHandlerParamError::MultipartError(MultipartError::IncompatibleType(cause)),
            ),
        )
    }

    /// A multipart text part cannot be parsed as the type asked for.
    pub fn before_handler_multipart_can_not_parse_from_part(cause: String) -> (res: Self)
        ensures
            res.is_unparsable_part(cause@),
    {
        Error::BeforeHandler(
            BeforeHandlerError::ParseHandlerParamError(
                ParseHandlerParamError::MultipartError(MultipartError::CanNotParseFromPart(cause)),
            ),
        )
    }

    /// The request has no body of the kind the handler asks for.
    pub fn before_handler_incompatible_request_body_type() -> (res: Self)
        ensures
            res matches Error::BeforeHandler(
                BeforeHandlerError::ParseHandlerParamError(ParseHandlerParamError::BodyNotExist),
            ),
    {
        Error::BeforeHandler(BeforeHandlerError::ParseHandlerParamError(ParseHandlerParamError::BodyNotExist))
    }

    /// The handler's result cannot be written as the response body.
    pub fn after_handler_incompatible_body_type() -> (res: Self)
        ensures
            res matches Error::AfterHandler(ModifierError::IncompatibleBodyType),
    {
        Error::AfterHandler(ModifierError::IncompatibleBodyType)
    }

    /// The file the handler names does not exist.
    pub fn after_handler_file_not_exists(file_path: String) -> (res: Self)
        ensures
            res matches Error::AfterHandler(ModifierError::FileNotExists(p)) && p@ == file_path@,
    {
        Error::AfterHandler(ModifierError::FileNotExists(file_path))
    }
}

impl From<BodyParseError> for Error {
    fn from(e: BodyParseError) -> (res: Self) {
        Error::BeforeHandler(BeforeHandlerError::ParseHttpRequestError(ParseHttpRequestError::ParseBodyError(e)))
    }
}

impl vstd::std_specs::convert::FromSpecImpl<BodyParseError> for Error {
    open spec fn obeys_from_spec() -> bool {
        true
    }

    open spec fn from_spec(e: BodyParseError) -> Error {
        Error::BeforeHandler(BeforeHandlerError::ParseHttpRequestError(ParseHttpRequestError::ParseBodyError(e)))
    }
}

impl From<InvalidHeaderValue> for Error {
    fn from(e: InvalidHeaderValue) -> (res: Self) {
        Error::AfterHandler(ModifierError::InvalidHeaderValue)
    }
}

impl vstd::std_specs::convert::FromSpecImpl<InvalidHeaderValue> for Error {
    open spec fn obeys_from_spec() -> bool {
        true
    }

    open spec fn from_spec(e: InvalidHeaderValue) -> Error {
        Error::AfterHandler(ModifierError::InvalidHeaderValue)
    }
}

impl From<IoError> for Error {
    fn from(value: IoError) -> (res: Self) {
        Error::AfterHandler(ModifierError::IoError(value))
    }
}

impl vstd::std_specs::convert::FromSpecImpl<IoError> for Error {
    open spec fn obeys_from_spec() -> bool {
        true
    }

    open spec fn from_spec(value: IoError) -> Error {
        Error::AfterHandler(ModifierError::IoError(value))
    }
}

impl From<ModifierError> for Error {
    fn from(value: ModifierError) -> (res: Self) {
        Error::AfterHandler(value)
    }
}

impl vstd::std_specs::convert::FromSpecImpl<ModifierError> for Error {
    open spec fn obeys_from_spec() -> bool {
        true
    }

    open spec fn from_spec(value: ModifierError) -> Error {
        Error::AfterHandler(value)
    }
}

impl From<BeforeHandlerError> for Error {
    fn from(value: BeforeHandlerError) -> (res: Self) {
        Error::BeforeHandler(value)
    }
}

impl vstd::std_specs::convert::FromSpecImpl<BeforeHandlerError> for Error {
    open spec fn obeys_from_spec() -> bool {
        true
    }

    open spec fn from_spec(value: BeforeHandlerError) -> Error {
        Error::BeforeHandler(value)
    }
}

impl From<JsonError> for Error {
    fn from(value: JsonError) -> (res: Self) {
        Error::InvalidJsonStr(value)
    }
}

impl vstd::std_specs::convert::FromSpecImpl<JsonError> for Error {
    open spec fn obeys_from_spec() -> bool {
        true
    }

    open spec fn from_spec(value: JsonError) -> Error {
        Error::InvalidJsonStr(value)
    }
}

impl From<IoError> for BodyParseError {
    fn from(value: IoError) -> (res: Self) {
        BodyParseError::Io(value)
    }
}

impl vstd::std_specs::convert::FromSpecImpl<IoError> for BodyParseError {
    open spec fn obeys_from_spec() -> bool {
        true
    }

    open spec fn from_spec(value: IoError) -> BodyParseError {
        BodyParseError::Io(value)
    }
}

impl From<Utf8Error> for BodyParseError {
    fn from(value: Utf8Error) -> (res: Self) {
        BodyParseError::Utf8(value)
    }
}

impl vstd::std_specs::convert::FromSpecImpl<Utf8Error> for BodyParseError {
    open spec fn obeys_from_spec() -> bool {
        true
    }

    open spec fn from_spec(value: Utf8Error) -> BodyParseError {
        BodyParseError::Utf8(value)
    }
}

impl From<ParseHandlerParamError> for BeforeHandlerError {
    fn from(value: ParseHandlerParamError) -> (res: Self) {
        BeforeHandlerError::ParseHandlerParamError(value)
    }
}

impl vstd::std_specs::convert::FromSpecImpl<ParseHandlerParamError> for BeforeHandlerError {
    open spec fn obeys_from_spec() -> bool {
        true
    }

    open spec fn from_spec(value: ParseHandlerParamError) -> BeforeHandlerError {
        BeforeHandlerError::ParseHandlerParamError(value)
    }
}

impl From<ParseHttpRequestError> for BeforeHandlerError {
    fn from(value: ParseHttpRequestError) -> (res: Self) {
        BeforeHandlerError::ParseHttpRequestError(value)
    }
}

impl vstd::std_specs::convert::FromSpecImpl<ParseHttpRequestError> for BeforeHandlerError {
    open spec fn obeys_from_spec() -> bool {
        true
    }

    open spec fn from_spec(value: ParseHttpRequestError) -> BeforeHandlerError {
        BeforeHandlerError::ParseHttpRequestError(value)
    }
}

impl From<ConvertError> for ParseHandlerParamError {
    fn from(value: ConvertError) -> (res: Self) {
        ParseHandlerParamError::ConvertError(value)
    }
}

impl vstd::std_specs::convert::FromSpecImpl<ConvertError> for ParseHandlerParamError {
    open spec fn obeys_from_spec() -> bool {
        true
    }

    open spec fn from_spec(value: ConvertError) -> ParseHandlerParamError {
        ParseHandlerParamError::ConvertError(value)
    }
}

impl From<MultipartError> for ParseHandlerParamError {
    fn from(value: MultipartError) -> (res: Self) {
        ParseHandlerParamError::MultipartError(value)
    }
}

impl vstd::std_specs::convert::FromSpecImpl<MultipartError> for ParseHandlerParamError {
    open spec fn obeys_from_spec() -> bool {
        true
    }

    open spec fn from_spec(value: MultipartError) -> ParseHandlerParamError {
        ParseHandlerParamError::MultipartError(value)
    }
}

impl From<IoError> for ModifierError {
    fn from(value: IoError) -> (res: Self) {
        ModifierError::IoError(value)
    }
}

impl vstd::std_specs::convert::FromSpecImpl<IoError> for ModifierError {
    open spec fn obeys_from_spec() -> bool {
        true
    }

    open spec fn from_spec(value: IoError) -> ModifierError {
        ModifierError::IoError(value)
    }
}

/// The text of a `std::io::Error` (it comes from the operating system).
#[verifier::external_body]
fn io_error_text(e: &IoError) -> String {
    e.to_string()
}

/// The text of a `serde_json::Error`.
#[verifier::external_body]
fn json_error_text(e: &JsonError) -> String {
    e.to_string()
}

/// Appends the characters of `s`.
fn append(out: &mut Vec<char>, s: &str)
    ensures
        final(out)@ == old(out)@ + s@,
{
    let mut c = crate::text::chars_of(s);
    out.append(&mut c);
}

/// The text of a multipart error.
pub open spec fn multipart_error_text(e: MultipartError) -> Seq<char> {
    match e {
        MultipartError::FieldNotExist => "field not exit"@,
        MultipartError::CanNotParseFromPart(s) => "CanNotParseFromPart "@ + s@,
        MultipartError::IncompatibleType(s) => "IncompatibleType "@ + s@,
    }
}

/// The text of a parameter error.
pub open spec fn param_error_text(e: ParseHandlerParamError) -> Seq<char> {
    match e {
        ParseHandlerParamError::ConvertError(c) => "can not convert String \""@ + c.value@ + "\" to type "@ + c.target@,
        ParseHandlerParamError::ParamNotExist => "you have a missing param"@,
        ParseHandlerParamError::MultipartError(m) => multipart_error_text(m),
        ParseHandlerParamError::BodyNotExist => "expect a body in request!"@,
    }
}

/// The text of an error raised before the handler ran; a request that
/// could not be read shows no more than that.
pub open spec fn before_error_text(e: BeforeHandlerError) -> Seq<char> {
    match e {
        BeforeHandlerError::ParseHandlerParamError(p) => "ParseParamError: "@ + param_error_text(p),
        BeforeHandlerError::ParseHttpRequestError(_) => "ParseHttpRequestError: "@,
    }
}

/// The text of an error raised while a result was written, when it holds
/// no error of another crate.
pub open spec fn modifier_error_text(e: ModifierError) -> Option<Seq<char>> {
    match e {
        ModifierError::InvalidHeaderValue => Some("InvalidHeaderValue"@),
        ModifierError::IncompatibleBodyType => Some("IncompatibleBodyType"@),
        ModifierError::IoError(_) => None,
        ModifierError::FileNotExists(s) => Some("file not exist: "@ + s@),
    }
}

/// The text of an error, when it holds no error of another crate (the
/// text of those comes from their own crates).
pub open spec fn error_text(e: Error) -> Option<Seq<char>> {
    match e {
        Error::Unknown => Some("this error is not supported 😼"@),
        Error::AfterHandler(m) => match modifier_error_text(m) {
            Some(t) => Some("after handler: "@ + t),
            None => None,
        },
        Error::BeforeHandler(b) => Some("BeforeHandlerError: "@ + before_error_text(b)),
        Error::InvalidJsonStr(_) => None,
    }
}

impl MultipartError {
    fn push_text(&self, out: &mut Vec<char>)
        ensures
            final(out)@ == old(out)@ + multipart_error_text(*self),
    {
        match self {
            MultipartError::FieldNotExist => append(out, "field not exit"),
            MultipartError::CanNotParseFromPart(s) => {
                append(out, "CanNotParseFromPart ");
                append(out, s.as_str());
            },
            MultipartError::IncompatibleType(s) => {
                append(out, "IncompatibleType ");
                append(out, s.as_str());
            },
        }
    }
}

impl ParseHandlerParamError {
    fn push_text(&self, out: &mut Vec<char>)
        ensures
            final(out)@ == old(out)@ + param_error_text(*self),
    {
        match self {
            ParseHandlerParamError::ConvertError(c) => {
                append(out, "can not convert String \"");
                append(out, c.value.as_str());
                append(out, "\" to type ");
                append(out, c.target.as_str());
            },
            ParseHandlerParamError::ParamNotExist => append(out, "you have a missing param"),
            ParseHandlerParamError::MultipartError(m) => m.push_text(out),
            ParseHandlerParamError::BodyNotExist => append(out, "expect a body in request!"),
        }
    }
}

impl Error {
    /// The text of this error, as error responses show it.
    pub fn message(&self) -> (res: String)
        ensures
            error_text(*self) matches Some(t) ==> res@ == t,
    {
        let mut out: Vec<char> = Vec::new();
        match self {
            Error::Unknown => append(&mut out, "this error is not supported 😼"),
            Error::AfterHandler(m) => {
                append(&mut out, "after handler: ");
                match m {
                    ModifierError::InvalidHeaderValue => append(&mut out, "InvalidHeaderValue"),
                    ModifierError::IncompatibleBodyType => append(&mut out, "IncompatibleBodyType"),
                    ModifierError::IoError(e) => {
                        append(&mut out, "io error: ");
                        append(&mut out, io_error_text(e).as_str());
                    },
                    ModifierError::FileNotExists(p) => {
                        append(&mut out, "file not exist: ");
                        append(&mut out, p.as_str());
                    },
                }
            },
            Error::BeforeHandler(b) => {
                append(&mut out, "BeforeHandlerError: ");
                match b {
                    BeforeHandlerError::ParseHandlerParamError(p) => {
                        append(&mut out, "ParseParamError: ");
                        p.push_text(&mut out);
                    },
                    BeforeHandlerError::ParseHttpRequestError(_) => {
                        append(&mut out, "ParseHttpRequestError: ");
                    },
                }
            },
            Error::InvalidJsonStr(e) => append(&mut out, json_error_text(e).as_str()),
        }
        crate::text::string_from_chars(out.as_slice())
    }
}

} // verus!
