use faithea::convert::TryConvertFrom;
use faithea::error::{BeforeHandlerError, Error, MultipartError, ParseHandlerParamError};
use faithea::multipart::{build_boundary_next_array, MultiPartFile, Multipart, Part, TryFromPart};
use faithea::request::{HttpRequest, RequestBody, TryFromRequest};

fn file() -> MultiPartFile {
    MultiPartFile { file_name: Some("a.txt".to_string()), temp_path: "/tmp/x".to_string(), mime_type: None }
}

fn multipart_error(e: Error) -> MultipartError {
    match e {
        Error::BeforeHandler(BeforeHandlerError::ParseHandlerParamError(ParseHandlerParamError::MultipartError(m))) => m,
        other => panic!("not a multipart error: {:?}", other),
    }
}

#[test]
fn boundary_table_is_the_prefix_function() {
    assert_eq!(build_boundary_next_array(b"a"), vec![0]);
    assert_eq!(build_boundary_next_array(b"abab"), vec![0, 0, 1, 0]);
    assert_eq!(build_boundary_next_array(b"aabaaab"), vec![0, 1, 0, 1, 2, 2, 0]);
    assert_eq!(build_boundary_next_array(b"----xyz----x"), vec![0, 1, 2, 3, 0, 0, 0, 1, 2, 3, 4, 0]);
}

#[test]
fn text_parts_convert_to_numbers_and_flags() {
    assert_eq!(i32::try_from_part(Part::Lit("-17".to_string())).unwrap(), -17);
    assert_eq!(bool::try_from_part(Part::Lit("false".to_string())).unwrap(), false);
    assert_eq!(String::try_from_part(Part::Lit("x y".to_string())).unwrap(), "x y");
    match multipart_error(u8::try_from_part(Part::Lit("300".to_string())).unwrap_err()) {
        MultipartError::CanNotParseFromPart(t) => assert_eq!(t, "number too large to fit in target type"),
        other => panic!("unexpected {:?}", other),
    }
    match multipart_error(i8::try_from_part(Part::Lit("-300".to_string())).unwrap_err()) {
        MultipartError::CanNotParseFromPart(t) => assert_eq!(t, "number too small to fit in target type"),
        other => panic!("unexpected {:?}", other),
    }
    match multipart_error(u16::try_from_part(Part::Lit("".to_string())).unwrap_err()) {
        MultipartError::CanNotParseFromPart(t) => assert_eq!(t, "cannot parse integer from empty string"),
        other => panic!("unexpected {:?}", other),
    }
    match multipart_error(u16::try_from_part(Part::Lit("12a".to_string())).unwrap_err()) {
        MultipartError::CanNotParseFromPart(t) => assert_eq!(t, "invalid digit found in string"),
        other => panic!("unexpected {:?}", other),
    }
    match multipart_error(bool::try_from_part(Part::Lit("yes".to_string())).unwrap_err()) {
        MultipartError::CanNotParseFromPart(t) => assert_eq!(t, "provided string was not `true` or `false`"),
        other => panic!("unexpected {:?}", other),
    }
    match multipart_error(u64::try_from_part(Part::File(file())).unwrap_err()) {
        MultipartError::IncompatibleType(t) => {
            assert_eq!(t, "u64 not compatiable to transform part to MultiPartFile")
        }
        other => panic!("unexpected {:?}", other),
    }
}

#[test]
fn file_parts_become_files() {
    let f = MultiPartFile::try_from_part(Part::File(file())).unwrap();
    assert_eq!(f.temp_path, "/tmp/x");
    match multipart_error(MultiPartFile::try_from_part(Part::Lit("x".to_string())).unwrap_err()) {
        MultipartError::IncompatibleType(t) => assert_eq!(t, "this is not a file"),
        other => panic!("unexpected {:?}", other),
    }
}

#[test]
fn fields_take_the_last_part_or_report_their_absence() {
    let v = i32::try_convert_from(Some(vec![Part::Lit("1".to_string()), Part::Lit("2".to_string())])).unwrap();
    assert_eq!(v, 2);
    assert!(matches!(
        multipart_error(i32::try_convert_from(None::<Vec<Part>>).unwrap_err()),
        MultipartError::FieldNotExist
    ));
    assert!(matches!(
        multipart_error(i32::try_convert_from(Some(Vec::<Part>::new())).unwrap_err()),
        MultipartError::IncompatibleType(_)
    ));
    let o: Option<i32> = Option::<i32>::try_convert_from(None::<Vec<Part>>).unwrap();
    assert_eq!(o, None);
    assert!(Option::<i32>::try_convert_from(Some(vec![Part::Lit("x".to_string())])).is_err());
    let all: Vec<i32> = Vec::<i32>::try_convert_from(Some(vec![
        Part::Lit("1".to_string()),
        Part::Lit("x".to_string()),
        Part::Lit("3".to_string()),
    ]))
    .unwrap();
    assert_eq!(all, vec![1, 3]);
    let none: Vec<i32> = Vec::<i32>::try_convert_from(None::<Vec<Part>>).unwrap();
    assert!(none.is_empty());
}

struct FieldCount(usize);

impl faithea::multipart::TryFromMultipartDataMap for FieldCount {
    fn try_from_multipart_data_map(data: &mut faithea::multipart::MultipartDataMap) -> Result<Self, Error> {
        if data.is_empty() {
            return Err(Error::param_not_exist());
        }
        let n = data.len();
        data.clear();
        Ok(FieldCount(n))
    }
}

#[test]
fn multipart_bodies_are_handed_to_the_target_type() {
    let mut map = faithea::multipart::MultipartDataMap::new();
    map.insert("name".to_string(), vec![Part::Lit("tom".to_string())]);
    map.insert("age".to_string(), vec![Part::Lit("12".to_string())]);
    let mut req = HttpRequest::fake();
    req.body = Some(RequestBody::MultiPart(map));
    let value = <Multipart<FieldCount> as TryFromRequest>::try_from_request(&mut req).unwrap();
    assert_eq!(value.into_inner().0, 2);
    match &req.body {
        Some(RequestBody::MultiPart(m)) => assert!(m.is_empty()),
        _ => panic!("the body is still multipart"),
    }
    match <Multipart<FieldCount> as TryFromRequest>::try_from_request(&mut req) {
        Err(Error::BeforeHandler(BeforeHandlerError::ParseHandlerParamError(ParseHandlerParamError::ParamNotExist))) => {}
        _ => panic!("the target type's error is passed on"),
    }
    let mut simple = HttpRequest::fake();
    match <Multipart<FieldCount> as TryFromRequest>::try_from_request(&mut simple) {
        Err(Error::BeforeHandler(BeforeHandlerError::ParseHandlerParamError(ParseHandlerParamError::BodyNotExist))) => {}
        _ => panic!("a simple body is refused"),
    }
}
