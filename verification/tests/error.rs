use faithea::convert::TryConvertFrom;
use faithea::error::{BeforeHandlerError, Error, ModifierError, MultipartError, ParseHandlerParamError};
use faithea::response::{HttpResponse, HttpResponseModifier, ResponseBody};

#[test]
fn error_texts_name_where_they_come_from() {
    let e = u8::try_convert_from(&"x".to_string()).unwrap_err();
    assert_eq!(e.message(), "BeforeHandlerError: ParseParamError: can not convert String \"x\" to type u8");
    assert_eq!(Error::param_not_exist().message(), "BeforeHandlerError: ParseParamError: you have a missing param");
    assert_eq!(
        Error::before_handler_multipart_field_not_exist().message(),
        "BeforeHandlerError: ParseParamError: field not exit"
    );
    assert_eq!(
        Error::after_handler_file_not_exists("/x".to_string()).message(),
        "after handler: file not exist: /x"
    );
    assert_eq!(Error::Unknown.message(), "this error is not supported 😼");
    let e = Error::BeforeHandler(BeforeHandlerError::ParseHandlerParamError(
        ParseHandlerParamError::MultipartError(MultipartError::IncompatibleType("t".to_string())),
    ));
    assert_eq!(e.message(), "BeforeHandlerError: ParseParamError: IncompatibleType t");
    let io = Error::from(std::io::Error::new(std::io::ErrorKind::Other, "disk"));
    assert_eq!(io.message(), "after handler: io error: disk");
    assert!(matches!(Error::AfterHandler(ModifierError::InvalidHeaderValue).message().as_str(), "after handler: InvalidHeaderValue"));
}

#[test]
fn errors_become_plain_text_responses() {
    let mut e = Error::param_not_exist();
    let mut res = HttpResponse::new();
    e.modify(&mut res).unwrap();
    let text = "BeforeHandlerError: ParseParamError: you have a missing param";
    assert_eq!(res.status, 200);
    assert_eq!(res.headers[0], ("content-type".to_string(), "text/plain".to_string()));
    assert_eq!(res.headers[1], ("content-length".to_string(), text.len().to_string()));
    match &res.body {
        ResponseBody::Simple(b) => assert_eq!(&b[..], text.as_bytes()),
        _ => panic!("a simple body was expected"),
    }
}
