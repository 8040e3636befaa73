use faithea::request::{HttpRequest, HttpVersion, RequestHead};
use faithea::convert::decimal_string;
use faithea::response::{
    Cookie, CookieType, HttpResponse, HttpResponseModifier, Redirect, ResponseBody, CORS, SSE,
};

fn header<'a>(res: &'a HttpResponse, name: &str) -> Option<&'a str> {
    res.headers.iter().find(|(k, _)| k == name).map(|(_, v)| v.as_str())
}

#[test]
fn accept_key_matches_the_rfc_example() {
    assert_eq!(
        HttpResponse::cal_sec_websocket_accept("dGhlIHNhbXBsZSBub25jZQ=="),
        "s3pPLMBiTxaQ9kYGzzhZRbK+xOo="
    );
}

#[test]
fn websocket_upgrade_is_answered() {
    let mut head = RequestHead::new("GET".to_string(), "/chat".to_string(), HttpVersion::Http11);
    head.insert_header("upgrade".to_string(), "websocket".to_string());
    head.insert_header("sec-websocket-key".to_string(), "dGhlIHNhbXBsZSBub25jZQ==".to_string());
    let req = HttpRequest::new(head, None);
    let res = HttpResponse::websocket_response(&req);
    assert_eq!(res.status, 101);
    assert_eq!(header(&res, "upgrade"), Some("websocket"));
    assert_eq!(header(&res, "connection"), Some("Upgrade"));
    assert_eq!(header(&res, "sec-websocket-accept"), Some("s3pPLMBiTxaQ9kYGzzhZRbK+xOo="));
}

#[test]
fn not_found_and_error_responses() {
    let res = HttpResponse::not_found();
    assert_eq!(res.status, 404);
    assert_eq!(header(&res, "content-length"), Some("9"));
    match &res.body {
        ResponseBody::Simple(b) => assert_eq!(&b[..], b"not found"),
        _ => panic!("a simple body was expected"),
    }
    let res = HttpResponse::error("boom!".to_string());
    assert_eq!(res.status, 500);
    assert_eq!(header(&res, "content-length"), Some("5"));
    let res = HttpResponse::error("é".to_string());
    assert_eq!(header(&res, "content-length"), Some("2"));
}

#[test]
fn modifiers_shape_the_response() {
    let mut res = HttpResponse::new();
    assert_eq!(res.status, 200);
    CORS.modify(&mut res).unwrap();
    assert_eq!(header(&res, "access-control-allow-origin"), Some("*"));
    assert_eq!(header(&res, "access-control-allow-methods"), Some("GET, POST, PUT, DELETE"));
    assert_eq!(header(&res, "access-control-allow-credentials"), Some("true"));
    SSE.modify(&mut res).unwrap();
    assert_eq!(header(&res, "content-type"), Some("text/event-stream"));
    assert_eq!(header(&res, "cache-control"), Some("no-cache"));
    Redirect("/login".to_string()).modify(&mut res).unwrap();
    assert_eq!(res.status, 308);
    assert_eq!(header(&res, "location"), Some("/login"));
    let mut other = HttpResponse::new();
    assert!(Redirect("/bad\nline".to_string()).modify(&mut other).is_err());
    assert_eq!(other.status, 200);
    assert!(other.headers.is_empty());
}

#[test]
fn cookies_are_written_item_by_item() {
    let mut c = Cookie::new();
    c.push(CookieType::KeyValue("id".to_string(), "42".to_string()));
    c.push(CookieType::Attribute("HttpOnly".to_string()));
    assert_eq!(c.to_header_value(), "id=42;HttpOnly;");
    let mut res = HttpResponse::new();
    c.modify(&mut res).unwrap();
    assert_eq!(header(&res, "set-cookie"), Some("id=42;HttpOnly;"));
    res.add_header("set-cookie".to_string(), "x=1;".to_string());
    assert_eq!(res.headers.len(), 1);
    assert_eq!(header(&res, "set-cookie"), Some("x=1;"));
}

#[test]
fn decimal_text_of_numbers() {
    assert_eq!(decimal_string(0), "0");
    assert_eq!(decimal_string(9), "9");
    assert_eq!(decimal_string(10), "10");
    assert_eq!(decimal_string(1234567890), "1234567890");
}

#[test]
fn response_head_is_written_line_by_line() {
    let mut res = HttpResponse::not_found();
    res.add_header("x-a".to_string(), "1".to_string());
    assert_eq!(res.write_line_header_bytes(), "HTTP/1.1 404 Not Found\r\ncontent-length: 9\r\nx-a: 1\r\n\r\n");
    let mut odd = HttpResponse::new();
    odd.status = 599;
    assert_eq!(odd.write_line_header_bytes(), "HTTP/1.1 599 <unknown status code>\r\n\r\n");
}

#[test]
fn stream_bodies_are_handed_over_once() {
    let (_tx, rx) = tokio::sync::mpsc::channel::<bytes::Bytes>(1);
    let mut s = faithea::response::Stream::new(rx);
    let mut res = HttpResponse::new();
    s.modify(&mut res).unwrap();
    assert!(matches!(res.body, ResponseBody::Stream(_)));
    let mut again = HttpResponse::new();
    assert!(s.modify(&mut again).is_err());
    assert!(matches!(again.body, ResponseBody::Empty));
}
