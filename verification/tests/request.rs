use faithea::request::{
    check_header, get_multipart_boundary, parse_line_header, parse_request_head, ContentType, HttpRequest,
    HttpVersion, RequestHead,
};
use faithea::route::Route;

#[test]
fn head_end_is_found_after_the_blank_line() {
    assert_eq!(check_header(b"GET / HTTP/1.1\r\nHost: a\r\n\r\nbody"), (true, 27));
    assert_eq!(check_header(b"GET / HTTP/1.1\r\nHost: a\r\n"), (false, 0));
    assert_eq!(check_header(b"\r\n\r\n"), (true, 4));
    assert_eq!(check_header(b"\r\n\r\n\r\n\r\n"), (true, 4));
}

#[test]
fn request_head_is_parsed() {
    let raw = b"POST /api/data?x=1 HTTP/1.1\r\nHost: example.com\r\nContent-Type: application/json\r\nX-Empty:\r\n\r\n";
    let head = parse_line_header(raw).unwrap();
    assert_eq!(head.method, "POST");
    assert_eq!(head.uri, "/api/data?x=1");
    assert_eq!(head.version, HttpVersion::Http11);
    assert_eq!(head.get_header("host").unwrap(), "example.com");
    assert_eq!(head.get_header("CONTENT-TYPE").unwrap(), "application/json");
    assert_eq!(head.get_header("x-empty").unwrap(), "");
    assert!(head.get_header("missing").is_none());
    assert_eq!(head.headers.len(), 3);
}

#[test]
fn header_value_stops_at_the_next_colon_and_later_lines_replace() {
    let raw = b"GET / HTTP/1.0\r\nHost: localhost:8080\r\nA: 1\r\na: 2\r\n\r\n";
    let head = parse_line_header(raw).unwrap();
    assert_eq!(head.version, HttpVersion::Http10);
    assert_eq!(head.get_header("host").unwrap(), "localhost");
    assert_eq!(head.get_header("a").unwrap(), "2");
    assert_eq!(head.headers.len(), 2);
}

#[test]
fn bad_request_lines_are_refused_with_their_reason() {
    assert_eq!(parse_line_header(b"\r\n\r\n").unwrap_err(), "method parsing error");
    assert_eq!(parse_line_header(b"GET\r\n\r\n").unwrap_err(), "uri parsing error");
    assert_eq!(parse_line_header(b"GET /\r\n\r\n").unwrap_err(), "version parsing error");
    assert_eq!(parse_line_header(b"GET / HTTP/2\r\n\r\n").unwrap_err(), "version parsing error");
    assert_eq!(parse_line_header(b"G(T / HTTP/1.1\r\n\r\n").unwrap_err(), "invalid HTTP method");
    assert!(parse_line_header(b"GET / HTTP/1.1\r\nNoColon\r\n\r\n").unwrap_err() == "no header value");
    assert!(parse_line_header(b"GET / HTTP/1.1\r\nA: \x7f\r\n\r\n").unwrap_err() == "failed to parse header value");
    assert!(parse_line_header(&[0xff, 0xfe, b'\r', b'\n']).is_err());
}

#[test]
fn bad_header_names_are_reported_before_parsing() {
    assert!(parse_request_head(b"GET / HTTP/1.1\r\nBad Name: v\r\n\r\n").is_none());
    let ok = parse_request_head(b"GET / HTTP/1.1\r\nGood-Name: v\r\n\r\n").unwrap().unwrap();
    assert_eq!(ok.get_header("good-name").unwrap(), "v");
}

fn head_with(ct: Option<&str>) -> RequestHead {
    let mut h = RequestHead::new("POST".to_string(), "/".to_string(), HttpVersion::Http11);
    if let Some(ct) = ct {
        h.insert_header("content-type".to_string(), ct.to_string());
    }
    h
}

#[test]
fn content_types_decide_how_bodies_are_read() {
    assert!(matches!(ContentType::try_from_head(&head_with(None)), Ok(ContentType::Simple)));
    assert!(matches!(
        ContentType::try_from_head(&head_with(Some("application/json; charset=utf-8"))),
        Ok(ContentType::ApplicationJson)
    ));
    match ContentType::try_from_head(&head_with(Some("multipart/form-data; boundary=XyZ"))) {
        Ok(ContentType::MultipartFormData(b)) => assert_eq!(b, "XyZ"),
        other => panic!("unexpected {:?}", other),
    }
    assert_eq!(
        ContentType::try_from_head(&head_with(Some("multipart/form-data"))).unwrap_err(),
        "no boundary found in your multipart/form-data header"
    );
    assert!(matches!(ContentType::try_from_head(&head_with(Some("text/plain"))), Ok(ContentType::Simple)));
    assert_eq!(
        ContentType::try_from_head(&head_with(Some("text/plainé"))).unwrap_err(),
        "failed to convert header to a str"
    );
    assert_eq!(get_multipart_boundary(&head_with(Some("a;b=c=d"))).unwrap(), "c=d");
    assert!(get_multipart_boundary(&head_with(Some("a=b;c"))).is_none());
}

#[test]
fn double_star_routes_collect_the_rest_of_the_path() {
    let head = RequestHead::new("GET".to_string(), "/static/css/site.css".to_string(), HttpVersion::Http11);
    let mut req = HttpRequest::new(head, None);
    req.assamble_multi_seg_param(&Route::from_path("/static/**"), &Route::from_path("/static/css/site.css"));
    assert_eq!(req.multi_seg_param.as_deref(), Some("css/site.css"));
    let mut other = HttpRequest::new(RequestHead::new("GET".to_string(), "/".to_string(), HttpVersion::Http11), None);
    other.assamble_multi_seg_param(&Route::from_path("/a/{b}"), &Route::from_path("/a/c"));
    assert!(other.multi_seg_param.is_none());
}

#[test]
fn path_parameters_pair_names_with_segments() {
    let head = RequestHead::new("GET".to_string(), "/pathParam/tom/12".to_string(), HttpVersion::Http11);
    let mut req = HttpRequest::new(head, None);
    assert!(req.get_pathparam("name").is_none());
    req.assamble_path_param(
        &Route::from_path("/pathParam/{name}/{age}"),
        &Route::from_path("/pathParam/tom/12"),
    );
    assert_eq!(req.get_pathparam("name").map(|s| s.as_str()), Some("tom"));
    assert_eq!(req.get_pathparam("age").map(|s| s.as_str()), Some("12"));
    assert!(req.get_pathparam("other").is_none());
    assert_eq!(
        req.path_param.as_ref().unwrap(),
        &vec![("name".to_string(), "tom".to_string()), ("age".to_string(), "12".to_string())]
    );
}

#[test]
fn routes_without_parameters_give_an_empty_list() {
    let head = RequestHead::new("GET".to_string(), "/a/b".to_string(), HttpVersion::Http11);
    let mut req = HttpRequest::new(head, None);
    req.process_routes(&Route::from_path("/a/b"), &Route::from_path("/a/b"));
    assert_eq!(req.path_param.as_ref().unwrap().len(), 0);
    assert!(req.multi_seg_param.is_none());
}

#[test]
fn process_routes_reads_parameters_and_the_wildcard_path() {
    let head = RequestHead::new("GET".to_string(), "/u/7/x/y".to_string(), HttpVersion::Http11);
    let mut req = HttpRequest::new(head, None);
    req.process_routes(&Route::from_path("/u/{id}/**"), &Route::from_path("/u/7/x/y"));
    assert_eq!(req.get_pathparam("id").map(|s| s.as_str()), Some("7"));
    assert_eq!(req.multi_seg_param.as_deref(), Some("x/y"));
}

#[test]
fn query_parameters_are_split_and_decoded() {
    let head = RequestHead::new(
        "GET".to_string(),
        "/searchParam?name=tom%20cat&age=12&flag&&age=13&bad=%FF".to_string(),
        HttpVersion::Http11,
    );
    let mut req = HttpRequest::new(head, None);
    assert!(req.get_search_param("name").is_none());
    req.process_search_param();
    assert_eq!(req.get_search_param("name").map(|s| s.as_str()), Some("tom cat"));
    assert_eq!(req.get_search_param("age").map(|s| s.as_str()), Some("13"));
    assert_eq!(req.get_search_param("flag").map(|s| s.as_str()), Some(""));
    assert_eq!(req.get_search_param("bad").map(|s| s.as_str()), Some("%FF"));
    assert!(req.get_search_param("missing").is_none());
    assert_eq!(req.search_param.as_ref().unwrap().len(), 4);
}

#[test]
fn a_target_without_query_has_no_query_parameters() {
    let head = RequestHead::new("GET".to_string(), "/search".to_string(), HttpVersion::Http11);
    let mut req = HttpRequest::new(head, None);
    req.process_search_param();
    assert_eq!(req.search_param.as_ref().unwrap().len(), 0);
    let head = RequestHead::new("GET".to_string(), "/search?".to_string(), HttpVersion::Http11);
    let mut req = HttpRequest::new(head, None);
    req.process_search_param();
    assert_eq!(req.search_param.as_ref().unwrap().len(), 0);
}
