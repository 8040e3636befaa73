use faithea::data::{json_body, Json};
use faithea::request::{HttpRequest, RequestBody};
use faithea::util::static_file_target;
use std::collections::BTreeMap;

fn stu(name: &str) -> BTreeMap<String, String> {
    let mut m = BTreeMap::new();
    m.insert("name".to_string(), name.to_string());
    m
}

#[test]
fn test_serialize() {
    let j = Json(stu("hello"));
    if let Ok(body) = serde_json::to_vec(&*j) {
        println!("{:?}", body);
        assert_eq!(body, br#"{"name":"hello"}"#.to_vec());
    }
}

#[test]
fn test_deserialize() {
    let mut req = HttpRequest::fake();
    let body = serde_json::to_vec(&stu("hello")).unwrap();
    req.body = Some(RequestBody::Simple(body.into()));
    if let Ok(bytes) = json_body(&req) {
        let j = Json(serde_json::from_slice::<BTreeMap<String, String>>(bytes).unwrap());
        println!("{:?}", j);
        assert_eq!(j["name"], "hello");
    }
}

#[test]
fn fake_request_carries_a_simple_body() {
    let req = HttpRequest::fake();
    assert_eq!(req.head.method, "POST");
    assert_eq!(req.head.uri, "/api/data");
    match json_body(&req) {
        Ok(b) => assert_eq!(&b[..], b"request payload"),
        Err(e) => panic!("{:?}", e),
    }
    let mut empty = HttpRequest::fake();
    empty.body = None;
    assert!(json_body(&empty).is_err());
}

#[test]
fn static_targets_are_decoded_under_the_base() {
    assert_eq!(
        static_file_target(&Some("css/my%20site.css".to_string()), "./public").unwrap(),
        "./public/css/my site.css"
    );
    assert_eq!(static_file_target(&Some("a+b%2".to_string()), "/srv").unwrap(), "/srv/a+b%2");
    assert_eq!(static_file_target(&Some("%zz%4".to_string()), "/srv").unwrap(), "/srv/%zz%4");
    assert!(static_file_target(&Some("%ff".to_string()), "/srv").is_none());
    assert!(static_file_target(&None, "/srv").is_none());
}
