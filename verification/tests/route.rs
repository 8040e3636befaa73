use faithea::handler::HandlerTire;
use faithea::route::{regulate_url_path, Route, RouteComponent};

#[test]
fn test_route_precedence() {
    let mut handler: HandlerTire<u32> = HandlerTire::default();

    handler.get("/url/abc/efg", 1);
    handler.get("/url/{abc}/{efg}", 2);
    handler.get("/url/abc", 3);
    handler.get("/url/*/efg", 4);
    handler.get("/url/**", 5);

    let (matched_route, _) = handler.get_handler("/url/ab2c/efg", "GET").unwrap();

    assert_eq!(
        "Route { r: [Exact(\"\"), Exact(\"url\"), PathParam(\"abc\"), PathParam(\"efg\")] }",
        format!("{:?}", matched_route)
    );
}

#[test]
fn exact_routes_win_and_methods_are_kept_apart() {
    let mut handler: HandlerTire<u32> = HandlerTire::new();
    handler.get("/url/abc/efg", 1);
    handler.get("/url/{abc}/{efg}", 2);
    handler.get("/url/**", 5);
    handler.post("/url/abc/efg", 9);
    let (_, h) = handler.get_handler("/url/abc/efg", "GET").unwrap();
    assert_eq!(*h, 1);
    let (_, h) = handler.get_handler("/url/abc/efg?x=1", "POST").unwrap();
    assert_eq!(*h, 9);
    let (_, h) = handler.get_handler("/url/a/b/c", "GET").unwrap();
    assert_eq!(*h, 5);
    assert!(handler.get_handler("/other", "GET").is_none());
    assert!(handler.get_handler("/url/abc/efg", "PUT").is_none());
}

#[test]
fn registering_again_replaces_the_handler() {
    let mut handler: HandlerTire<u32> = HandlerTire::new();
    handler.add("users/{id}/", "DELETE", 1);
    handler.add("/users/{id}", "DELETE", 2);
    let (route, h) = handler.get_handler("/users/7", "DELETE").unwrap();
    assert_eq!(*h, 2);
    assert_eq!(route.r.len(), 3);
    handler.options("/**", 3);
    let (_, h) = handler.get_handler("/anything/at/all", "OPTIONS").unwrap();
    assert_eq!(*h, 3);
}

#[test]
fn url_paths_are_regulated() {
    assert_eq!(regulate_url_path("a/b"), "/a/b");
    assert_eq!(regulate_url_path("/a/b/"), "/a/b");
    assert_eq!(regulate_url_path("/"), "/");
    assert_eq!(regulate_url_path(""), "/");
    assert_eq!(regulate_url_path("a//"), "/a/");
}

#[test]
fn route_components_are_read_from_segments() {
    let r = Route::from_path("/a/{b}/*/**");
    assert_eq!(
        r.r,
        vec![
            RouteComponent::Exact(String::new()),
            RouteComponent::Exact("a".to_string()),
            RouteComponent::PathParam("b".to_string()),
            RouteComponent::SingleSegWildCard,
            RouteComponent::MultiSegWildCard,
        ]
    );
    assert!(Route::from_path("/a/**").less_than(&Route::from_path("/a/*")));
    assert!(Route::from_path("/a/*").less_than(&Route::from_path("/a/{x}")));
    assert!(Route::from_path("/a/{x}").less_than(&Route::from_path("/a/b")));
    assert!(!Route::from_path("/a/b").less_than(&Route::from_path("/a/b")));
}

#[test]
fn mounted_handlers_live_under_the_prefix() {
    let mut handler: HandlerTire<u32> = HandlerTire::new();
    handler.mount(
        "/api/",
        vec![
            ("/users".to_string(), "GET".to_string(), 1),
            ("/users/{id}".to_string(), "GET".to_string(), 2),
            ("/users".to_string(), "GET".to_string(), 3),
        ],
    );
    let (_, h) = handler.get_handler("/api/users", "GET").unwrap();
    assert_eq!(*h, 3);
    let (route, h) = handler.get_handler("/api/users/9", "GET").unwrap();
    assert_eq!(*h, 2);
    assert_eq!(format!("{:?}", route), "Route { r: [Exact(\"\"), Exact(\"api\"), Exact(\"users\"), PathParam(\"id\")] }");
    assert!(handler.get_handler("/users", "GET").is_none());
}
