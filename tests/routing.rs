use tcp_srv::handler::Context;
use tcp_srv::request::HttpMethod;
use tcp_srv::routes::{extract_params, prefix_until, Route, RouteManager};

type H = Box<dyn Fn(&Context) -> Vec<u8>>;

fn h(tag: u8) -> H {
    Box::new(move |_c: &Context| vec![tag])
}

#[test]
fn route_new_prefix_and_names() {
    let r = Route::new("/api/user/:id/post/:pid", HttpMethod::Get, h(0));
    assert_eq!(r.raw_path, "/api/user");
    assert_eq!(r.path_params, vec!["id".to_string(), "pid".to_string()]);
    assert_eq!(r.pattern, "/api/user/:id/post/:pid");
    let r = Route::new("/plain/path", HttpMethod::Post, h(0));
    assert_eq!(r.raw_path, "/plain/path");
    assert!(r.path_params.is_empty());
}

#[test]
fn matching_needs_equal_segment_counts() {
    let r = Route::new("/a", HttpMethod::Get, h(0));
    assert!(r.matches("/a"));
    assert!(!r.matches("/a/b"));
    assert!(!r.matches("/a/"));
    let r = Route::new("/a/:x", HttpMethod::Get, h(0));
    assert!(!r.matches("/a"));
    assert!(!r.matches("/a/b/c"));
    assert!(r.matches("/a/b"));
}

#[test]
fn capture_needs_non_empty_segment() {
    let r = Route::new("/user/:id", HttpMethod::Get, h(0));
    assert!(!r.matches("/user/"));
    assert!(r.matches("/user/x"));
    assert!(!r.matches("/User/x"));
}

#[test]
fn params_keyed_by_capture_names() {
    let p = extract_params("/a/:x/b/:y", "/a/1/b/2");
    assert_eq!(p.len(), 2);
    assert_eq!(p.get("x").map(|s| s.as_str()), Some("1"));
    assert_eq!(p.get("y").map(|s| s.as_str()), Some("2"));
    let p = extract_params("/static/only", "/static/only");
    assert_eq!(p.len(), 0);
}

#[test]
fn first_registered_route_wins() {
    let mut m: RouteManager<H> = RouteManager::new();
    m.get("/user/:id", h(1));
    m.get("/user/new", h(2));
    let r = m.find_route("/user/new", HttpMethod::Get).expect("a route");
    assert_eq!(r.pattern, "/user/:id");
    let p = extract_params(&r.pattern, "/user/new");
    assert_eq!(p.get("id").map(|s| s.as_str()), Some("new"));
}

#[test]
fn method_must_match() {
    let mut m: RouteManager<H> = RouteManager::new();
    m.post("/items", h(1)).put("/items/:id", h(2)).delete("/items/:id", h(3));
    assert!(m.find_route("/items", HttpMethod::Get).is_none());
    assert_eq!(m.find_route("/items", HttpMethod::Post).unwrap().pattern, "/items");
    assert_eq!(m.find_route("/items/9", HttpMethod::Delete).unwrap().method, HttpMethod::Delete);
    assert!(m.find_route("/items/9", HttpMethod::Unknown).is_none());
}

#[test]
fn groups_prefix_patterns_and_merge_in_order() {
    let mut m: RouteManager<H> = RouteManager::new();
    let mut api = m.group("/api");
    let mut data = api.group("/data");
    data.put("/:id", h(1)).delete("/:id", h(2));
    api.get("/ping", h(3));
    api.post("/", h(4));
    m.get("/root", h(5));
    m.add_group(data).add_group(api);
    let pats: Vec<&str> = m.routes().iter().map(|r| r.pattern.as_str()).collect();
    assert_eq!(pats, vec!["/root", "/api/data/:id", "/api/data/:id", "/api/ping", "/api/"]);
    assert_eq!(m.routes()[1].raw_path, "/api/data");
    let mut other: RouteManager<H> = RouteManager::new();
    other.get("/x", h(6));
    m.apply_routes(other);
    assert_eq!(m.routes().len(), 6);
    assert_eq!(m.routes()[5].pattern, "/x");
}

#[test]
fn prefix_before_wildcard() {
    assert_eq!(prefix_until("/api/data/*", '*'), "/api/data");
    assert_eq!(prefix_until("/api/:id", ':'), "/api");
    assert_eq!(prefix_until(":id", ':'), "");
    assert_eq!(prefix_until("/", ':'), "/");
}
