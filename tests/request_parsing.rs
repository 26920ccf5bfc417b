use tcp_srv::request::{parse_usize, HttpMethod, HttpRequest};

fn parse(s: &str) -> HttpRequest {
    HttpRequest::parse(s.as_bytes()).expect("request should parse")
}

#[test]
fn parse_round_trips_method_and_path() {
    let r = parse("GET /user/42 HTTP/1.1\r\nHost: x\r\n\r\n");
    assert_eq!(r.method, HttpMethod::Get);
    assert_eq!(r.path, "/user/42");
    let r = parse("DELETE /a/b HTTP/1.1\r\n\r\n");
    assert_eq!(r.method, HttpMethod::Delete);
    assert_eq!(r.path, "/a/b");
}

#[test]
fn parse_method_in_any_case() {
    assert_eq!(parse("post / HTTP/1.1\r\n\r\n").method, HttpMethod::Post);
    assert_eq!(parse("Patch / HTTP/1.1\r\n\r\n").method, HttpMethod::Patch);
    assert_eq!(parse("put / HTTP/1.1\r\n\r\n").method, HttpMethod::Put);
}

#[test]
fn parse_unknown_method_is_still_parsed() {
    let r = parse("FOO /x HTTP/1.1\r\n\r\n");
    assert_eq!(r.method, HttpMethod::Unknown);
    assert_eq!(r.path, "/x");
}

#[test]
fn parse_fails_without_path() {
    assert!(HttpRequest::parse(b"GET\r\n\r\n").is_none());
    assert!(HttpRequest::parse(b"").is_none());
    assert!(HttpRequest::parse(b"\r\n\r\nGET / HTTP/1.1").is_none());
}

#[test]
fn parse_fails_on_invalid_utf8() {
    assert!(HttpRequest::parse(&[71, 69, 84, 32, 47, 32, 0xff, 13, 10, 13, 10]).is_none());
}

#[test]
fn parse_headers_lowercased_last_wins() {
    let r = parse("GET / HTTP/1.1\r\nContent-Type: text/plain\r\nX-A: 1\r\nx-a: 2\r\nbroken line\r\n\r\n");
    assert_eq!(r.headers.get("content-type").map(|s| s.as_str()), Some("text/plain"));
    assert_eq!(r.headers.get("x-a").map(|s| s.as_str()), Some("2"));
    assert_eq!(r.headers.len(), 2);
    assert_eq!(r.content_type().map(|s| s.as_str()), Some("text/plain"));
}

#[test]
fn parse_body_after_first_blank_line() {
    let r = parse("POST /p HTTP/1.1\r\nContent-Length: 5\r\n\r\nhello");
    assert_eq!(r.body, b"hello".to_vec());
    assert_eq!(r.content_length(), Some(5));
    let r = parse("POST /p HTTP/1.1\r\n\r\nab\r\n\r\ncd");
    assert_eq!(r.body, b"ab\r\n\r\ncd".to_vec());
}

#[test]
fn parse_lenient_without_blank_line() {
    let r = parse("GET /only HTTP/1.1\r\nHost: x");
    assert_eq!(r.path, "/only");
    assert!(r.body.is_empty());
    assert_eq!(r.headers.get("host").map(|s| s.as_str()), Some("x"));
}

#[test]
fn parse_query_params() {
    let r = parse("GET /search?q=rust&page=2&flag&q= last HTTP/1.1\r\n\r\n");
    assert_eq!(r.path, "/search?q=rust&page=2&flag&q=");
    assert_eq!(r.query_params.get("q").map(|s| s.as_str()), Some(""));
    assert_eq!(r.query_params.get("page").map(|s| s.as_str()), Some("2"));
    assert!(r.query_params.get("flag").is_none());
    assert!(r.path_params.get("q").is_none());
}

#[test]
fn parse_cookies_trimmed() {
    let r = parse("GET / HTTP/1.1\r\nCookie: a=1; b = two ;c\r\n\r\n");
    assert_eq!(r.cookies().get("a").map(|s| s.as_str()), Some("1"));
    assert_eq!(r.cookies().get("b").map(|s| s.as_str()), Some("two"));
    assert!(r.cookies().get("c").is_none());
    assert_eq!(r.cookies().len(), 2);
}

#[test]
fn content_length_rules() {
    assert_eq!(parse_usize("+12"), Some(12));
    assert_eq!(parse_usize("0"), Some(0));
    assert_eq!(parse_usize("18446744073709551615"), Some(usize::MAX));
    assert_eq!(parse_usize("18446744073709551616"), None);
    assert_eq!(parse_usize(""), None);
    assert_eq!(parse_usize("+"), None);
    assert_eq!(parse_usize("-1"), None);
    assert_eq!(parse_usize("1x"), None);
    let r = parse("GET / HTTP/1.1\r\nContent-Length: abc\r\n\r\n");
    assert_eq!(r.content_length(), None);
    let r = parse("GET / HTTP/1.1\r\n\r\n");
    assert_eq!(r.content_length(), None);
}

#[test]
fn json_body_needs_exact_content_type() {
    let r = parse("POST /api HTTP/1.1\r\nContent-Type: application/json; charset=utf-8\r\n\r\n{\"message\":\"hi\"}");
    assert!(r.json_body().is_none());
    let r = parse("POST /api HTTP/1.1\r\nContent-Type: application/json\r\n\r\n{\"message\":\"hi\"}");
    let v = r.json_body().expect("valid JSON");
    assert_eq!(v["message"], serde_json::Value::String("hi".to_string()));
    let r = parse("POST /api HTTP/1.1\r\nContent-Type: application/json\r\n\r\n{not json");
    assert!(r.json_body().is_none());
    let r = parse("POST /api HTTP/1.1\r\n\r\n{}");
    assert!(r.json_body().is_none());
}

#[test]
fn method_names() {
    assert_eq!(HttpMethod::from_token("delete"), HttpMethod::Delete);
    assert_eq!(HttpMethod::from_token("HEAD"), HttpMethod::Unknown);
    assert_eq!(HttpMethod::Patch.as_str(), "PATCH");
    assert_eq!("get".parse::<HttpMethod>(), Ok(HttpMethod::Get));
}

#[test]
fn unicode_spaces_split_the_request_line() {
    let r = parse("GET\u{3000}/wide\u{a0}HTTP/1.1\r\n\r\n");
    assert_eq!(r.method, HttpMethod::Get);
    assert_eq!(r.path, "/wide");
    let r = parse("GET /q?k=\u{2003}v HTTP/1.1\r\n\r\n");
    assert_eq!(r.path, "/q?k=");
    let r = parse("GET / HTTP/1.1\r\nCookie: a=\u{2003}v\u{2003}\r\n\r\n");
    assert_eq!(r.cookies().get("a").map(|s| s.as_str()), Some("v"));
}
