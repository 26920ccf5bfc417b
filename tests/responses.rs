use tcp_srv::response::{decimal, ResponseBuilder};

fn split_response(b: &[u8]) -> (String, Vec<u8>) {
    let pos = b.windows(4).position(|w| w == b"\r\n\r\n").expect("blank line");
    (String::from_utf8(b[..pos].to_vec()).unwrap(), b[pos + 4..].to_vec())
}

#[test]
fn wire_format_in_insertion_order() {
    let out = ResponseBuilder::ok().header("X-A", "1").header("X-A", "2").text("hi").build();
    assert_eq!(
        out,
        b"HTTP/1.1 200 OK\r\nX-A: 1\r\nX-A: 2\r\nContent-Type: text/plain\r\nContent-Length: 2\r\n\r\nhi".to_vec()
    );
}

#[test]
fn canned_responses() {
    assert_eq!(
        ResponseBuilder::default_not_found(),
        b"HTTP/1.1 404 Not Found\r\nContent-Type: text/plain\r\nContent-Length: 18\r\n\r\nResource not found".to_vec()
    );
    assert_eq!(
        ResponseBuilder::ok_json("{}"),
        b"HTTP/1.1 200 OK\r\nContent-Type: application/json\r\nContent-Length: 2\r\n\r\n{}".to_vec()
    );
    let (head, body) = split_response(&ResponseBuilder::default_server_error());
    assert_eq!(head, "HTTP/1.1 500 Internal Server Error\r\nContent-Type: text/plain\r\nContent-Length: 21");
    assert_eq!(body, b"Internal server error".to_vec());
    let (head, _) = split_response(&ResponseBuilder::deleted().html("<p>").build());
    assert_eq!(head, "HTTP/1.1 200 Success\r\nContent-Type: text/html\r\nContent-Length: 3");
    let (head, _) = split_response(&ResponseBuilder::created_response("c"));
    assert!(head.starts_with("HTTP/1.1 201 Created\r\n"));
    let (head, _) = split_response(&ResponseBuilder::default_bad_request());
    assert!(head.starts_with("HTTP/1.1 400 Bad Request\r\n"));
}

#[test]
fn decimal_digits() {
    assert_eq!(decimal(0), "0");
    assert_eq!(decimal(1400), "1400");
    assert_eq!(decimal(usize::MAX), usize::MAX.to_string());
}

fn eligible(n: usize, accept: &str, ct: &str) -> Vec<u8> {
    ResponseBuilder::ok().header("Accept-Encoding", accept).content_type(ct).body(vec![b'a'; n]).build()
}

#[test]
fn no_compression_at_1399_bytes() {
    let out = eligible(1399, "gzip", "text/plain");
    let (head, body) = split_response(&out);
    assert!(!head.contains("Content-Encoding"));
    assert!(head.ends_with("Content-Length: 1399"));
    assert_eq!(body.len(), 1399);
}

#[test]
fn no_compression_at_exactly_1400_bytes() {
    let (head, _) = split_response(&eligible(1400, "gzip", "text/plain"));
    assert!(!head.contains("Content-Encoding"));
}

#[test]
fn compression_at_1401_bytes() {
    let out = eligible(1401, "deflate, GZIP", "text/plain");
    let (head, body) = split_response(&out);
    assert!(body.len() < 1401);
    assert_eq!(&body[..2], &[0x1f, 0x8b]);
    assert_eq!(
        head,
        format!(
            "HTTP/1.1 200 OK\r\nAccept-Encoding: deflate, GZIP\r\nContent-Type: text/plain\r\nContent-Encoding: gzip\r\nContent-Length: {}",
            body.len()
        )
    );
    assert_eq!(head.matches("Content-Length").count(), 1);
}

#[test]
fn no_compression_without_gzip_or_with_other_type() {
    let (head, _) = split_response(&eligible(5000, "br", "text/plain"));
    assert!(!head.contains("Content-Encoding"));
    let (head, _) = split_response(&eligible(5000, "gzip", "image/png"));
    assert!(!head.contains("Content-Encoding"));
    let out = ResponseBuilder::ok().content_type("text/css").body(vec![b'a'; 5000]).build();
    let (head, _) = split_response(&out);
    assert!(!head.contains("Content-Encoding"));
}

#[test]
fn finish_with_keeps_larger_compressed_body_out() {
    let b = ResponseBuilder::ok().header("Accept-Encoding", "gzip").content_type("text/html").body(vec![b'z'; 2000]);
    let out = b.finish_with(Some(vec![1u8; 2000]));
    let (head, body) = split_response(&out);
    assert!(!head.contains("Content-Encoding"));
    assert_eq!(body, vec![b'z'; 2000]);
    let b = ResponseBuilder::ok().header("Accept-Encoding", "gzip").content_type("text/html").body(vec![b'z'; 2000]);
    let out = b.finish_with(Some(vec![7u8; 3]));
    let (head, body) = split_response(&out);
    assert!(head.ends_with("Content-Encoding: gzip\r\nContent-Length: 3"));
    assert_eq!(body, vec![7u8; 3]);
}
