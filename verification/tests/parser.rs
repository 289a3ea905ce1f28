//! Request-parser behaviour on whole, partial, and malformed buffers.

use http_server::errors::HttpError;
use http_server::request::Request;

fn parse_one(data: &[u8]) -> (Request, usize) {
    Request::parse(data)
        .expect("parse failed")
        .expect("buffer should hold a whole request")
}

#[test]
fn simple_get_without_body() {
    let (req, used) = parse_one(b"GET / HTTP/1.1\r\n\r\n");
    assert_eq!(req.method, b"GET".to_vec());
    assert_eq!(req.path, b"/".to_vec());
    assert_eq!(req.body, Vec::<u8>::new());
    assert_eq!(used, 18);
}

#[test]
fn body_of_declared_length_is_read_exactly() {
    let (req, used) = parse_one(b"POST /files/a.txt HTTP/1.1\r\ncontent-length: 5\r\n\r\nhelloEXTRA");
    assert_eq!(req.body, b"hello".to_vec());
    assert_eq!(used, b"POST /files/a.txt HTTP/1.1\r\ncontent-length: 5\r\n\r\nhello".len());
}

#[test]
fn zero_content_length_gives_empty_body() {
    let (req, _) = parse_one(b"POST /files/a HTTP/1.1\r\nContent-Length: 0\r\n\r\n");
    assert_eq!(req.body, Vec::<u8>::new());
}

#[test]
fn missing_content_length_gives_empty_body() {
    let (req, _) = parse_one(b"GET /echo/abc HTTP/1.1\r\n\r\n");
    assert_eq!(req.body, Vec::<u8>::new());
}

#[test]
fn header_names_are_stored_trimmed_and_lowercased() {
    let (req, _) = parse_one(b"GET / HTTP/1.1\r\n  User-Agent : curl/8.0 \r\n\r\n");
    assert_eq!(
        req.header(b"user-agent").cloned(),
        Some(b"curl/8.0".to_vec())
    );
}

#[test]
fn header_lookup_is_case_insensitive() {
    let (req, _) = parse_one(b"GET / HTTP/1.1\r\nUser-Agent: foo\r\n\r\n");
    assert_eq!(req.header(b"User-Agent"), req.header(b"user-agent"));
    assert_eq!(req.header(b"USER-AGENT").cloned(), Some(b"foo".to_vec()));
}

#[test]
fn later_duplicate_header_wins() {
    let (req, _) = parse_one(b"GET / HTTP/1.1\r\nx-a: 1\r\nX-A: 2\r\n\r\n");
    assert_eq!(req.header(b"x-a").cloned(), Some(b"2".to_vec()));
}

#[test]
fn malformed_request_line_is_invalid_request() {
    let r = Request::parse(b"GET\r\n\r\n");
    assert!(matches!(r, Err(HttpError::InvalidRequest)));
}

#[test]
fn four_request_line_tokens_are_invalid_request() {
    let r = Request::parse(b"GET / HTTP/1.1 extra\r\n\r\n");
    assert!(matches!(r, Err(HttpError::InvalidRequest)));
}

#[test]
fn header_without_colon_is_malformed() {
    let r = Request::parse(b"GET / HTTP/1.1\r\nno colon here\r\n\r\n");
    assert!(matches!(r, Err(HttpError::MalformedHeader)));
}

#[test]
fn non_numeric_content_length_is_rejected() {
    let r = Request::parse(b"GET / HTTP/1.1\r\ncontent-length: abc\r\n\r\n");
    assert!(matches!(r, Err(HttpError::InvalidContentLength)));
}

#[test]
fn oversized_content_length_is_rejected() {
    let r = Request::parse(b"GET / HTTP/1.1\r\ncontent-length: 99999999999999999999999999\r\n\r\n");
    assert!(matches!(r, Err(HttpError::InvalidContentLength)));
}

#[test]
fn incomplete_head_asks_for_more_bytes() {
    assert!(matches!(Request::parse(b"GET / HT"), Ok(None)));
    assert!(matches!(Request::parse(b"GET / HTTP/1.1\r\nHost: x"), Ok(None)));
}

#[test]
fn incomplete_body_asks_for_more_bytes() {
    let r = Request::parse(b"POST /x HTTP/1.1\r\ncontent-length: 10\r\n\r\nabc");
    assert!(matches!(r, Ok(None)));
}

#[test]
fn pipelined_requests_parse_one_at_a_time() {
    let buf = b"GET /echo/a HTTP/1.1\r\n\r\nGET /echo/b HTTP/1.1\r\n\r\n";
    let (first, used) = parse_one(buf);
    assert_eq!(first.path, b"/echo/a".to_vec());
    let (second, used2) = parse_one(&buf[used..]);
    assert_eq!(second.path, b"/echo/b".to_vec());
    assert_eq!(used + used2, buf.len());
}
