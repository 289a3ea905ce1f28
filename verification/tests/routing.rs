//! Route classification, dispatch, echo (plain and gzip), and connection
//! persistence.

use std::io::Read;

use http_server::connection::{connection_header, should_keep_alive};
use http_server::request::Request;
use http_server::response::{Response, Status};
use http_server::router::{handle_route, parse_route, Dispatch, Route};

fn parse_one(data: &[u8]) -> Request {
    Request::parse(data).unwrap().unwrap().0
}

fn done(d: Dispatch) -> Response {
    match d {
        Dispatch::Done(r) => r,
        _ => panic!("expected a finished response"),
    }
}

fn gunzip(data: &[u8]) -> Vec<u8> {
    let mut out = Vec::new();
    flate2::read::GzDecoder::new(data).read_to_end(&mut out).unwrap();
    out
}

#[test]
fn routes_classify_as_specified() {
    assert!(matches!(parse_route(b"GET", b"/"), Route::Root));
    assert!(matches!(parse_route(b"GET", b"/user-agent"), Route::UserAgent));
    match parse_route(b"GET", b"/echo/abc") {
        Route::Echo(c) => assert_eq!(c, b"abc".to_vec()),
        _ => panic!("expected the echo route"),
    }
    match parse_route(b"GET", b"/files/a.txt") {
        Route::GetFile(p) => assert_eq!(p, b"a.txt".to_vec()),
        _ => panic!("expected the file-reading route"),
    }
    match parse_route(b"POST", b"/files/a.txt") {
        Route::PostFile(p) => assert_eq!(p, b"a.txt".to_vec()),
        _ => panic!("expected the file-writing route"),
    }
    assert!(matches!(parse_route(b"GET", b"/files"), Route::NotFound));
    assert!(matches!(parse_route(b"DELETE", b"/"), Route::NotFound));
    assert!(matches!(parse_route(b"POST", b"/echo/x"), Route::NotFound));
}

#[test]
fn root_answers_empty_ok() {
    let req = parse_one(b"GET / HTTP/1.1\r\n\r\n");
    let resp = done(handle_route(parse_route(b"GET", b"/"), &req));
    assert_eq!(resp.into_bytes(), b"HTTP/1.1 200 OK\r\n\r\n".to_vec());
}

#[test]
fn unmatched_answers_not_found() {
    let req = parse_one(b"PUT /nope HTTP/1.1\r\n\r\n");
    let resp = done(handle_route(parse_route(b"PUT", b"/nope"), &req));
    assert!(matches!(resp.status, Status::NotFound));
}

#[test]
fn echo_without_gzip_returns_text_verbatim() {
    let req = parse_one(b"GET /echo/banana HTTP/1.1\r\n\r\n");
    let resp = done(handle_route(parse_route(b"GET", b"/echo/banana"), &req));
    assert_eq!(
        resp.into_bytes(),
        b"HTTP/1.1 200 OK\r\nContent-Type: text/plain\r\nContent-Length: 6\r\n\r\nbanana".to_vec()
    );
}

#[test]
fn echo_with_gzip_compresses_and_marks_encoding() {
    let req = parse_one(b"GET /echo/banana HTTP/1.1\r\nAccept-Encoding: gzip\r\n\r\n");
    let resp = done(handle_route(parse_route(b"GET", b"/echo/banana"), &req));
    assert!(matches!(resp.status, Status::Ok200));
    let body = resp.body.clone();
    assert_ne!(body, b"banana".to_vec());
    assert_eq!(gunzip(&body), b"banana".to_vec());
    let bytes = resp.into_bytes();
    let head = String::from_utf8_lossy(&bytes[..bytes.len() - body.len()]).to_string();
    assert!(head.contains("Content-Encoding: gzip\r\n"));
    assert!(head.contains(&format!("Content-Length: {}\r\n", body.len())));
}

#[test]
fn echo_with_gzip_among_other_tokens() {
    let req = parse_one(b"GET /echo/pear HTTP/1.1\r\nAccept-Encoding: br , gzip, deflate\r\n\r\n");
    let resp = done(handle_route(parse_route(b"GET", b"/echo/pear"), &req));
    assert_eq!(gunzip(&resp.body), b"pear".to_vec());
}

#[test]
fn echo_with_other_encodings_stays_plain() {
    let req = parse_one(b"GET /echo/pear HTTP/1.1\r\nAccept-Encoding: br, deflate\r\n\r\n");
    let resp = done(handle_route(parse_route(b"GET", b"/echo/pear"), &req));
    assert_eq!(resp.body, b"pear".to_vec());
}

#[test]
fn gzip_token_must_match_exactly() {
    let req = parse_one(b"GET /echo/pear HTTP/1.1\r\nAccept-Encoding: gzipped, x-gzip\r\n\r\n");
    let resp = done(handle_route(parse_route(b"GET", b"/echo/pear"), &req));
    assert_eq!(resp.body, b"pear".to_vec());
    let req = parse_one(b"GET /echo/pear HTTP/1.1\r\nAccept-Encoding: GZIP\r\n\r\n");
    let resp = done(handle_route(parse_route(b"GET", b"/echo/pear"), &req));
    assert_eq!(resp.body, b"pear".to_vec());
}

#[test]
fn user_agent_is_echoed_back() {
    let req = parse_one(b"GET /user-agent HTTP/1.1\r\nUser-Agent: foobar/1.2.3\r\n\r\n");
    let resp = done(handle_route(parse_route(b"GET", b"/user-agent"), &req));
    assert_eq!(
        resp.into_bytes(),
        b"HTTP/1.1 200 OK\r\nContent-Type: text/plain\r\nContent-Length: 12\r\n\r\nfoobar/1.2.3"
            .to_vec()
    );
}

#[test]
fn missing_user_agent_is_bad_request() {
    let req = parse_one(b"GET /user-agent HTTP/1.1\r\n\r\n");
    let resp = done(handle_route(parse_route(b"GET", b"/user-agent"), &req));
    assert!(matches!(resp.status, Status::BadRequest));
}

#[test]
fn keep_alive_is_the_default_and_close_ends_it() {
    let buf = b"GET /echo/a HTTP/1.1\r\n\r\nGET /echo/b HTTP/1.1\r\nConnection: close\r\n\r\n";
    let (first, used) = Request::parse(buf).unwrap().unwrap();
    assert!(should_keep_alive(&first));
    let first_resp = connection_header(done(handle_route(parse_route(b"GET", b"/echo/a"), &first)), true);
    let first_bytes = first_resp.into_bytes();
    assert!(String::from_utf8_lossy(&first_bytes).contains("Connection: keep-alive\r\n"));
    let (second, used2) = Request::parse(&buf[used..]).unwrap().unwrap();
    assert_eq!(used + used2, buf.len());
    assert!(!should_keep_alive(&second));
    let second_resp =
        connection_header(done(handle_route(parse_route(b"GET", b"/echo/b"), &second)), false);
    assert!(String::from_utf8_lossy(&second_resp.into_bytes()).contains("Connection: close\r\n"));
}

#[test]
fn connection_close_is_read_case_insensitively() {
    let req = parse_one(b"GET / HTTP/1.1\r\nConnection: CLOSE\r\n\r\n");
    assert!(!should_keep_alive(&req));
    let req2 = parse_one(b"GET / HTTP/1.1\r\nConnection: keep-alive\r\n\r\n");
    assert!(should_keep_alive(&req2));
}

#[test]
fn parse_failure_answers_bad_request_and_no_second_request_is_read() {
    let r = Request::parse(b"GET\r\n\r\nGET / HTTP/1.1\r\n\r\n");
    assert!(r.is_err());
    let resp = Response::new(Status::BadRequest);
    assert_eq!(resp.into_bytes(), b"HTTP/1.1 400 Bad Request\r\n\r\n".to_vec());
}
