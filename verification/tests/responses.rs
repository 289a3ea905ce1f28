//! Response building and serialization.

use http_server::response::{decimal_bytes, Response, Status};

#[test]
fn empty_ok_response_bytes() {
    let bytes = Response::new(Status::Ok200).into_bytes();
    assert_eq!(bytes, b"HTTP/1.1 200 OK\r\n\r\n".to_vec());
}

#[test]
fn all_status_lines() {
    assert_eq!(
        Response::new(Status::Created).into_bytes(),
        b"HTTP/1.1 201 Created\r\n\r\n".to_vec()
    );
    assert_eq!(
        Response::new(Status::BadRequest).into_bytes(),
        b"HTTP/1.1 400 Bad Request\r\n\r\n".to_vec()
    );
    assert_eq!(
        Response::new(Status::NotFound).into_bytes(),
        b"HTTP/1.1 404 Not Found\r\n\r\n".to_vec()
    );
}

#[test]
fn text_body_sets_content_type_and_exact_length() {
    let bytes = Response::new(Status::Ok200).with_text_body(b"abc").into_bytes();
    assert_eq!(
        bytes,
        b"HTTP/1.1 200 OK\r\nContent-Type: text/plain\r\nContent-Length: 3\r\n\r\nabc".to_vec()
    );
}

#[test]
fn with_body_sets_content_length_to_byte_count() {
    let resp = Response::new(Status::Ok200).with_body(vec![0u8; 12]);
    let bytes = resp.into_bytes();
    assert!(bytes.starts_with(b"HTTP/1.1 200 OK\r\nContent-Length: 12\r\n\r\n"));
    assert_eq!(bytes.len(), b"HTTP/1.1 200 OK\r\nContent-Length: 12\r\n\r\n".len() + 12);
}

#[test]
fn repeated_header_name_keeps_last_value() {
    let resp = Response::new(Status::Ok200)
        .with_header(b"X-One", b"a")
        .with_header(b"X-One", b"b");
    assert_eq!(resp.headers.pairs.len(), 1);
    let bytes = resp.into_bytes();
    assert_eq!(bytes, b"HTTP/1.1 200 OK\r\nX-One: b\r\n\r\n".to_vec());
}

#[test]
fn decimal_bytes_exact_values() {
    assert_eq!(decimal_bytes(0), b"0".to_vec());
    assert_eq!(decimal_bytes(7), b"7".to_vec());
    assert_eq!(decimal_bytes(10), b"10".to_vec());
    assert_eq!(decimal_bytes(90210), b"90210".to_vec());
}
