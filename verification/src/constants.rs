//! The literal byte strings of the wire protocol: status lines, header
//! names, and the handful of header values the server emits or recognizes.

use vstd::prelude::*;
use vstd::string::StringSliceAdditionalSpecFns;

verus! {

/// The status line of a 200 response.
pub open spec fn http_ok_line() -> Seq<u8> {
    "HTTP/1.1 200 OK".spec_bytes()
}

/// The status line of a 201 response.
pub open spec fn http_created_line() -> Seq<u8> {
    "HTTP/1.1 201 Created".spec_bytes()
}

/// The status line of a 400 response.
pub open spec fn http_bad_request_line() -> Seq<u8> {
    "HTTP/1.1 400 Bad Request".spec_bytes()
}

/// The status line of a 404 response.
pub open spec fn http_not_found_line() -> Seq<u8> {
    "HTTP/1.1 404 Not Found".spec_bytes()
}

/// The `Content-Type` header name, as responses spell it.
pub open spec fn hdr_content_type() -> Seq<u8> {
    "Content-Type".spec_bytes()
}

/// The `Content-Length` header name, as responses spell it.
pub open spec fn hdr_content_length() -> Seq<u8> {
    "Content-Length".spec_bytes()
}

/// The `Content-Encoding` header name, as responses spell it.
pub open spec fn hdr_content_encoding() -> Seq<u8> {
    "Content-Encoding".spec_bytes()
}

/// The `Connection` header name, as responses spell it.
pub open spec fn hdr_connection() -> Seq<u8> {
    "Connection".spec_bytes()
}

/// The MIME type of plain text bodies.
pub open spec fn content_type_plain() -> Seq<u8> {
    "text/plain".spec_bytes()
}

/// The MIME type of file bodies.
pub open spec fn content_type_octet_stream() -> Seq<u8> {
    "application/octet-stream".spec_bytes()
}

/// The coding token a client sends, and a response echoes, for gzip.
pub open spec fn gzip_token() -> Seq<u8> {
    "gzip".spec_bytes()
}

/// The `Connection` value that keeps a connection open.
pub open spec fn keep_alive_value() -> Seq<u8> {
    "keep-alive".spec_bytes()
}

/// The `Connection` value that closes a connection.
pub open spec fn close_value() -> Seq<u8> {
    "close".spec_bytes()
}

/// The request header naming the codings a client accepts.
pub open spec fn accept_encoding_name() -> Seq<u8> {
    "accept-encoding".spec_bytes()
}

/// The request header naming the client software.
pub open spec fn user_agent_name() -> Seq<u8> {
    "user-agent".spec_bytes()
}

/// The request header steering connection persistence.
pub open spec fn connection_name() -> Seq<u8> {
    "connection".spec_bytes()
}

/// The method of the read-only endpoints.
pub open spec fn get_method() -> Seq<u8> {
    "GET".spec_bytes()
}

/// The method of the file-writing endpoint.
pub open spec fn post_method() -> Seq<u8> {
    "POST".spec_bytes()
}

/// The root path.
pub open spec fn root_path() -> Seq<u8> {
    "/".spec_bytes()
}

/// The user-agent path.
pub open spec fn user_agent_path() -> Seq<u8> {
    "/user-agent".spec_bytes()
}

/// The echo prefix; what follows it is echoed back.
pub open spec fn echo_prefix() -> Seq<u8> {
    "/echo/".spec_bytes()
}

/// The files prefix; what follows it names a file under the served root.
pub open spec fn files_prefix() -> Seq<u8> {
    "/files/".spec_bytes()
}

} // verus!
