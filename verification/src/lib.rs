//! A small HTTP/1.1 server core: a byte-level request parser, a response
//! serializer, route classification, gzip content negotiation, and the
//! path-containment checks used by the file-serving endpoints.
//!
//! Everything here is pure logic over byte vectors; sockets and the
//! filesystem live outside the library and hand values in.

pub mod codec;
pub mod connection;
pub mod constants;
pub mod errors;
pub mod handlers;
pub mod headers;
pub mod paths;
pub mod request;
pub mod response;
pub mod router;
pub mod text;

use vstd::prelude::*;

verus! {

} // verus!
