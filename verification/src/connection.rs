//! Connection persistence: whether a request keeps its connection open, and
//! the `Connection` header a response carries to say so.

use vstd::prelude::*;

use crate::constants::{close_value, connection_name, hdr_connection, keep_alive_value};
use crate::request::{header_lookup, Request};
use crate::response::Response;
use crate::text::lower;

verus! {

/// Whether a request's headers keep the connection open: they do unless a
/// `connection` header says `close`, in any casing. Without the header, a
/// connection persists.
pub open spec fn spec_keep_alive(hs: Map<Seq<u8>, Seq<u8>>) -> bool {
    match header_lookup(hs, connection_name()) {
        Some(v) => lower(v) != close_value(),
        None => true,
    }
}

/// Decide whether the connection stays open after this request.
pub fn should_keep_alive(request: &Request) -> (r: bool)
    requires
        request.wf(),
    ensures
        r == spec_keep_alive(request.headers@),
{
    match request.header("connection".as_bytes()) {
        Some(v) => {
            let lv = crate::text::to_lower(v.as_slice());
            !crate::text::bytes_eq(lv.as_slice(), "close".as_bytes())
        },
        None => true,
    }
}

/// The response with its `Connection` header set to reflect the decision:
/// `keep-alive` to persist, `close` to end the connection.
pub fn connection_header(response: Response, keep: bool) -> (r: Response)
    requires
        response.wf(),
    ensures
        r.wf(),
        r.status == response.status,
        r.body@ == response.body@,
        r.headers@ == response.headers@.insert(
            hdr_connection(),
            if keep {
                keep_alive_value()
            } else {
                close_value()
            },
        ),
{
    if keep {
        response.with_header("Connection".as_bytes(), "keep-alive".as_bytes())
    } else {
        response.with_header("Connection".as_bytes(), "close".as_bytes())
    }
}

} // verus!
