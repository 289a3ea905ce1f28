//! Content negotiation for the echo endpoint: read an `Accept-Encoding`
//! value as a comma-separated, whitespace-trimmed token list, and compress
//! the body with gzip when the exact token `gzip` is among them.

use std::io::Write;

use vstd::prelude::*;
use vstd::string::StringSliceAdditionalSpecFns;

use crate::text::{find_byte, trim};

verus! {

/// What flate2's gzip decoder yields on a byte string: the decompressed
/// bytes where the string is a well-formed gzip stream, nothing otherwise.
/// Decompression is a function of the bytes alone.
pub uninterp spec fn gunzip_of(s: Seq<u8>) -> Option<Seq<u8>>;

/// Relies on flate2's `GzEncoder` over a `Vec` at the default compression
/// level: its output is a gzip stream that flate2's gzip decoder turns back
/// into exactly the written bytes. Writing into a `Vec` cannot fail, so the
/// unwraps cannot panic.
#[verifier::external_body]
fn gzip_compress(data: &[u8]) -> (r: Vec<u8>)
    ensures
        gunzip_of(r@) == Some(data@),
{
    let mut enc = flate2::write::GzEncoder::new(Vec::new(), flate2::Compression::default());
    enc.write_all(data).unwrap();
    enc.finish().unwrap()
}

/// Whether the token `gzip` occurs in the comma-separated list `s` read
/// from position `i` on, each item trimmed of whitespace.
pub open spec fn gzip_in_list(s: Seq<u8>, i: int) -> bool
    decreases s.len() - i,
        when 0 <= i <= s.len()
        via gzip_in_list_decreases
{
    match find_byte(s, i, ',' as u8) {
        None => trim(s.subrange(i, s.len() as int)) == crate::constants::gzip_token(),
        Some(c) => trim(s.subrange(i, c)) == crate::constants::gzip_token() || gzip_in_list(
            s,
            c + 1,
        ),
    }
}

#[via_fn]
proof fn gzip_in_list_decreases(s: Seq<u8>, i: int) {
    crate::text::lemma_find_byte(s, i, ',' as u8);
}

/// Whether an `Accept-Encoding` value names gzip.
pub open spec fn accepts_gzip(h: Seq<u8>) -> bool {
    gzip_in_list(h, 0)
}

/// Decide whether a header value names gzip.
pub fn accepts_gzip_bytes(h: &[u8]) -> (r: bool)
    ensures
        r == accepts_gzip(h@),
{
    let hlen = h.len();
    let mut i: usize = 0;
    loop
        invariant
            h@.len() == hlen as int,
            0 <= i <= h@.len(),
            accepts_gzip(h@) == gzip_in_list(h@, i as int),
        decreases h@.len() - i,
    {
        match crate::text::find_byte_idx(h, i, ',' as u8) {
            None => {
                let seg = crate::text::trim_bytes(
                    vstd::slice::slice_subrange(h, i, h.len()),
                );
                return crate::text::bytes_eq(seg.as_slice(), "gzip".as_bytes());
            },
            Some(c) => {
                let seg = crate::text::trim_bytes(vstd::slice::slice_subrange(h, i, c));
                if crate::text::bytes_eq(seg.as_slice(), "gzip".as_bytes()) {
                    return true;
                }
                i = c + 1;
            },
        }
    }
}

/// Compress the body when the `Accept-Encoding` value (if one came) names
/// gzip; otherwise hand the body back unchanged. The flag says which
/// happened.
pub fn maybe_compress(body: Vec<u8>, accept_encoding: Option<&Vec<u8>>) -> (r: (Vec<u8>, bool))
    ensures
        (match accept_encoding {
            Some(h) => accepts_gzip(h@),
            None => false,
        }) ==> r.1 && gunzip_of(r.0@) == Some(body@),
        !(match accept_encoding {
            Some(h) => accepts_gzip(h@),
            None => false,
        }) ==> !r.1 && r.0@ == body@,
{
    match accept_encoding {
        Some(h) => {
            if accepts_gzip_bytes(h.as_slice()) {
                let compressed = gzip_compress(body.as_slice());
                (compressed, true)
            } else {
                (body, false)
            }
        },
        None => (body, false),
    }
}

} // verus!
