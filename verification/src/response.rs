//! The response builder and its serializer: a status, headers, and a body,
//! written out as a status line, `Name: value` header lines, an empty line,
//! and the raw body bytes.

use vstd::prelude::*;

use crate::constants::{hdr_content_length, hdr_content_type, content_type_plain};
use crate::headers::Headers;

verus! {

/// The statuses this server can answer with.
#[derive(Clone, Copy, Debug, PartialEq, Eq, Structural)]
pub enum Status {
    /// 200.
    Ok200,
    /// 201.
    Created,
    /// 400.
    BadRequest,
    /// 404.
    NotFound,
}

/// The status line a status is written as, without its trailing CRLF.
pub open spec fn status_line(s: Status) -> Seq<u8> {
    match s {
        Status::Ok200 => crate::constants::http_ok_line(),
        Status::Created => crate::constants::http_created_line(),
        Status::BadRequest => crate::constants::http_bad_request_line(),
        Status::NotFound => crate::constants::http_not_found_line(),
    }
}

/// A carriage return and a line feed.
pub open spec fn crlf() -> Seq<u8> {
    seq![13u8, 10u8]
}

/// The decimal digits of a non-negative number, most significant first.
pub open spec fn dec_digits(n: int) -> Seq<u8>
    decreases n,
        when n >= 0
        via dec_digits_decreases
{
    if n < 10 {
        seq![(n + '0' as u8) as u8]
    } else {
        dec_digits(n / 10).push((n % 10 + '0' as u8) as u8)
    }
}

#[via_fn]
proof fn dec_digits_decreases(n: int) {
    if n >= 10 {
        vstd::arithmetic::div_mod::lemma_div_is_ordered_by_denominator(n, 1, 10);
        vstd::arithmetic::div_mod::lemma_div_by_multiple(n, 1);
        assert(n / 10 < n) by (nonlinear_arith)
            requires
                n >= 10,
        ;
    }
}

/// Law: the decimal digits of a number read back as that number; they are
/// digits, and there is at least one.
pub proof fn lemma_dec_digits_value(n: int)
    requires
        n >= 0,
    ensures
        crate::request::dec_of(dec_digits(n)) == n,
        dec_digits(n).len() > 0,
        forall|i: int|
            0 <= i < dec_digits(n).len() ==> crate::request::is_digit(dec_digits(n)[i]),
    decreases n,
{
    vstd::arithmetic::div_mod::lemma_fundamental_div_mod(n, 10);
    vstd::arithmetic::div_mod::lemma_mod_bound(n, 10);
    assert(crate::request::dec_of(Seq::<u8>::empty()) == 0);
    if n < 10 {
        assert(dec_digits(n).drop_last() =~= Seq::<u8>::empty());
    } else {
        lemma_dec_digits_value(n / 10);
        assert(0 <= n / 10) by (nonlinear_arith)
            requires
                n >= 10,
        ;
        assert(dec_digits(n).drop_last() =~= dec_digits(n / 10));
    }
}

/// Write the decimal digits of a number.
pub fn decimal_bytes(n: usize) -> (r: Vec<u8>)
    ensures
        r@ == dec_digits(n as int),
    decreases n,
{
    if n < 10 {
        let mut v: Vec<u8> = Vec::new();
        v.push((n as u8) + '0' as u8);
        assert(v@ =~= dec_digits(n as int));
        v
    } else {
        let mut v = decimal_bytes(n / 10);
        v.push(((n % 10) as u8) + '0' as u8);
        assert(v@ =~= dec_digits(n as int));
        v
    }
}

/// One header line: the name, a colon and a space, the value, CRLF.
pub open spec fn header_line(k: Seq<u8>, v: Seq<u8>) -> Seq<u8> {
    k + seq![':' as u8, ' ' as u8] + v + crlf()
}

/// The header lines from position `i` on, in storage order.
pub open spec fn headers_bytes_from(es: Seq<(Seq<u8>, Seq<u8>)>, i: int) -> Seq<u8>
    decreases es.len() - i,
        when 0 <= i <= es.len()
{
    if i == es.len() {
        Seq::empty()
    } else {
        header_line(es[i].0, es[i].1) + headers_bytes_from(es, i + 1)
    }
}

/// A response under construction: a status, headers, and a body.
///
/// Attaching a body always sets `Content-Length` to its exact byte length,
/// so the invariant that the header matches the body cannot be broken from
/// outside.
pub struct Response {
    /// The status to answer with.
    pub status: Status,
    /// The headers to write; names unique, order without meaning.
    pub headers: Headers,
    /// The body bytes; empty until a body is attached.
    pub body: Vec<u8>,
}

/// What a response looks like on the wire: the status line, each header as
/// `Name: value`, an empty line, then the body.
pub open spec fn response_bytes(r: Response) -> Seq<u8> {
    status_line(r.status) + crlf() + headers_bytes_from(r.headers.entries(), 0) + crlf() + r.body@
}

impl Response {
    /// Well-formed: the header names are pairwise distinct.
    pub open spec fn wf(&self) -> bool {
        self.headers.wf()
    }

    /// An empty response with the given status.
    pub fn new(status: Status) -> (r: Response)
        ensures
            r.wf(),
            r.status == status,
            r.headers@ == Map::<Seq<u8>, Seq<u8>>::empty(),
            r.headers.entries() == Seq::<(Seq<u8>, Seq<u8>)>::empty(),
            r.body@ == Seq::<u8>::empty(),
    {
        let r = Response { status, headers: Headers::new(), body: Vec::new() };
        assert(r.body@ =~= Seq::<u8>::empty());
        r
    }

    /// The response with a header set, replacing any value the name had.
    pub fn with_header(self, key: &[u8], value: &[u8]) -> (r: Response)
        requires
            self.wf(),
        ensures
            r.wf(),
            r.status == self.status,
            r.headers@ == self.headers@.insert(key@, value@),
            r.body@ == self.body@,
    {
        let mut this = self;
        this.headers.insert(
            vstd::slice::slice_to_vec(key),
            vstd::slice::slice_to_vec(value),
        );
        this
    }

    /// The response with a body attached and `Content-Length` set to the
    /// body's exact byte length.
    pub fn with_body(self, body: Vec<u8>) -> (r: Response)
        requires
            self.wf(),
        ensures
            r.wf(),
            r.status == self.status,
            r.headers@ == self.headers@.insert(
                hdr_content_length(),
                dec_digits(body@.len() as int),
            ),
            r.body@ == body@,
    {
        let mut this = self;
        let len_bytes = decimal_bytes(body.len());
        this.headers.insert(vstd::slice::slice_to_vec("Content-Length".as_bytes()), len_bytes);
        this.body = body;
        this
    }

    /// The response with a plain-text body: `Content-Type: text/plain`,
    /// `Content-Length` set exactly, and the text as the body.
    pub fn with_text_body(self, text: &[u8]) -> (r: Response)
        requires
            self.wf(),
        ensures
            r.wf(),
            r.status == self.status,
            r.headers@ == self.headers@.insert(hdr_content_type(), content_type_plain()).insert(
                hdr_content_length(),
                dec_digits(text@.len() as int),
            ),
            r.body@ == text@,
    {
        self.with_header("Content-Type".as_bytes(), "text/plain".as_bytes()).with_body(
            vstd::slice::slice_to_vec(text),
        )
    }

    /// The exact bytes written to the connection for this response.
    pub fn into_bytes(self) -> (r: Vec<u8>)
        ensures
            r@ == response_bytes(self),
    {
        let status_str: &str = match self.status {
            Status::Ok200 => "HTTP/1.1 200 OK",
            Status::Created => "HTTP/1.1 201 Created",
            Status::BadRequest => "HTTP/1.1 400 Bad Request",
            Status::NotFound => "HTTP/1.1 404 Not Found",
        };
        let mut out: Vec<u8> = vstd::slice::slice_to_vec(status_str.as_bytes());
        out.push(13);
        out.push(10);
        assert(out@ =~= status_line(self.status) + crlf());
        let ghost es = self.headers.entries();
        let mut i: usize = 0;
        while i < self.headers.pairs.len()
            invariant
                0 <= i <= self.headers.pairs.len(),
                es == self.headers.entries(),
                out@ == status_line(self.status) + crlf() + headers_bytes_upto(es, i as int),
            decreases self.headers.pairs.len() - i,
        {
            let kv = &self.headers.pairs[i];
            let mut line: Vec<u8> = vstd::slice::slice_to_vec(kv.0.as_slice());
            line.push(':' as u8);
            line.push(' ' as u8);
            let mut vv: Vec<u8> = vstd::slice::slice_to_vec(kv.1.as_slice());
            line.append(&mut vv);
            line.push(13);
            line.push(10);
            assert(line@ =~= header_line(es[i as int].0, es[i as int].1));
            out.append(&mut line);
            proof {
                lemma_headers_bytes_upto_snoc(es, i as int);
                assert(out@ =~= status_line(self.status) + crlf() + headers_bytes_upto(
                    es,
                    i + 1,
                ));
            }
            i += 1;
        }
        proof {
            lemma_headers_bytes_upto_all(es);
        }
        out.push(13);
        out.push(10);
        let mut body = self.body;
        out.append(&mut body);
        assert(out@ =~= response_bytes(self));
        out
    }
}

/// The header lines before position `i`, in storage order.
pub open spec fn headers_bytes_upto(es: Seq<(Seq<u8>, Seq<u8>)>, i: int) -> Seq<u8>
    decreases i,
        when 0 <= i <= es.len()
{
    if i == 0 {
        Seq::empty()
    } else {
        headers_bytes_upto(es, i - 1) + header_line(es[i - 1].0, es[i - 1].1)
    }
}

/// Extending the prefix by one entry appends that entry's line.
proof fn lemma_headers_bytes_upto_snoc(es: Seq<(Seq<u8>, Seq<u8>)>, i: int)
    requires
        0 <= i < es.len(),
    ensures
        headers_bytes_upto(es, i + 1) == headers_bytes_upto(es, i) + header_line(
            es[i].0,
            es[i].1,
        ),
{
}

/// The whole prefix is the whole suffix: both orders of summation write the
/// same lines.
proof fn lemma_headers_bytes_upto_all(es: Seq<(Seq<u8>, Seq<u8>)>)
    ensures
        headers_bytes_upto(es, es.len() as int) == headers_bytes_from(es, 0),
{
    lemma_headers_bytes_split(es, 0);
    assert(headers_bytes_upto(es, 0) =~= Seq::<u8>::empty());
    assert(headers_bytes_upto(es, 0) + headers_bytes_from(es, 0) =~= headers_bytes_from(es, 0));
}

/// The lines before `i` and the lines from `i` on together write all lines.
proof fn lemma_headers_bytes_split(es: Seq<(Seq<u8>, Seq<u8>)>, i: int)
    requires
        0 <= i <= es.len(),
    ensures
        headers_bytes_upto(es, i) + headers_bytes_from(es, i) == headers_bytes_upto(
            es,
            es.len() as int,
        ),
    decreases es.len() - i,
{
    if i == es.len() {
        assert(headers_bytes_upto(es, i) + headers_bytes_from(es, i) =~= headers_bytes_upto(
            es,
            es.len() as int,
        ));
    } else {
        lemma_headers_bytes_split(es, i + 1);
        lemma_headers_bytes_upto_snoc(es, i);
        assert(headers_bytes_upto(es, i) + (header_line(es[i].0, es[i].1) + headers_bytes_from(
            es,
            i + 1,
        )) =~= (headers_bytes_upto(es, i) + header_line(es[i].0, es[i].1)) + headers_bytes_from(
            es,
            i + 1,
        ));
    }
}

} // verus!
