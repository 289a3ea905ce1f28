//! The request parser: turns the bytes received on a connection into a
//! structured request, or reports why it cannot.
//!
//! A request is a CRLF-terminated request line of exactly three
//! whitespace-separated tokens (method, target, version), CRLF-terminated
//! header lines up to an empty line, and, when a `content-length` header is
//! declared, exactly that many body bytes. Header names are stored trimmed
//! and lower-cased; header values trimmed; on a repeated name the last value
//! wins. The parser consumes one request from the front of the buffer and
//! says how many bytes it used, so a later request pipelined on the same
//! connection stays in the buffer.

use vstd::prelude::*;
use vstd::string::StringSliceAdditionalSpecFns;

use crate::errors::HttpError;
use crate::headers::Headers;
use crate::text::{lower, skip_ws, token_end, trim};

verus! {

/// The position of the first CRLF pair at or after `from`, if any.
pub open spec fn line_end(s: Seq<u8>, from: int) -> Option<int>
    decreases s.len() - from,
        when 0 <= from <= s.len()
{
    if from + 2 > s.len() {
        None
    } else if s[from] == 13 && s[from + 1] == 10 {
        Some(from)
    } else {
        line_end(s, from + 1)
    }
}

/// Where `line_end` finds a CRLF, it lies within bounds and no earlier
/// position at or after `from` holds one; where it finds none, none exists.
pub proof fn lemma_line_end(s: Seq<u8>, from: int)
    requires
        0 <= from <= s.len(),
    ensures
        match line_end(s, from) {
            Some(e) => from <= e && e + 2 <= s.len() && s[e] == 13 && s[e + 1] == 10
                && forall|j: int| from <= j < e ==> !(#[trigger] s[j] == 13 && s[j + 1] == 10),
            None => forall|j: int|
                from <= j && j + 2 <= s.len() ==> !(#[trigger] s[j] == 13 && s[j + 1] == 10),
        },
    decreases s.len() - from,
{
    if from + 2 <= s.len() && !(s[from] == 13 && s[from + 1] == 10) {
        lemma_line_end(s, from + 1);
    }
}

/// The position of the first colon at or after `i`, if any.
pub open spec fn first_colon(s: Seq<u8>, i: int) -> Option<int>
    decreases s.len() - i,
        when 0 <= i <= s.len()
{
    if i == s.len() {
        None
    } else if s[i] == ':' as u8 {
        Some(i)
    } else {
        first_colon(s, i + 1)
    }
}

/// The whitespace-separated tokens of `s` from position `i` on.
pub open spec fn tokens_from(s: Seq<u8>, i: int) -> Seq<Seq<u8>>
    decreases s.len() - i,
        when 0 <= i <= s.len()
        via tokens_from_decreases
{
    let j = skip_ws(s, i);
    if j == s.len() {
        Seq::empty()
    } else {
        seq![s.subrange(j, token_end(s, j))] + tokens_from(s, token_end(s, j))
    }
}

#[via_fn]
proof fn tokens_from_decreases(s: Seq<u8>, i: int) {
    crate::text::lemma_skip_ws(s, i);
    if skip_ws(s, i) < s.len() {
        crate::text::lemma_token_end(s, skip_ws(s, i));
    }
}

/// The header map read from CRLF-terminated lines starting at `from`, given
/// the headers `acc` read so far. `Ok(None)` means the bytes run out before
/// the empty line; otherwise the result carries the map and the position
/// right after the empty line.
pub open spec fn parse_headers(s: Seq<u8>, from: int, acc: Map<Seq<u8>, Seq<u8>>) -> Result<
    Option<(Map<Seq<u8>, Seq<u8>>, int)>,
    HttpError,
>
    decreases s.len() - from,
        when 0 <= from <= s.len()
        via parse_headers_decreases
{
    match line_end(s, from) {
        None => Ok(None),
        Some(e) => {
            if e == from {
                Ok(Some((acc, from + 2)))
            } else {
                let line = s.subrange(from, e);
                match first_colon(line, 0) {
                    None => Err(HttpError::MalformedHeader),
                    Some(c) => parse_headers(
                        s,
                        e + 2,
                        acc.insert(
                            lower(trim(line.subrange(0, c))),
                            trim(line.subrange(c + 1, line.len() as int)),
                        ),
                    ),
                }
            }
        },
    }
}

#[via_fn]
proof fn parse_headers_decreases(s: Seq<u8>, from: int, acc: Map<Seq<u8>, Seq<u8>>) {
    lemma_line_end(s, from);
}

/// A decimal digit.
pub open spec fn is_digit(c: u8) -> bool {
    '0' as u8 <= c && c <= '9' as u8
}

/// The value of a string of decimal digits.
pub open spec fn dec_of(s: Seq<u8>) -> int
    decreases s.len(),
{
    if s.len() == 0 {
        0
    } else {
        dec_of(s.drop_last()) * 10 + (s.last() - '0' as u8)
    }
}

/// A `content-length` value with an optional leading plus sign stripped.
pub open spec fn digits_part(s: Seq<u8>) -> Seq<u8> {
    if s.len() > 0 && s[0] == '+' as u8 {
        s.drop_first()
    } else {
        s
    }
}

/// A valid `content-length` value: an optional plus sign, then at least one
/// digit, denoting a value that fits in `usize`.
pub open spec fn is_content_length(s: Seq<u8>) -> bool {
    let d = digits_part(s);
    &&& d.len() > 0
    &&& forall|i: int| 0 <= i < d.len() ==> is_digit(d[i])
    &&& dec_of(d) <= usize::MAX as int
}

/// The declared length, for a valid `content-length` value.
pub open spec fn content_length_value(s: Seq<u8>) -> int {
    dec_of(digits_part(s))
}

/// The header name under which a declared body length is stored.
pub open spec fn content_length_key() -> Seq<u8> {
    "content-length".spec_bytes()
}

/// What one parsed request denotes.
pub ghost struct ParsedRequest {
    /// The first token of the request line.
    pub method: Seq<u8>,
    /// The second token of the request line: the raw request target.
    pub path: Seq<u8>,
    /// Header names (trimmed, lower-cased) to values (trimmed), last write
    /// winning.
    pub headers: Map<Seq<u8>, Seq<u8>>,
    /// Exactly the declared number of body bytes, or empty.
    pub body: Seq<u8>,
    /// How many bytes of the buffer the request took.
    pub used: int,
}

/// What parsing a buffer yields: too few bytes yet (`Ok(None)`), one whole
/// request (`Ok(Some(..))`), or a parse error.
pub open spec fn spec_parse(data: Seq<u8>) -> Result<Option<ParsedRequest>, HttpError> {
    match line_end(data, 0) {
        None => Ok(None),
        Some(e) => {
            let ts = tokens_from(data.subrange(0, e), 0);
            if ts.len() != 3 {
                Err(HttpError::InvalidRequest)
            } else {
                match parse_headers(data, e + 2, Map::empty()) {
                    Err(err) => Err(err),
                    Ok(None) => Ok(None),
                    Ok(Some((hs, body_start))) => {
                        if hs.contains_key(content_length_key()) {
                            if !is_content_length(hs[content_length_key()]) {
                                Err(HttpError::InvalidContentLength)
                            } else {
                                let n = content_length_value(hs[content_length_key()]);
                                if body_start + n > data.len() {
                                    Ok(None)
                                } else {
                                    Ok(
                                        Some(
                                            ParsedRequest {
                                                method: ts[0],
                                                path: ts[1],
                                                headers: hs,
                                                body: data.subrange(body_start, body_start + n),
                                                used: body_start + n,
                                            },
                                        ),
                                    )
                                }
                            }
                        } else {
                            Ok(
                                Some(
                                    ParsedRequest {
                                        method: ts[0],
                                        path: ts[1],
                                        headers: hs,
                                        body: Seq::empty(),
                                        used: body_start,
                                    },
                                ),
                            )
                        }
                    },
                }
            }
        },
    }
}

/// The body length a header map declares: its `content-length` value, or
/// zero without one.
pub open spec fn declared_length(hs: Map<Seq<u8>, Seq<u8>>) -> int {
    if hs.contains_key(content_length_key()) {
        content_length_value(hs[content_length_key()])
    } else {
        0
    }
}

/// Where `parse_headers` succeeds, the position it hands back lies past the
/// empty line and within the buffer.
pub proof fn lemma_parse_headers_end_bounds(
    s: Seq<u8>,
    from: int,
    acc: Map<Seq<u8>, Seq<u8>>,
    m: Map<Seq<u8>, Seq<u8>>,
    end: int,
)
    requires
        0 <= from <= s.len(),
        parse_headers(s, from, acc) == Ok::<Option<(Map<Seq<u8>, Seq<u8>>, int)>, HttpError>(
            Some((m, end)),
        ),
    ensures
        from + 2 <= end <= s.len(),
    decreases s.len() - from,
{
    lemma_line_end(s, from);
    match line_end(s, from) {
        None => {},
        Some(e) => {
            if e != from {
                let line = s.subrange(from, e);
                match first_colon(line, 0) {
                    None => {},
                    Some(c) => {
                        lemma_parse_headers_end_bounds(
                            s,
                            e + 2,
                            acc.insert(
                                lower(trim(line.subrange(0, c))),
                                trim(line.subrange(c + 1, line.len() as int)),
                            ),
                            m,
                            end,
                        );
                    },
                }
            }
        },
    }
}

/// Law: a parsed request's body holds exactly the number of bytes its
/// `content-length` header declares, and no bytes when none is declared.
pub proof fn lemma_body_length_is_declared(data: Seq<u8>, p: ParsedRequest)
    requires
        spec_parse(data) == Ok::<Option<ParsedRequest>, HttpError>(Some(p)),
    ensures
        p.body.len() == declared_length(p.headers),
{
    let e = choose|e: int| line_end(data, 0) == Some(e);
    let (hs, bs): (Map<Seq<u8>, Seq<u8>>, int) = choose|hs: Map<Seq<u8>, Seq<u8>>, bs: int|
        parse_headers(data, e + 2, Map::empty()) == Ok::<
            Option<(Map<Seq<u8>, Seq<u8>>, int)>,
            HttpError,
        >(Some((hs, bs)));
    lemma_line_end(data, 0);
    lemma_parse_headers_end_bounds(data, e + 2, Map::empty(), hs, bs);
    assert(p.headers == hs);
    if hs.contains_key(content_length_key()) {
        let n = content_length_value(hs[content_length_key()]);
        lemma_dec_of_nonneg(digits_part(hs[content_length_key()]));
        assert(p.body == data.subrange(bs, bs + n));
    } else {
        assert(p.body == Seq::<u8>::empty());
    }
}

/// Every header name `parse_headers` stores is already lower-cased, as long
/// as those it started from are.
proof fn lemma_parse_headers_names_lowercase(
    s: Seq<u8>,
    from: int,
    acc: Map<Seq<u8>, Seq<u8>>,
    m: Map<Seq<u8>, Seq<u8>>,
    end: int,
)
    requires
        0 <= from <= s.len(),
        parse_headers(s, from, acc) == Ok::<Option<(Map<Seq<u8>, Seq<u8>>, int)>, HttpError>(
            Some((m, end)),
        ),
        forall|k: Seq<u8>| acc.contains_key(k) ==> k == lower(k),
    ensures
        forall|k: Seq<u8>| m.contains_key(k) ==> k == lower(k),
    decreases s.len() - from,
{
    lemma_line_end(s, from);
    match line_end(s, from) {
        None => {},
        Some(e) => {
            if e == from {
            } else {
                let line = s.subrange(from, e);
                match first_colon(line, 0) {
                    None => {},
                    Some(c) => {
                        let k0 = lower(trim(line.subrange(0, c)));
                        let acc2 = acc.insert(k0, trim(line.subrange(c + 1, line.len() as int)));
                        crate::text::lemma_lower_idempotent(trim(line.subrange(0, c)));
                        assert(forall|k: Seq<u8>| acc2.contains_key(k) ==> k == lower(k));
                        lemma_parse_headers_names_lowercase(s, e + 2, acc2, m, end);
                    },
                }
            }
        },
    }
}

/// Law: every header name a parsed request stores is lower-cased.
pub proof fn lemma_parsed_header_names_lowercase(data: Seq<u8>, p: ParsedRequest)
    requires
        spec_parse(data) == Ok::<Option<ParsedRequest>, HttpError>(Some(p)),
    ensures
        forall|k: Seq<u8>| p.headers.contains_key(k) ==> k == lower(k),
{
    let e = choose|e: int| line_end(data, 0) == Some(e);
    lemma_line_end(data, 0);
    let (hs, bs): (Map<Seq<u8>, Seq<u8>>, int) = choose|hs: Map<Seq<u8>, Seq<u8>>, bs: int|
        parse_headers(data, e + 2, Map::empty()) == Ok::<
            Option<(Map<Seq<u8>, Seq<u8>>, int)>,
            HttpError,
        >(Some((hs, bs)));
    assert(p.headers == hs);
    lemma_parse_headers_names_lowercase(data, e + 2, Map::empty(), hs, bs);
}

/// What looking a name up case-insensitively in a header map yields.
pub open spec fn header_lookup(hs: Map<Seq<u8>, Seq<u8>>, name: Seq<u8>) -> Option<Seq<u8>> {
    if hs.contains_key(lower(name)) {
        Some(hs[lower(name)])
    } else {
        None
    }
}

/// Law: two spellings of a header name that agree up to ASCII case resolve
/// to the same header.
pub proof fn lemma_header_lookup_case_insensitive(
    hs: Map<Seq<u8>, Seq<u8>>,
    k1: Seq<u8>,
    k2: Seq<u8>,
)
    requires
        lower(k1) == lower(k2),
    ensures
        header_lookup(hs, k1) == header_lookup(hs, k2),
{
}

/// Find the first CRLF pair at or after `from`.
fn find_line_end(data: &[u8], from: usize) -> (r: Option<usize>)
    requires
        from <= data@.len(),
    ensures
        match r {
            Some(e) => line_end(data@, from as int) == Some(e as int) && from <= e && e + 2
                <= data@.len(),
            None => line_end(data@, from as int) is None,
        },
{
    let mut i = from;
    while data.len() - i >= 2
        invariant
            from <= i <= data@.len(),
            line_end(data@, from as int) == line_end(data@, i as int),
        decreases data@.len() - i,
    {
        if data[i] == 13 && data[i + 1] == 10 {
            return Some(i);
        }
        i += 1;
    }
    None
}

/// Find the first colon.
fn find_colon(s: &[u8]) -> (r: Option<usize>)
    ensures
        match r {
            Some(c) => first_colon(s@, 0) == Some(c as int) && c < s@.len(),
            None => first_colon(s@, 0) is None,
        },
{
    let mut i: usize = 0;
    while i < s.len()
        invariant
            0 <= i <= s@.len(),
            first_colon(s@, 0) == first_colon(s@, i as int),
        decreases s@.len() - i,
    {
        if s[i] == ':' as u8 {
            return Some(i);
        }
        i += 1;
    }
    None
}

/// Split a request line into its tokens; succeed exactly when there are
/// three, handing back the first two (method and target).
fn split3(line: &[u8]) -> (r: Option<(Vec<u8>, Vec<u8>)>)
    ensures
        match r {
            Some(mp) => tokens_from(line@, 0).len() == 3 && mp.0@ == tokens_from(line@, 0)[0]
                && mp.1@ == tokens_from(line@, 0)[1],
            None => tokens_from(line@, 0).len() != 3,
        },
{
    let a1 = crate::text::skip_ws_idx(line, 0);
    if a1 == line.len() {
        assert(tokens_from(line@, 0) =~= Seq::<Seq<u8>>::empty());
        return None;
    }
    let b1 = crate::text::token_end_idx(line, a1);
    let ghost t1 = line@.subrange(a1 as int, b1 as int);
    assert(tokens_from(line@, 0) == seq![t1] + tokens_from(line@, b1 as int));
    let a2 = crate::text::skip_ws_idx(line, b1);
    if a2 == line.len() {
        assert(tokens_from(line@, b1 as int) =~= Seq::<Seq<u8>>::empty());
        assert(tokens_from(line@, 0).len() == 1);
        return None;
    }
    let b2 = crate::text::token_end_idx(line, a2);
    let ghost t2 = line@.subrange(a2 as int, b2 as int);
    assert(tokens_from(line@, b1 as int) == seq![t2] + tokens_from(line@, b2 as int));
    let a3 = crate::text::skip_ws_idx(line, b2);
    if a3 == line.len() {
        assert(tokens_from(line@, b2 as int) =~= Seq::<Seq<u8>>::empty());
        assert(tokens_from(line@, 0).len() == 2);
        return None;
    }
    let b3 = crate::text::token_end_idx(line, a3);
    let ghost t3 = line@.subrange(a3 as int, b3 as int);
    assert(tokens_from(line@, b2 as int) == seq![t3] + tokens_from(line@, b3 as int));
    let a4 = crate::text::skip_ws_idx(line, b3);
    if a4 != line.len() {
        let ghost b4 = token_end(line@, a4 as int);
        proof {
            crate::text::lemma_token_end(line@, a4 as int);
        }
        assert(tokens_from(line@, b3 as int) == seq![line@.subrange(a4 as int, b4)]
            + tokens_from(line@, b4));
        assert(tokens_from(line@, 0).len() >= 4);
        return None;
    }
    assert(tokens_from(line@, b3 as int) =~= Seq::<Seq<u8>>::empty());
    assert(tokens_from(line@, 0) =~= seq![t1, t2, t3]);
    let m = crate::text::subrange_to_vec(line, a1, b1);
    let p = crate::text::subrange_to_vec(line, a2, b2);
    Some((m, p))
}

/// The value of a digit string is never negative.
proof fn lemma_dec_of_nonneg(s: Seq<u8>)
    requires
        forall|i: int| 0 <= i < s.len() ==> is_digit(s[i]),
    ensures
        dec_of(s) >= 0,
    decreases s.len(),
{
    if s.len() > 0 {
        lemma_dec_of_nonneg(s.drop_last());
    }
}

/// A digit string is worth at least any of its prefixes.
proof fn lemma_dec_of_prefix(s: Seq<u8>, k: int)
    requires
        0 <= k <= s.len(),
        forall|i: int| 0 <= i < s.len() ==> is_digit(s[i]),
    ensures
        dec_of(s) >= dec_of(s.take(k)),
    decreases s.len() - k,
{
    if k < s.len() {
        assert(s.take(k + 1).drop_last() =~= s.take(k));
        assert(forall|i: int| 0 <= i < s.take(k).len() ==> is_digit(s.take(k)[i]));
        lemma_dec_of_nonneg(s.take(k));
        assert(dec_of(s.take(k + 1)) == dec_of(s.take(k)) * 10 + (s[k] - '0' as u8));
        lemma_dec_of_prefix(s, k + 1);
        assert(s.take(s.len() as int) =~= s);
    } else {
        assert(s.take(k) =~= s);
    }
}

/// Read a `content-length` value; succeed exactly on a valid one.
pub fn parse_content_length(v: &[u8]) -> (r: Option<usize>)
    ensures
        match r {
            Some(n) => is_content_length(v@) && n as int == content_length_value(v@),
            None => !is_content_length(v@),
        },
{
    let start: usize = if v.len() > 0 && v[0] == '+' as u8 {
        1
    } else {
        0
    };
    assert(digits_part(v@) =~= v@.subrange(start as int, v@.len() as int));
    if v.len() == start {
        return None;
    }
    let mut i = start;
    let mut n: usize = 0;
    while i < v.len()
        invariant
            start <= i <= v@.len(),
            start <= v@.len(),
            digits_part(v@) =~= v@.subrange(start as int, v@.len() as int),
            forall|j: int| start <= j < i ==> is_digit(v@[j]),
            n as int == dec_of(v@.subrange(start as int, i as int)),
        decreases v@.len() - i,
    {
        let c = v[i];
        if c < '0' as u8 || c > '9' as u8 {
            assert(!is_content_length(v@)) by {
                assert(digits_part(v@)[i - start] == v@[i as int]);
                assert(!is_digit(digits_part(v@)[i - start]));
            }
            return None;
        }
        let dig = (c - '0' as u8) as usize;
        assert(v@.subrange(start as int, i + 1).drop_last() =~= v@.subrange(
            start as int,
            i as int,
        ));
        assert(dec_of(v@.subrange(start as int, i + 1)) == n * 10 + dig);
        if n > (usize::MAX - dig) / 10 {
            proof {
                let q = (usize::MAX - dig) as int / 10;
                vstd::arithmetic::div_mod::lemma_fundamental_div_mod(
                    (usize::MAX - dig) as int,
                    10,
                );
                assert(10 * q + (usize::MAX - dig) as int % 10 == (usize::MAX - dig) as int);
                assert(n * 10 + dig > usize::MAX as int) by (nonlinear_arith)
                    requires
                        n as int > q,
                        10 * q + (usize::MAX - dig) as int % 10 == (usize::MAX - dig) as int,
                        0 <= (usize::MAX - dig) as int % 10 < 10,
                ;
                assert(!is_content_length(v@)) by {
                    if forall|j: int|
                        0 <= j < digits_part(v@).len() ==> is_digit(#[trigger] digits_part(v@)[j]) {
                        assert(digits_part(v@).take(i + 1 - start) =~= v@.subrange(
                            start as int,
                            i + 1,
                        ));
                        lemma_dec_of_prefix(digits_part(v@), i + 1 - start);
                        assert(dec_of(digits_part(v@)) > usize::MAX as int);
                    }
                }
            }
            return None;
        }
        proof {
            let q = (usize::MAX - dig) as int / 10;
            vstd::arithmetic::div_mod::lemma_fundamental_div_mod((usize::MAX - dig) as int, 10);
            assert(n * 10 + dig <= usize::MAX as int) by (nonlinear_arith)
                requires
                    n as int <= q,
                    10 * q + (usize::MAX - dig) as int % 10 == (usize::MAX - dig) as int,
                    0 <= (usize::MAX - dig) as int % 10 < 10,
                    dig <= 9,
            ;
        }
        n = n * 10 + dig;
        i += 1;
    }
    assert(digits_part(v@) =~= v@.subrange(start as int, i as int));
    Some(n)
}

/// A parsed request.
pub struct Request {
    /// The request method, e.g. `GET`.
    pub method: Vec<u8>,
    /// The raw request target, not decoded in any way.
    pub path: Vec<u8>,
    /// The headers, names trimmed and lower-cased, values trimmed.
    pub headers: Headers,
    /// The body: exactly as many bytes as the request declared, or empty.
    pub body: Vec<u8>,
}

/// A parsed request and a count of consumed bytes denote what `spec_parse`
/// says of the buffer they came from.
pub open spec fn parse_result_matches(data: Seq<u8>, req: Request, used: int) -> bool {
    match spec_parse(data) {
        Ok(Some(p)) => req.wf() && req.method@ == p.method && req.path@ == p.path && req.headers@
            == p.headers && req.body@ == p.body && used == p.used && 0 <= used <= data.len(),
        _ => false,
    }
}

impl Request {
    /// Well-formed: the header names are pairwise distinct.
    pub open spec fn wf(&self) -> bool {
        self.headers.wf()
    }

    /// Case-insensitive header lookup: the name is lower-cased, then looked
    /// up among the stored (already lower-cased) names.
    pub fn header(&self, name: &[u8]) -> (r: Option<&Vec<u8>>)
        requires
            self.wf(),
        ensures
            match r {
                Some(v) => self.headers@.contains_key(lower(name@)) && v@
                    == self.headers@[lower(name@)],
                None => !self.headers@.contains_key(lower(name@)),
            },
    {
        let k = crate::text::to_lower(name);
        self.headers.get(k.as_slice())
    }

    /// Parse one request off the front of `data`.
    ///
    /// `Ok(None)` means the buffer does not yet hold a whole request: the
    /// caller should read more bytes and try again. `Ok(Some((req, used)))`
    /// hands back the request and how many bytes it took. An error reports
    /// the first malformed piece; the buffer cannot be trusted after it.
    pub fn parse(data: &[u8]) -> (r: Result<Option<(Request, usize)>, HttpError>)
        ensures
            match r {
                Ok(None) => spec_parse(data@) == Ok::<Option<ParsedRequest>, HttpError>(None),
                Ok(Some((req, used))) => parse_result_matches(data@, req, used as int),
                Err(e) => spec_parse(data@) == Err::<Option<ParsedRequest>, HttpError>(e),
            },
    {
        let e = match find_line_end(data, 0) {
            None => {
                return Ok(None);
            },
            Some(e) => e,
        };
        let line = crate::text::subrange_to_vec(data, 0, e);
        let (method, path) = match split3(line.as_slice()) {
            None => {
                return Err(HttpError::InvalidRequest);
            },
            Some(mp) => mp,
        };
        let ghost ts = tokens_from(data@.subrange(0, e as int), 0);
        let total = data.len();
        let mut headers = Headers::new();
        let mut pos: usize = e + 2;
        let ghost hstart = pos as int;
        loop
            invariant_except_break
                parse_headers(data@, hstart, Map::empty()) == parse_headers(
                    data@,
                    pos as int,
                    headers@,
                ),
            invariant
                data@.len() == total as int,
                hstart == e + 2,
                e + 2 <= pos <= data@.len(),
                headers.wf(),
                line_end(data@, 0) == Some(e as int),
                ts == tokens_from(data@.subrange(0, e as int), 0),
                ts.len() == 3,
                method@ == ts[0],
                path@ == ts[1],
            ensures
                parse_headers(data@, hstart, Map::empty()) == Ok::<
                    Option<(Map<Seq<u8>, Seq<u8>>, int)>,
                    HttpError,
                >(Some((headers@, pos as int))),
                headers.wf(),
                pos <= data@.len(),
                line_end(data@, 0) == Some(e as int),
                ts == tokens_from(data@.subrange(0, e as int), 0),
                ts.len() == 3,
                method@ == ts[0],
                path@ == ts[1],
            decreases data@.len() - pos,
        {
            match find_line_end(data, pos) {
                None => {
                    assert(parse_headers(data@, pos as int, headers@) == Ok::<
                        Option<(Map<Seq<u8>, Seq<u8>>, int)>,
                        HttpError,
                    >(None));
                    return Ok(None);
                },
                Some(le) => {
                    if le == pos {
                        assert(parse_headers(data@, pos as int, headers@) == Ok::<
                            Option<(Map<Seq<u8>, Seq<u8>>, int)>,
                            HttpError,
                        >(Some((headers@, pos + 2))));
                        pos = pos + 2;
                        break ;
                    }
                    let hl = crate::text::subrange_to_vec(data, pos, le);
                    let ghost line_spec = data@.subrange(pos as int, le as int);
                    let c = match find_colon(hl.as_slice()) {
                        None => {
                            assert(parse_headers(data@, pos as int, headers@) == Err::<
                                Option<(Map<Seq<u8>, Seq<u8>>, int)>,
                                HttpError,
                            >(HttpError::MalformedHeader));
                            return Err(HttpError::MalformedHeader);
                        },
                        Some(c) => c,
                    };
                    let key_raw = crate::text::trim_bytes(
                        vstd::slice::slice_subrange(hl.as_slice(), 0, c),
                    );
                    let key = crate::text::to_lower(key_raw.as_slice());
                    let value = crate::text::trim_bytes(
                        vstd::slice::slice_subrange(hl.as_slice(), c + 1, hl.len()),
                    );
                    proof {
                        assert(hl@ == line_spec);
                        assert(key@ == lower(trim(line_spec.subrange(0, c as int))));
                        assert(value@ == trim(line_spec.subrange(c + 1, line_spec.len() as int)));
                        assert(parse_headers(data@, pos as int, headers@) == parse_headers(
                            data@,
                            le + 2,
                            headers@.insert(key@, value@),
                        ));
                    }
                    headers.insert(key, value);
                    pos = le + 2;
                },
            }
        }
        let ghost hs = headers@;
        let ghost body_start = pos as int;
        match headers.get("content-length".as_bytes()) {
            None => {
                assert(!hs.contains_key(content_length_key()));
                let req = Request { method, path, headers, body: Vec::new() };
                assert(req.body@ =~= Seq::<u8>::empty());
                Ok(Some((req, pos)))
            },
            Some(v) => {
                match parse_content_length(v.as_slice()) {
                    None => {
                        assert(!is_content_length(hs[content_length_key()]));
                        Err(HttpError::InvalidContentLength)
                    },
                    Some(n) => {
                        if n > data.len() - pos {
                            assert(body_start + content_length_value(hs[content_length_key()])
                                > data@.len());
                            Ok(None)
                        } else {
                            let body = crate::text::subrange_to_vec(data, pos, pos + n);
                            let used = pos + n;
                            let req = Request { method, path, headers, body };
                            Ok(Some((req, used)))
                        }
                    },
                }
            },
        }
    }
}

} // verus!
