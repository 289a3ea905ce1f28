//! Byte-string helpers shared by the parser, the router and the codec:
//! ASCII whitespace, case folding, trimming, and equality.

use vstd::prelude::*;

verus! {

/// ASCII whitespace as this server understands it: space, tab, CR, LF.
pub open spec fn is_ws(c: u8) -> bool {
    c == 32 || c == 9 || c == 13 || c == 10
}

/// ASCII lower-casing of one byte: `A`..`Z` map to `a`..`z`, all else stays.
pub open spec fn lower_byte(c: u8) -> u8 {
    if 'A' as u8 <= c && c <= 'Z' as u8 {
        (c + 32) as u8
    } else {
        c
    }
}

/// ASCII lower-casing of a byte string.
pub open spec fn lower(s: Seq<u8>) -> Seq<u8> {
    s.map_values(|c: u8| lower_byte(c))
}

/// Lower-casing twice is the same as lower-casing once.
pub proof fn lemma_lower_idempotent(s: Seq<u8>)
    ensures
        lower(lower(s)) == lower(s),
{
    assert(lower(lower(s)) =~= lower(s));
}

/// The first position at or after `i` holding a byte that is not whitespace,
/// or the length if all of the rest is whitespace.
pub open spec fn skip_ws(s: Seq<u8>, i: int) -> int
    decreases s.len() - i,
        when 0 <= i <= s.len()
{
    if i == s.len() || !is_ws(s[i]) {
        i
    } else {
        skip_ws(s, i + 1)
    }
}

/// `skip_ws` lands between its start and the length, on a non-whitespace
/// byte unless it lands at the end, and everything it skipped is whitespace.
pub proof fn lemma_skip_ws(s: Seq<u8>, i: int)
    requires
        0 <= i <= s.len(),
    ensures
        i <= skip_ws(s, i) <= s.len(),
        skip_ws(s, i) < s.len() ==> !is_ws(s[skip_ws(s, i)]),
        forall|j: int| i <= j < skip_ws(s, i) ==> is_ws(s[j]),
    decreases s.len() - i,
{
    if i < s.len() && is_ws(s[i]) {
        lemma_skip_ws(s, i + 1);
    }
}

/// The position one past the last whitespace-free byte strictly before `i`;
/// scanning from `i` leftwards, whitespace is dropped.
pub open spec fn trim_end_idx(s: Seq<u8>, i: int) -> int
    decreases i,
        when 0 <= i <= s.len()
{
    if i == 0 || !is_ws(s[i - 1]) {
        i
    } else {
        trim_end_idx(s, i - 1)
    }
}

/// `trim_end_idx` lands between zero and its start, right after a
/// non-whitespace byte unless it lands at zero, and everything it dropped
/// is whitespace.
pub proof fn lemma_trim_end_idx(s: Seq<u8>, i: int)
    requires
        0 <= i <= s.len(),
    ensures
        0 <= trim_end_idx(s, i) <= i,
        trim_end_idx(s, i) > 0 ==> !is_ws(s[trim_end_idx(s, i) - 1]),
        forall|j: int| trim_end_idx(s, i) <= j < i ==> is_ws(s[j]),
    decreases i,
{
    if i > 0 && is_ws(s[i - 1]) {
        lemma_trim_end_idx(s, i - 1);
    }
}

/// The first position at or after `i` holding whitespace, or the length if
/// none of the rest is whitespace.
pub open spec fn token_end(s: Seq<u8>, i: int) -> int
    decreases s.len() - i,
        when 0 <= i <= s.len()
{
    if i == s.len() || is_ws(s[i]) {
        i
    } else {
        token_end(s, i + 1)
    }
}

/// `token_end` lands between its start and the length, on whitespace unless
/// it lands at the end, and everything it passed is not whitespace.
pub proof fn lemma_token_end(s: Seq<u8>, i: int)
    requires
        0 <= i <= s.len(),
    ensures
        i <= token_end(s, i) <= s.len(),
        token_end(s, i) < s.len() ==> is_ws(s[token_end(s, i)]),
        forall|j: int| i <= j < token_end(s, i) ==> !is_ws(s[j]),
    decreases s.len() - i,
{
    if i < s.len() && !is_ws(s[i]) {
        lemma_token_end(s, i + 1);
    }
}

/// A byte string with leading and trailing whitespace dropped.
pub open spec fn trim(s: Seq<u8>) -> Seq<u8> {
    let a = skip_ws(s, 0);
    let b = trim_end_idx(s, s.len() as int);
    if a <= b {
        s.subrange(a, b)
    } else {
        Seq::empty()
    }
}

/// The position of the first occurrence of `b` at or after `i`, if any.
pub open spec fn find_byte(s: Seq<u8>, i: int, b: u8) -> Option<int>
    decreases s.len() - i,
        when 0 <= i <= s.len()
{
    if i == s.len() {
        None
    } else if s[i] == b {
        Some(i)
    } else {
        find_byte(s, i + 1, b)
    }
}

/// Where `find_byte` finds a byte, it is the first one; where it finds none,
/// there is none.
pub proof fn lemma_find_byte(s: Seq<u8>, i: int, b: u8)
    requires
        0 <= i <= s.len(),
    ensures
        match find_byte(s, i, b) {
            Some(c) => i <= c < s.len() && s[c] == b && forall|j: int| i <= j < c ==> s[j] != b,
            None => forall|j: int| i <= j < s.len() ==> s[j] != b,
        },
    decreases s.len() - i,
{
    if i < s.len() && s[i] != b {
        lemma_find_byte(s, i + 1, b);
    }
}

/// Find the first occurrence of `b` at or after `i`.
pub fn find_byte_idx(s: &[u8], i: usize, b: u8) -> (r: Option<usize>)
    requires
        i <= s@.len(),
    ensures
        match r {
            Some(c) => find_byte(s@, i as int, b) == Some(c as int) && i <= c < s@.len(),
            None => find_byte(s@, i as int, b) is None,
        },
{
    let mut j = i;
    while j < s.len()
        invariant
            i <= j <= s@.len(),
            find_byte(s@, i as int, b) == find_byte(s@, j as int, b),
        decreases s@.len() - j,
    {
        if s[j] == b {
            return Some(j);
        }
        j += 1;
    }
    None
}

/// Whether `pre` is a prefix of `s`.
pub open spec fn is_prefix(pre: Seq<u8>, s: Seq<u8>) -> bool {
    pre.len() <= s.len() && s.subrange(0, pre.len() as int) == pre
}

/// Decide whether `s` starts with `pre`.
pub fn starts_with(s: &[u8], pre: &[u8]) -> (r: bool)
    ensures
        r == is_prefix(pre@, s@),
{
    if pre.len() > s.len() {
        return false;
    }
    bytes_eq(vstd::slice::slice_subrange(s, 0, pre.len()), pre)
}

/// Exact byte-string equality.
pub fn bytes_eq(a: &[u8], b: &[u8]) -> (r: bool)
    ensures
        r == (a@ == b@),
{
    if a.len() != b.len() {
        assert(a@ != b@);
        return false;
    }
    let mut i: usize = 0;
    while i < a.len()
        invariant
            0 <= i <= a.len(),
            a@.len() == b@.len(),
            forall|j: int| 0 <= j < i ==> a@[j] == b@[j],
        decreases a.len() - i,
    {
        if a[i] != b[i] {
            return false;
        }
        i += 1;
    }
    assert(a@ =~= b@);
    true
}

/// Copy the bytes of `s` between `a` and `b` into a fresh vector.
pub fn subrange_to_vec(s: &[u8], a: usize, b: usize) -> (r: Vec<u8>)
    requires
        0 <= a <= b <= s@.len(),
    ensures
        r@ == s@.subrange(a as int, b as int),
{
    vstd::slice::slice_to_vec(vstd::slice::slice_subrange(s, a, b))
}

/// Walk forward from `i` over whitespace.
pub fn skip_ws_idx(s: &[u8], i: usize) -> (r: usize)
    requires
        0 <= i <= s@.len(),
    ensures
        r == skip_ws(s@, i as int),
        i <= r <= s@.len(),
{
    let mut j = i;
    while j < s.len() && (s[j] == 32 || s[j] == 9 || s[j] == 13 || s[j] == 10)
        invariant
            i <= j <= s@.len(),
            skip_ws(s@, i as int) == skip_ws(s@, j as int),
        decreases s@.len() - j,
    {
        j += 1;
    }
    j
}

/// Walk backward from `i` over whitespace.
pub fn trim_end_pos(s: &[u8], i: usize) -> (r: usize)
    requires
        0 <= i <= s@.len(),
    ensures
        r == trim_end_idx(s@, i as int),
        0 <= r <= i,
{
    let mut j = i;
    while j > 0 && (s[j - 1] == 32 || s[j - 1] == 9 || s[j - 1] == 13 || s[j - 1] == 10)
        invariant
            0 <= j <= i <= s@.len(),
            trim_end_idx(s@, i as int) == trim_end_idx(s@, j as int),
        decreases j,
    {
        j -= 1;
    }
    j
}

/// Walk forward from `i` to the end of a whitespace-free token.
pub fn token_end_idx(s: &[u8], i: usize) -> (r: usize)
    requires
        0 <= i <= s@.len(),
    ensures
        r == token_end(s@, i as int),
        i <= r <= s@.len(),
{
    let mut j = i;
    while j < s.len() && !(s[j] == 32 || s[j] == 9 || s[j] == 13 || s[j] == 10)
        invariant
            i <= j <= s@.len(),
            token_end(s@, i as int) == token_end(s@, j as int),
        decreases s@.len() - j,
    {
        j += 1;
    }
    j
}

/// Drop leading and trailing whitespace.
pub fn trim_bytes(s: &[u8]) -> (r: Vec<u8>)
    ensures
        r@ == trim(s@),
{
    let a = skip_ws_idx(s, 0);
    let b = trim_end_pos(s, s.len());
    proof {
        lemma_skip_ws(s@, 0);
        lemma_trim_end_idx(s@, s@.len() as int);
    }
    if a <= b {
        subrange_to_vec(s, a, b)
    } else {
        assert(trim(s@) =~= Seq::<u8>::empty());
        Vec::new()
    }
}

/// Lower-case a byte string, byte by byte.
pub fn to_lower(s: &[u8]) -> (r: Vec<u8>)
    ensures
        r@ == lower(s@),
{
    let mut out: Vec<u8> = Vec::new();
    let mut i: usize = 0;
    while i < s.len()
        invariant
            0 <= i <= s.len(),
            out@.len() == i,
            forall|j: int| 0 <= j < i ==> out@[j] == lower_byte(s@[j]),
        decreases s.len() - i,
    {
        let c = s[i];
        if 'A' as u8 <= c && c <= 'Z' as u8 {
            out.push(c + 32);
        } else {
            out.push(c);
        }
        i += 1;
    }
    assert(out@ =~= lower(s@));
    out
}

} // verus!
