use vstd::prelude::*;

use crate::conn::copy_range;

verus! {

/// ASCII whitespace, as it separates the parts of a request line.
pub open spec fn is_ws(b: u8) -> bool {
    b == 0x20u8 || b == 0x09u8 || b == 0x0Au8 || b == 0x0Bu8 || b == 0x0Cu8 || b == 0x0Du8
}

/// The first index from `i` on that holds no whitespace, or the length.
pub open spec fn skip_ws(s: Seq<u8>, i: int) -> int
    decreases s.len() - i,
{
    if i < 0 || i >= s.len() {
        s.len() as int
    } else if is_ws(s[i]) {
        skip_ws(s, i + 1)
    } else {
        i
    }
}

/// The first index from `i` on that holds whitespace, or the length.
pub open spec fn token_end(s: Seq<u8>, i: int) -> int
    decreases s.len() - i,
{
    if i < 0 || i >= s.len() {
        s.len() as int
    } else if is_ws(s[i]) {
        i
    } else {
        token_end(s, i + 1)
    }
}

/// Where the `k`-th whitespace-separated token of `s` starts (the length once there is none).
pub open spec fn token_start(s: Seq<u8>, k: nat) -> int
    decreases k,
{
    if k == 0 {
        skip_ws(s, 0)
    } else {
        skip_ws(s, token_end(s, token_start(s, (k - 1) as nat)))
    }
}

/// The `k`-th whitespace-separated token of `s`.
pub open spec fn token(s: Seq<u8>, k: nat) -> Seq<u8> {
    s.subrange(token_start(s, k), token_end(s, token_start(s, k)))
}

/// True when `s` holds at least three whitespace-separated tokens.
pub open spec fn has_three_tokens(s: Seq<u8>) -> bool {
    token_start(s, 2) < s.len()
}

proof fn lemma_skip_ws_bounds(s: Seq<u8>, i: int)
    requires
        0 <= i <= s.len(),
    ensures
        i <= skip_ws(s, i) <= s.len(),
    decreases s.len() - i,
{
    if i < s.len() && is_ws(s[i]) {
        lemma_skip_ws_bounds(s, i + 1);
    }
}

proof fn lemma_token_end_bounds(s: Seq<u8>, i: int)
    requires
        0 <= i <= s.len(),
    ensures
        i <= token_end(s, i) <= s.len(),
    decreases s.len() - i,
{
    if i < s.len() && !is_ws(s[i]) {
        lemma_token_end_bounds(s, i + 1);
    }
}

fn is_ws_byte(b: u8) -> (r: bool)
    ensures
        r == is_ws(b),
{
    b == 0x20 || b == 0x09 || b == 0x0A || b == 0x0B || b == 0x0C || b == 0x0D
}

fn skip_ws_at(s: &[u8], i: usize) -> (r: usize)
    requires
        i <= s@.len(),
    ensures
        r == skip_ws(s@, i as int),
{
    let mut j = i;
    while j < s.len() && is_ws_byte(s[j])
        invariant
            i <= j <= s@.len(),
            skip_ws(s@, j as int) == skip_ws(s@, i as int),
        decreases s@.len() - j,
    {
        j = j + 1;
    }
    j
}

fn token_end_at(s: &[u8], i: usize) -> (r: usize)
    requires
        i <= s@.len(),
    ensures
        r == token_end(s@, i as int),
{
    let mut j = i;
    while j < s.len() && !is_ws_byte(s[j])
        invariant
            i <= j <= s@.len(),
            token_end(s@, j as int) == token_end(s@, i as int),
        decreases s@.len() - j,
    {
        j = j + 1;
    }
    j
}

/// The method, target and version of a request line: its first three whitespace-separated
/// tokens, or `None` when it holds fewer.
pub fn split_request_line(line: &[u8]) -> (r: Option<(Vec<u8>, Vec<u8>, Vec<u8>)>)
    ensures
        r is Some <==> has_three_tokens(line@),
        r matches Some(t) ==> t.0@ == token(line@, 0) && t.1@ == token(line@, 1) && t.2@ == token(
            line@,
            2,
        ),
{
    let s0 = skip_ws_at(line, 0);
    proof {
        lemma_skip_ws_bounds(line@, 0);
    }
    let e0 = token_end_at(line, s0);
    proof {
        lemma_token_end_bounds(line@, s0 as int);
    }
    let s1 = skip_ws_at(line, e0);
    proof {
        lemma_skip_ws_bounds(line@, e0 as int);
    }
    let e1 = token_end_at(line, s1);
    proof {
        lemma_token_end_bounds(line@, s1 as int);
    }
    let s2 = skip_ws_at(line, e1);
    proof {
        lemma_skip_ws_bounds(line@, e1 as int);
        assert(s0 == token_start(line@, 0));
        assert(s1 == token_start(line@, 1));
        assert(s2 == token_start(line@, 2));
    }
    if s2 >= line.len() {
        return None;
    }
    let e2 = token_end_at(line, s2);
    proof {
        lemma_token_end_bounds(line@, s2 as int);
    }
    Some((copy_range(line, s0, e0), copy_range(line, s1, e1), copy_range(line, s2, e2)))
}

/// True when `b` is a space or a tab, the whitespace trimmed around header names and values.
pub open spec fn is_blank(b: u8) -> bool {
    b == 0x20u8 || b == 0x09u8
}

/// The first index in `lo..hi` that holds no blank, or `hi`.
pub open spec fn trim_lo(s: Seq<u8>, lo: int, hi: int) -> int
    decreases hi - lo,
{
    if lo >= hi {
        hi
    } else if is_blank(s[lo]) {
        trim_lo(s, lo + 1, hi)
    } else {
        lo
    }
}

/// One past the last index in `lo..hi` that holds no blank, or `lo`.
pub open spec fn trim_hi(s: Seq<u8>, lo: int, hi: int) -> int
    decreases hi - lo,
{
    if lo >= hi {
        lo
    } else if is_blank(s[hi - 1]) {
        trim_hi(s, lo, hi - 1)
    } else {
        hi
    }
}

/// `s[lo..hi]` without its leading and trailing blanks.
pub open spec fn trimmed(s: Seq<u8>, lo: int, hi: int) -> Seq<u8> {
    s.subrange(trim_lo(s, lo, hi), trim_hi(s, trim_lo(s, lo, hi), hi))
}

/// A copy of `s[lo..hi]` without its leading and trailing blanks.
fn trim_range(s: &[u8], lo: usize, hi: usize) -> (r: Vec<u8>)
    requires
        lo <= hi <= s@.len(),
    ensures
        r@ == trimmed(s@, lo as int, hi as int),
{
    let mut a = lo;
    while a < hi && (s[a] == 0x20 || s[a] == 0x09)
        invariant
            lo <= a <= hi,
            hi <= s@.len(),
            trim_lo(s@, a as int, hi as int) == trim_lo(s@, lo as int, hi as int),
        decreases hi - a,
    {
        a = a + 1;
    }
    let mut b = hi;
    while b > a && (s[b - 1] == 0x20 || s[b - 1] == 0x09)
        invariant
            a <= b <= hi,
            hi <= s@.len(),
            trim_hi(s@, a as int, b as int) == trim_hi(s@, a as int, hi as int),
        decreases b - a,
    {
        b = b - 1;
    }
    copy_range(s, a, b)
}

/// True when `c` is the index of the first `:` of `s`.
pub open spec fn first_colon(s: Seq<u8>, c: int) -> bool {
    0 <= c < s.len() && s[c] == 0x3Au8 && forall|j: int| 0 <= j < c ==> s[j] != 0x3Au8
}

/// A header line split at its first `:`, both sides trimmed; `None` when it holds no `:`.
pub fn split_header_line(line: &[u8]) -> (r: Option<(Vec<u8>, Vec<u8>)>)
    ensures
        r is None <==> forall|j: int| 0 <= j < line@.len() ==> line@[j] != 0x3Au8,
        r matches Some(nv) ==> exists|c: int|
            first_colon(line@, c) && nv.0@ == trimmed(line@, 0, c) && nv.1@ == trimmed(
                line@,
                c + 1,
                line@.len() as int,
            ),
{
    let mut c: usize = 0;
    while c < line.len() && line[c] != 0x3A
        invariant
            c <= line@.len(),
            forall|j: int| 0 <= j < c ==> line@[j] != 0x3Au8,
        decreases line@.len() - c,
    {
        c = c + 1;
    }
    if c >= line.len() {
        return None;
    }
    let name = trim_range(line, 0, c);
    let value = trim_range(line, c + 1, line.len());
    assert(first_colon(line@, c as int));
    Some((name, value))
}

/// `b` with ASCII capitals made small.
pub open spec fn lower_byte(b: u8) -> u8 {
    if 0x41u8 <= b <= 0x5Au8 {
        (b + 0x20u8) as u8
    } else {
        b
    }
}

/// `s` with ASCII capitals made small.
pub open spec fn ascii_lower(s: Seq<u8>) -> Seq<u8> {
    s.map_values(|b: u8| lower_byte(b))
}

/// A copy of `s` with ASCII capitals made small.
pub fn to_ascii_lower(s: &[u8]) -> (r: Vec<u8>)
    ensures
        r@ == ascii_lower(s@),
{
    let mut r: Vec<u8> = Vec::new();
    let mut i: usize = 0;
    while i < s.len()
        invariant
            i <= s@.len(),
            r@ == ascii_lower(s@.subrange(0, i as int)),
        decreases s@.len() - i,
    {
        let b = s[i];
        let l = if 0x41 <= b && b <= 0x5A {
            b + 0x20
        } else {
            b
        };
        r.push(l);
        i = i + 1;
        assert(ascii_lower(s@.subrange(0, i as int)) =~= ascii_lower(s@.subrange(0, i - 1)).push(
            lower_byte(s@[i - 1]),
        ));
    }
    assert(s@.subrange(0, s@.len() as int) == s@);
    r
}

/// True when `s` is one or more ASCII digits.
pub open spec fn all_digits(s: Seq<u8>) -> bool {
    s.len() > 0 && forall|i: int| 0 <= i < s.len() ==> 0x30u8 <= #[trigger] s[i] <= 0x39u8
}

/// The number that the ASCII digits `s` write in decimal.
pub open spec fn decimal_value(s: Seq<u8>) -> int
    decreases s.len(),
{
    if s.len() == 0 {
        0
    } else {
        decimal_value(s.drop_last()) * 10 + (s.last() - 0x30u8)
    }
}

proof fn lemma_decimal_grows(s: Seq<u8>, i: int)
    requires
        0 <= i <= s.len(),
        forall|j: int| 0 <= j < s.len() ==> 0x30u8 <= #[trigger] s[j] <= 0x39u8,
    ensures
        0 <= decimal_value(s.subrange(0, i)) <= decimal_value(s),
    decreases s.len() - i,
{
    if i < s.len() {
        lemma_decimal_grows(s, i + 1);
        let p = s.subrange(0, i + 1);
        assert(p.drop_last() =~= s.subrange(0, i));
        lemma_decimal_nonneg(s.subrange(0, i));
    } else {
        assert(s.subrange(0, i) =~= s);
    }
    lemma_decimal_nonneg(s);
}

proof fn lemma_decimal_nonneg(s: Seq<u8>)
    requires
        forall|j: int| 0 <= j < s.len() ==> 0x30u8 <= #[trigger] s[j] <= 0x39u8,
    ensures
        decimal_value(s) >= 0,
    decreases s.len(),
{
    if s.len() > 0 {
        lemma_decimal_nonneg(s.drop_last());
    }
}

/// The value of a `Content-Length`: ASCII digits whose value fits in a `usize`.
pub fn parse_content_length(s: &[u8]) -> (r: Option<usize>)
    ensures
        r is Some <==> all_digits(s@) && decimal_value(s@) <= usize::MAX,
        r matches Some(n) ==> n == decimal_value(s@),
{
    if s.len() == 0 {
        return None;
    }
    let mut v: usize = 0;
    let mut i: usize = 0;
    while i < s.len()
        invariant
            i <= s@.len(),
            forall|j: int| 0 <= j < i ==> 0x30u8 <= #[trigger] s@[j] <= 0x39u8,
            v == decimal_value(s@.subrange(0, i as int)),
        decreases s@.len() - i,
    {
        let b = s[i];
        if b < 0x30 || b > 0x39 {
            return None;
        }
        let d = (b - 0x30) as usize;
        assert(s@.subrange(0, i + 1).drop_last() =~= s@.subrange(0, i as int));
        if v > (usize::MAX - d) / 10 {
            proof {
                assert(v * 10 + d > usize::MAX) by (nonlinear_arith)
                    requires
                        v > (usize::MAX - d) / 10,
                        0 <= d <= 9,
                ;
                assert(forall|j: int| 0 <= j < i + 1 ==> 0x30u8 <= #[trigger] s@[j] <= 0x39u8);
                if all_digits(s@) {
                    lemma_decimal_grows(s@, i + 1);
                }
            }
            return None;
        }
        proof {
            assert(v * 10 + d <= usize::MAX) by (nonlinear_arith)
                requires
                    v <= (usize::MAX - d) / 10,
                    0 <= d <= 9,
            ;
        }
        v = v * 10 + d;
        i = i + 1;
    }
    assert(s@.subrange(0, s@.len() as int) == s@);
    Some(v)
}

} // verus!
