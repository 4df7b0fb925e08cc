use vstd::prelude::*;
use vstd::string::StringSliceAdditionalSpecFns;
use vstd::utf8::*;

verus! {

/// Whether `c` is ASCII whitespace: space, tab, line feed, form feed or carriage return.
pub open spec fn is_ascii_ws(c: char) -> bool {
    c == ' ' || c == '\t' || c == '\n' || c == '\x0C' || c == '\r'
}

/// The first position at or after `i` that does not hold ASCII whitespace.
pub open spec fn skip_ws(s: Seq<char>, i: int) -> int
    decreases s.len() - i,
{
    if 0 <= i < s.len() && is_ascii_ws(s[i]) {
        skip_ws(s, i + 1)
    } else {
        i
    }
}

/// The first position at or after `i` that holds ASCII whitespace, or the end.
pub open spec fn skip_word(s: Seq<char>, i: int) -> int
    decreases s.len() - i,
{
    if 0 <= i < s.len() && !is_ascii_ws(s[i]) {
        skip_word(s, i + 1)
    } else {
        i
    }
}


/// Number of ASCII-whitespace-separated tokens in `s` from position `i` on.
pub open spec fn count_tokens(s: Seq<char>, i: int) -> nat
    decreases s.len() - i,
{
    let a = skip_ws(s, i);
    if a < i || a >= s.len() {
        0
    } else {
        let b = skip_word(s, a);
        if b <= a || b > s.len() {
            0
        } else {
            1 + count_tokens(s, b)
        }
    }
}

/// `skip_ws` moves forward within bounds and stops on a non-whitespace character.
pub proof fn lemma_skip_ws(s: Seq<char>, i: int)
    requires
        0 <= i <= s.len(),
    ensures
        i <= skip_ws(s, i) <= s.len(),
        skip_ws(s, i) < s.len() ==> !is_ascii_ws(s[skip_ws(s, i)]),
    decreases s.len() - i,
{
    if i < s.len() && is_ascii_ws(s[i]) {
        lemma_skip_ws(s, i + 1);
    }
}

/// `skip_word` moves forward within bounds, past at least one character of a word.
pub proof fn lemma_skip_word(s: Seq<char>, i: int)
    requires
        0 <= i <= s.len(),
    ensures
        i <= skip_word(s, i) <= s.len(),
        i < s.len() && !is_ascii_ws(s[i]) ==> i < skip_word(s, i),
    decreases s.len() - i,
{
    if i < s.len() && !is_ascii_ws(s[i]) {
        lemma_skip_word(s, i + 1);
    }
}

/// Number of bytes before the first line feed, or all of them when there is none.
pub open spec fn line_len(b: Seq<u8>) -> nat
    decreases b.len(),
{
    if b.len() == 0 {
        0
    } else if b[0] == 10u8 {
        0
    } else {
        1 + line_len(b.drop_first())
    }
}

fn is_ws_char(c: char) -> (r: bool)
    ensures
        r == is_ascii_ws(c),
{
    c == ' ' || c == '\t' || c == '\n' || c == '\x0C' || c == '\r'
}

/// The first position at or after `i` that does not hold ASCII whitespace (`n` is
/// the length of `s` in characters).
pub fn skip_ws_from(s: &str, n: usize, i: usize) -> (r: usize)
    requires
        n == s@.len(),
        i <= n,
    ensures
        r == skip_ws(s@, i as int),
        i <= r <= n,
{
    let mut k = i;
    while k < n && is_ws_char(s.get_char(k))
        invariant
            i <= k <= n,
            n == s@.len(),
            skip_ws(s@, k as int) == skip_ws(s@, i as int),
        decreases n - k,
    {
        k = k + 1;
    }
    k
}

/// The first position at or after `i` that holds ASCII whitespace, or `n`.
pub fn skip_word_from(s: &str, n: usize, i: usize) -> (r: usize)
    requires
        n == s@.len(),
        i <= n,
    ensures
        r == skip_word(s@, i as int),
        i <= r <= n,
{
    let mut k = i;
    while k < n && !is_ws_char(s.get_char(k))
        invariant
            i <= k <= n,
            n == s@.len(),
            skip_word(s@, k as int) == skip_word(s@, i as int),
        decreases n - k,
    {
        k = k + 1;
    }
    k
}

proof fn lemma_line_len(b: Seq<u8>, start: int, k: int)
    requires
        0 <= start <= k <= b.len(),
        forall|i: int| start <= i < k ==> b[i] != 10u8,
        k == b.len() || b[k] == 10u8,
    ensures
        line_len(b.subrange(start, b.len() as int)) == k - start,
    decreases k - start,
{
    let rest = b.subrange(start, b.len() as int);
    if start < k {
        lemma_line_len(b, start + 1, k);
        assert(rest.drop_first() =~= b.subrange(start + 1, b.len() as int));
        assert(rest[0] == b[start]);
    } else if k < b.len() {
        assert(rest[0] == b[k]);
    }
}

/// Position of the first line feed at or after `start`, or the length of `b`.
pub fn line_end(b: &[u8], start: usize) -> (e: usize)
    requires
        start <= b@.len(),
    ensures
        start <= e <= b@.len(),
        e == start + line_len(b@.subrange(start as int, b@.len() as int)),
        e < b@.len() ==> b@[e as int] == 10u8,
{
    let n = b.len();
    let mut k = start;
    while k < n && b[k] != 10u8
        invariant
            start <= k <= n,
            n == b@.len(),
            forall|j: int| start <= j < k ==> b@[j] != 10u8,
        decreases n - k,
    {
        k = k + 1;
    }
    proof {
        lemma_line_len(b@, start as int, k as int);
    }
    k
}

/// Relies on std::str::from_utf8: it succeeds exactly on valid UTF-8, and the text
/// it returns is made of those very bytes.
#[verifier::external_body]
pub fn utf8_text(b: &[u8]) -> (r: Option<&str>)
    ensures
        r is Some <==> valid_utf8(b@),
        r matches Some(s) ==> s.spec_bytes() == b@,
{
    std::str::from_utf8(b).ok()
}

/// Whether the characters of `a` are those of `b`.
pub fn same_text(a: &str, b: &str) -> (r: bool)
    ensures
        r == (a@ == b@),
{
    let n = a.unicode_len();
    let r = segment_is(a, 0, n, b);
    assert(a@.subrange(0, n as int) =~= a@);
    r
}

/// Whether the characters of `s` from `from` to `to` are exactly those of `lit`.
pub fn segment_is(s: &str, from: usize, to: usize, lit: &str) -> (r: bool)
    requires
        from <= to <= s@.len(),
    ensures
        r == (s@.subrange(from as int, to as int) == lit@),
{
    let m = lit.unicode_len();
    if to - from != m {
        return false;
    }
    let mut k: usize = 0;
    while k < m
        invariant
            k <= m,
            m == lit@.len(),
            to - from == m,
            from <= to <= s@.len(),
            forall|j: int| 0 <= j < k ==> s@[from + j] == lit@[j],
        decreases m - k,
    {
        if s.get_char(from + k) != lit.get_char(k) {
            assert(s@.subrange(from as int, to as int)[k as int] != lit@[k as int]);
            return false;
        }
        k = k + 1;
    }
    assert(s@.subrange(from as int, to as int) =~= lit@);
    true
}

} // verus!
