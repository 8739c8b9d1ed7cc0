//! Literal-substring search over character sequences.
//!
//! Positions throughout the crate count characters, and the view of a
//! string is its character sequence. `first_match` is the canonical
//! specification of "the first occurrence of a pattern at or after a
//! position"; every cursor operation is specified in terms of it.

use vstd::prelude::*;

verus! {

/// ASCII whitespace, the only whitespace the scanners recognize.
pub open spec fn is_ws_char(c: char) -> bool {
    c == ' ' || c == '\t' || c == '\n' || c == '\r' || c == '\u{0B}' || c == '\u{0C}'
}

/// A decimal digit.
pub open spec fn is_digit_char(c: char) -> bool {
    (c as int) >= 48 && (c as int) <= 57
}

/// A lowercase ASCII letter.
pub open spec fn is_lower_char(c: char) -> bool {
    (c as int) >= 97 && (c as int) <= 122
}

/// An uppercase ASCII letter.
pub open spec fn is_upper_char(c: char) -> bool {
    (c as int) >= 65 && (c as int) <= 90
}

/// Whether `c` counts as whitespace.
pub fn is_ws(c: char) -> (r: bool)
    ensures
        r == is_ws_char(c),
{
    c == ' ' || c == '\t' || c == '\n' || c == '\r' || c == '\u{0B}' || c == '\u{0C}'
}

/// Whether `c` is a decimal digit.
pub fn is_digit(c: char) -> (r: bool)
    ensures
        r == is_digit_char(c),
{
    (c as u32) >= 48 && (c as u32) <= 57
}

/// Whether `c` is a lowercase ASCII letter.
pub fn is_lower(c: char) -> (r: bool)
    ensures
        r == is_lower_char(c),
{
    (c as u32) >= 97 && (c as u32) <= 122
}

/// Whether `c` is an uppercase ASCII letter.
pub fn is_upper(c: char) -> (r: bool)
    ensures
        r == is_upper_char(c),
{
    (c as u32) >= 65 && (c as u32) <= 90
}

/// The index of the first character at or after `i` that is not whitespace,
/// or the end of `s`.
pub open spec fn ws_end(s: Seq<char>, i: int) -> int
    decreases s.len() - i,
{
    if 0 <= i < s.len() && is_ws_char(s[i]) {
        ws_end(s, i + 1)
    } else {
        i
    }
}

/// `ws_end` stays within `s`, skips only whitespace, and stops at the end
/// of `s` or at the first non-whitespace character.
pub proof fn lemma_ws_end(s: Seq<char>, i: int)
    requires
        0 <= i <= s.len(),
    ensures
        i <= ws_end(s, i) <= s.len(),
        forall|k: int| i <= k < ws_end(s, i) ==> is_ws_char(s[k]),
        ws_end(s, i) == s.len() || !is_ws_char(s[ws_end(s, i)]),
    decreases s.len() - i,
{
    if 0 <= i < s.len() && is_ws_char(s[i]) {
        lemma_ws_end(s, i + 1);
    }
}

/// The index of the first whitespace character at or after `i`, or the end
/// of `s`: the end of the token that begins at `i`.
pub open spec fn token_end(s: Seq<char>, i: int) -> int
    decreases s.len() - i,
{
    if 0 <= i < s.len() && !is_ws_char(s[i]) {
        token_end(s, i + 1)
    } else {
        i
    }
}

/// `token_end` stays within `s`, passes only non-whitespace, and stops at
/// the end of `s` or at the first whitespace character.
pub proof fn lemma_token_end(s: Seq<char>, i: int)
    requires
        0 <= i <= s.len(),
    ensures
        i <= token_end(s, i) <= s.len(),
        forall|k: int| i <= k < token_end(s, i) ==> !is_ws_char(s[k]),
        token_end(s, i) == s.len() || is_ws_char(s[token_end(s, i)]),
    decreases s.len() - i,
{
    if 0 <= i < s.len() && !is_ws_char(s[i]) {
        lemma_token_end(s, i + 1);
    }
}

/// `pat` occurs in `s` starting exactly at index `i`.
pub open spec fn match_at(s: Seq<char>, pat: Seq<char>, i: int) -> bool {
    0 <= i && i + pat.len() <= s.len() && s.subrange(i, i + pat.len()) == pat
}

/// The index of the first occurrence of `pat` in `s` at or after `from`,
/// or `None` when `pat` does not occur there.
pub open spec fn first_match(s: Seq<char>, pat: Seq<char>, from: int) -> Option<int>
    decreases s.len() - from,
{
    if from < 0 || from > s.len() {
        None
    } else if match_at(s, pat, from) {
        Some(from)
    } else if from >= s.len() {
        None
    } else {
        first_match(s, pat, from + 1)
    }
}

/// What `first_match` returns is a match, and the earliest one.
pub proof fn lemma_first_match(s: Seq<char>, pat: Seq<char>, from: int)
    requires
        0 <= from <= s.len(),
    ensures
        match first_match(s, pat, from) {
            Some(j) => {
                &&& from <= j <= s.len()
                &&& match_at(s, pat, j)
                &&& forall|k: int| from <= k < j ==> !match_at(s, pat, k)
            },
            None => forall|k: int| from <= k ==> !match_at(s, pat, k),
        },
    decreases s.len() - from,
{
    if match_at(s, pat, from) {
    } else if from >= s.len() {
        assert forall|k: int| from <= k implies !match_at(s, pat, k) by {
            if k + pat.len() <= s.len() && k >= from {
                assert(k == from && pat.len() == 0);
            }
        }
    } else {
        lemma_first_match(s, pat, from + 1);
    }
}

/// A match is the same thing as character-for-character agreement.
pub proof fn lemma_match_chars(s: Seq<char>, pat: Seq<char>, i: int)
    ensures
        match_at(s, pat, i) <==> (0 <= i && i + pat.len() <= s.len() && forall|d: int|
            0 <= d < pat.len() ==> s[i + d] == pat[d]),
{
    if 0 <= i && i + pat.len() <= s.len() {
        if match_at(s, pat, i) {
            assert forall|d: int| 0 <= d < pat.len() implies s[i + d] == pat[d] by {
                assert(s.subrange(i, i + pat.len())[d] == s[i + d]);
            }
        }
        if forall|d: int| 0 <= d < pat.len() ==> s[i + d] == pat[d] {
            assert(s.subrange(i, i + pat.len()) =~= pat);
        }
    }
}

/// One character of a match, read off the pattern.
pub proof fn lemma_match_char_at(s: Seq<char>, pat: Seq<char>, i: int, d: int)
    requires
        match_at(s, pat, i),
        0 <= d < pat.len(),
    ensures
        s[i + d] == pat[d],
{
    assert(s.subrange(i, i + pat.len())[d] == s[i + d]);
}

/// A match with none before it is what `first_match` returns.
pub proof fn lemma_first_match_exact(s: Seq<char>, pat: Seq<char>, from: int, p: int)
    requires
        0 <= from <= s.len(),
        from <= p,
        match_at(s, pat, p),
        forall|k: int| from <= k < p ==> !match_at(s, pat, k),
    ensures
        first_match(s, pat, from) == Some(p),
{
    lemma_first_match(s, pat, from);
    match first_match(s, pat, from) {
        Some(j) => {
            if j < p {
                assert(!match_at(s, pat, j));
            }
            if j > p {
                assert(!match_at(s, pat, p));
            }
        },
        None => {
            assert(!match_at(s, pat, p));
        },
    }
}

/// Searching in a suffix finds the same occurrences, shifted.
pub proof fn lemma_first_match_suffix(s: Seq<char>, pat: Seq<char>, j: int, from: int)
    requires
        0 <= j <= from <= s.len(),
    ensures
        first_match(s, pat, from) == (match first_match(
            s.subrange(j, s.len() as int),
            pat,
            from - j,
        ) {
            Some(p) => Some(p + j),
            None => None::<int>,
        }),
    decreases s.len() - from,
{
    let t = s.subrange(j, s.len() as int);
    assert(match_at(s, pat, from) == match_at(t, pat, from - j)) by {
        if 0 <= from && from + pat.len() <= s.len() {
            assert(s.subrange(from, from + pat.len()) =~= t.subrange(
                from - j,
                from - j + pat.len(),
            ));
        }
    }
    if match_at(s, pat, from) {
    } else if from >= s.len() {
    } else {
        lemma_first_match_suffix(s, pat, j, from + 1);
    }
}

/// Whether `s` compares equal to `pat` over `pat`'s length at `i`.
fn match_here(s: &str, pat: &str, i: usize) -> (r: bool)
    requires
        i + pat@.len() <= s@.len(),
    ensures
        r == match_at(s@, pat@, i as int),
{
    let n = s.unicode_len();
    let m = pat.unicode_len();
    let mut j: usize = 0;
    while j < m
        invariant
            0 <= j <= m,
            n == s@.len(),
            m == pat@.len(),
            i + m <= n,
            forall|k: int| 0 <= k < j ==> s@[i + k] == pat@[k],
        decreases m - j,
    {
        if s.get_char(i + j) != pat.get_char(j) {
            assert(s@.subrange(i as int, i + pat@.len())[j as int] == s@[i + j]);
            return false;
        }
        j += 1;
    }
    proof {
        assert(s@.subrange(i as int, i + pat@.len()) =~= pat@);
    }
    true
}

/// The first occurrence of `pat` in `s` at or after character index `from`.
pub fn find_from(s: &str, pat: &str, from: usize) -> (r: Option<usize>)
    requires
        from <= s@.len(),
    ensures
        match r {
            Some(j) => first_match(s@, pat@, from as int) == Some(j as int),
            None => first_match(s@, pat@, from as int) is None,
        },
{
    let n = s.unicode_len();
    let m = pat.unicode_len();
    proof {
        lemma_first_match(s@, pat@, from as int);
    }
    if m > n {
        return None;
    }
    if m == 0 {
        proof {
            assert(s@.subrange(from as int, from as int) =~= pat@);
        }
        return Some(from);
    }
    if from > n - m {
        assert forall|k: int| from <= k implies !match_at(s@, pat@, k) by {}
        return None;
    }
    let mut i: usize = from;
    while i <= n - m
        invariant
            from <= i <= n - m + 1,
            1 <= m <= n,
            n == s@.len(),
            m == pat@.len(),
            forall|k: int| from <= k < i ==> !match_at(s@, pat@, k),
        decreases n - m - i + 1,
    {
        if match_here(s, pat, i) {
            proof {
                lemma_first_match(s@, pat@, from as int);
            }
            return Some(i);
        }
        i += 1;
    }
    assert forall|k: int| from <= k implies !match_at(s@, pat@, k) by {
        if k + pat@.len() <= s@.len() {
            assert(k <= n - m);
        }
    }
    None
}

} // verus!
