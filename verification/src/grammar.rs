//! The reference grammar: a ranked list of surface forms of a
//! cross-reference, and the hyperlink each resolves to.
//!
//! Five forms are tried at every position, most specific first:
//! document-and-clause (`TS 23.501 [2], clause 5.4.4.1b`), clause-first
//! (`clause 5.3.3.1 (text) of TS 23.401 [13]`), a bare `clause C`, a bare
//! numeral after `in` or `see`, and a document citation alone
//! (`TS 23.501 [2]`). A match carries the span of the document number and
//! of the clause label it captured; the whole matched span becomes the
//! link's visible text. The scan is leftmost: the earliest position where
//! any form matches wins, and scanning resumes after the match.
//!
//! A clause label is a digit followed by digits, dots and lowercase
//! letters, at least two characters, never ending in a dot — so a
//! sentence-final reference does not absorb the full stop. Whitespace is
//! ASCII whitespace. The optional parenthesized text in the clause-first
//! form runs to the first closing parenthesis and may not contain `<`,
//! `>`, `^` or `.`.

use vstd::prelude::*;

use crate::scan::is_digit;
use crate::scan::is_digit_char;
use crate::scan::is_lower;
use crate::scan::is_lower_char;
use crate::scan::is_ws;
use crate::scan::is_ws_char;
use crate::scan::ws_end;

verus! {

/// A recognized cross-reference: where it ends, where the document
/// number stands (always six characters), and where the clause label
/// stands.
pub struct RefMatch {
    pub end: int,
    pub ts: Option<int>,
    pub clause: Option<(int, int)>,
}

/// The same match with executable indices.
pub struct FoundRef {
    pub end: usize,
    pub ts: Option<usize>,
    pub clause: Option<(usize, usize)>,
}

impl FoundRef {
    /// The mathematical match this record stands for.
    pub open spec fn to_match(self) -> RefMatch {
        RefMatch {
            end: self.end as int,
            ts: match self.ts {
                Some(t) => Some(t as int),
                None => None,
            },
            clause: match self.clause {
                Some((a, b)) => Some((a as int, b as int)),
                None => None,
            },
        }
    }

    /// The recorded spans lie within `s`, after `i`.
    pub open spec fn in_bounds(self, s: Seq<char>, i: int) -> bool {
        &&& i < self.end <= s.len()
        &&& match self.ts {
            Some(t) => t + 6 <= s.len(),
            None => true,
        }
        &&& match self.clause {
            Some((a, b)) => 0 <= a <= b <= s.len(),
            None => true,
        }
    }
}

/// The word `TS` stands at `i`.
pub open spec fn word_ts_at(s: Seq<char>, i: int) -> bool {
    0 <= i && i + 2 <= s.len() && s[i] == 'T' && s[i + 1] == 'S'
}

/// The word `in` stands at `i`.
pub open spec fn word_in_at(s: Seq<char>, i: int) -> bool {
    0 <= i && i + 2 <= s.len() && s[i] == 'i' && s[i + 1] == 'n'
}

/// The word `see` stands at `i`.
pub open spec fn word_see_at(s: Seq<char>, i: int) -> bool {
    0 <= i && i + 3 <= s.len() && s[i] == 's' && s[i + 1] == 'e' && s[i + 2] == 'e'
}

/// The word `of` stands at `i`.
pub open spec fn word_of_at(s: Seq<char>, i: int) -> bool {
    0 <= i && i + 2 <= s.len() && s[i] == 'o' && s[i + 1] == 'f'
}

/// The keyword `clause` or `Clause` stands at `i`.
pub open spec fn word_clause_at(s: Seq<char>, i: int) -> bool {
    &&& 0 <= i && i + 6 <= s.len()
    &&& (s[i] == 'c' || s[i] == 'C')
    &&& s[i + 1] == 'l' && s[i + 2] == 'a' && s[i + 3] == 'u' && s[i + 4] == 's' && s[i + 5]
        == 'e'
}

/// A six-character document number `NN.NNN` stands at `i`.
pub open spec fn ts_no_at(s: Seq<char>, i: int) -> bool {
    &&& 0 <= i && i + 6 <= s.len()
    &&& is_digit_char(s[i]) && is_digit_char(s[i + 1])
    &&& s[i + 2] == '.'
    &&& is_digit_char(s[i + 3]) && is_digit_char(s[i + 4]) && is_digit_char(s[i + 5])
}

/// At least one whitespace character at `i`: the position after the run,
/// or nothing when `i` holds no whitespace.
pub open spec fn ws_plus(s: Seq<char>, i: int) -> Option<int> {
    if 0 <= i < s.len() && is_ws_char(s[i]) {
        Some(ws_end(s, i))
    } else {
        None
    }
}

/// The position after the word `TS` and its trailing whitespace, when
/// both stand at `i`; otherwise `i` itself — the word is optional.
pub open spec fn after_opt_ts_word(s: Seq<char>, i: int) -> int {
    if word_ts_at(s, i) && ws_plus(s, i + 2) is Some {
        ws_plus(s, i + 2)->Some_0
    } else {
        i
    }
}

/// The position after an optional `in` or `see` and its trailing
/// whitespace.
pub open spec fn after_opt_in_see(s: Seq<char>, i: int) -> int {
    if word_in_at(s, i) && ws_plus(s, i + 2) is Some {
        ws_plus(s, i + 2)->Some_0
    } else if word_see_at(s, i) && ws_plus(s, i + 3) is Some {
        ws_plus(s, i + 3)->Some_0
    } else {
        i
    }
}

/// The first non-digit at or after `i`, or the end of `s`.
pub open spec fn digits_end(s: Seq<char>, i: int) -> int
    decreases s.len() - i,
{
    if 0 <= i < s.len() && is_digit_char(s[i]) {
        digits_end(s, i + 1)
    } else {
        i
    }
}

/// A bracketed citation `[N]` with at least one digit stands at `i`: the
/// position after the closing bracket.
pub open spec fn bracket_end(s: Seq<char>, i: int) -> Option<int> {
    if 0 <= i < s.len() && s[i] == '[' {
        let d = digits_end(s, i + 1);
        if d > i + 1 && d < s.len() && s[d] == ']' {
            Some(d + 1)
        } else {
            None
        }
    } else {
        None
    }
}

/// A character a clause label may contain: a digit, a dot, or a
/// lowercase letter.
pub open spec fn is_clause_mid_char(c: char) -> bool {
    is_digit_char(c) || c == '.' || is_lower_char(c)
}

/// A character a clause label may end with: a digit or a lowercase
/// letter, never a dot.
pub open spec fn is_clause_end_char(c: char) -> bool {
    is_digit_char(c) || is_lower_char(c)
}

/// The first character at or after `i` that no clause label contains, or
/// the end of `s`.
pub open spec fn clause_run_end(s: Seq<char>, i: int) -> int
    decreases s.len() - i,
{
    if 0 <= i < s.len() && is_clause_mid_char(s[i]) {
        clause_run_end(s, i + 1)
    } else {
        i
    }
}

/// The largest `j` in `[lo, k]` whose preceding character may end a
/// clause label.
pub open spec fn clause_back(s: Seq<char>, lo: int, k: int) -> Option<int>
    decreases k - lo,
{
    if k < lo {
        None
    } else if 0 <= k - 1 < s.len() && is_clause_end_char(s[k - 1]) {
        Some(k)
    } else if k == lo {
        None
    } else {
        clause_back(s, lo, k - 1)
    }
}

/// A clause label begins at `i`: a digit, then digits, dots and
/// lowercase letters, at least two characters, ending in a digit or a
/// letter. The position after the longest such label, or nothing.
pub open spec fn clause_label_end(s: Seq<char>, i: int) -> Option<int> {
    if 0 <= i < s.len() && is_digit_char(s[i]) {
        clause_back(s, i + 2, clause_run_end(s, i + 1))
    } else {
        None
    }
}

/// The first character at or after `i` that ends a parenthesized text:
/// `<`, `>`, `^`, `.` or `)`, or the end of `s`.
pub open spec fn paren_class_end(s: Seq<char>, i: int) -> int
    decreases s.len() - i,
{
    if 0 <= i < s.len() && s[i] != '<' && s[i] != '>' && s[i] != '^' && s[i] != '.' && s[i]
        != ')' {
        paren_class_end(s, i + 1)
    } else {
        i
    }
}

/// The position after an optional parenthesized text and its trailing
/// whitespace: `(`, at least one character none of `<`, `>`, `^`, `.`,
/// then `)` and whitespace. Where no such group follows, `i` itself.
pub open spec fn after_opt_paren(s: Seq<char>, i: int) -> int {
    if 0 <= i < s.len() && s[i] == '(' {
        let q = paren_class_end(s, i + 1);
        if q > i + 1 && q < s.len() && s[q] == ')' && ws_plus(s, q + 1) is Some {
            ws_plus(s, q + 1)->Some_0
        } else {
            i
        }
    } else {
        i
    }
}

/// Form one: `[TS] NN.NNN [k][,] clause C` — document, citation and
/// clause, the `TS` word and the comma optional.
pub open spec fn alt_ts_clause_at(s: Seq<char>, i: int) -> Option<RefMatch> {
    let j = after_opt_ts_word(s, i);
    if ts_no_at(s, j) {
        match ws_plus(s, j + 6) {
            Some(w1) => match bracket_end(s, w1) {
                Some(b) => {
                    let k = if b < s.len() && s[b] == ',' {
                        b + 1
                    } else {
                        b
                    };
                    match ws_plus(s, k) {
                        Some(w2) => {
                            if word_clause_at(s, w2) {
                                match ws_plus(s, w2 + 6) {
                                    Some(w3) => match clause_label_end(s, w3) {
                                        Some(ce) => Some(
                                            RefMatch {
                                                end: ce,
                                                ts: Some(j),
                                                clause: Some((w3, ce)),
                                            },
                                        ),
                                        None => None,
                                    },
                                    None => None,
                                }
                            } else {
                                None
                            }
                        },
                        None => None,
                    }
                },
                None => None,
            },
            None => None,
        }
    } else {
        None
    }
}

/// Form two: `[in|see] clause C [(text)] of|in TS NN.NNN [k]` — clause
/// first, document after.
pub open spec fn alt_clause_of_ts_at(s: Seq<char>, i: int) -> Option<RefMatch> {
    let j = after_opt_in_see(s, i);
    if word_clause_at(s, j) {
        match ws_plus(s, j + 6) {
            Some(w1) => match clause_label_end(s, w1) {
                Some(ce) => match ws_plus(s, ce) {
                    Some(w2) => {
                        let p = after_opt_paren(s, w2);
                        if (word_of_at(s, p) || word_in_at(s, p)) && ws_plus(s, p + 2) is Some {
                            let w3 = ws_plus(s, p + 2)->Some_0;
                            if word_ts_at(s, w3) && ws_plus(s, w3 + 2) is Some {
                                let w4 = ws_plus(s, w3 + 2)->Some_0;
                                if ts_no_at(s, w4) && ws_plus(s, w4 + 6) is Some {
                                    let w5 = ws_plus(s, w4 + 6)->Some_0;
                                    match bracket_end(s, w5) {
                                        Some(b) => Some(
                                            RefMatch {
                                                end: b,
                                                ts: Some(w4),
                                                clause: Some((w1, ce)),
                                            },
                                        ),
                                        None => None,
                                    }
                                } else {
                                    None
                                }
                            } else {
                                None
                            }
                        } else {
                            None
                        }
                    },
                    None => None,
                },
                None => None,
            },
            None => None,
        }
    } else {
        None
    }
}

/// Form three: `[in|see] clause C` — the bare keyword form, no document.
pub open spec fn alt_clause_at(s: Seq<char>, i: int) -> Option<RefMatch> {
    let j = after_opt_in_see(s, i);
    if word_clause_at(s, j) {
        match ws_plus(s, j + 6) {
            Some(w1) => match clause_label_end(s, w1) {
                Some(ce) => Some(RefMatch { end: ce, ts: None, clause: Some((w1, ce)) }),
                None => None,
            },
            None => None,
        }
    } else {
        None
    }
}

/// Form four: `in|see C` — a bare numeral, the leading word mandatory so
/// that arbitrary numbers stay unlinked.
pub open spec fn alt_in_see_at(s: Seq<char>, i: int) -> Option<RefMatch> {
    let w = if word_in_at(s, i) && ws_plus(s, i + 2) is Some {
        Some(ws_plus(s, i + 2)->Some_0)
    } else if word_see_at(s, i) && ws_plus(s, i + 3) is Some {
        Some(ws_plus(s, i + 3)->Some_0)
    } else {
        None
    };
    match w {
        Some(w1) => match clause_label_end(s, w1) {
            Some(ce) => Some(RefMatch { end: ce, ts: None, clause: Some((w1, ce)) }),
            None => None,
        },
        None => None,
    }
}

/// Form five: `[TS] NN.NNN [k]` — a document citation alone.
pub open spec fn alt_ts_at(s: Seq<char>, i: int) -> Option<RefMatch> {
    let j = after_opt_ts_word(s, i);
    if ts_no_at(s, j) {
        match ws_plus(s, j + 6) {
            Some(w1) => match bracket_end(s, w1) {
                Some(b) => Some(RefMatch { end: b, ts: Some(j), clause: None }),
                None => None,
            },
            None => None,
        }
    } else {
        None
    }
}

/// The reference recognized at `i`: the five forms tried in rank order.
#[verifier::opaque]
pub open spec fn find_ref_at(s: Seq<char>, i: int) -> Option<RefMatch> {
    if alt_ts_clause_at(s, i) is Some {
        alt_ts_clause_at(s, i)
    } else if alt_clause_of_ts_at(s, i) is Some {
        alt_clause_of_ts_at(s, i)
    } else if alt_clause_at(s, i) is Some {
        alt_clause_at(s, i)
    } else if alt_in_see_at(s, i) is Some {
        alt_in_see_at(s, i)
    } else {
        alt_ts_at(s, i)
    }
}

/// The hyperlink target a match resolves to: `../{ts}/{ts}.html` for a
/// foreign document, `#{clause}` for a clause, both when both were
/// captured.
pub open spec fn link_target(s: Seq<char>, m: RefMatch) -> Seq<char> {
    (match m.ts {
        Some(t) => "../"@ + s.subrange(t, t + 6) + "/"@ + s.subrange(t, t + 6) + ".html"@,
        None => Seq::<char>::empty(),
    }) + (match m.clause {
        Some((a, b)) => "#"@ + s.subrange(a, b),
        None => Seq::<char>::empty(),
    })
}

/// `s` from `i` on with every recognized cross-reference wrapped in an
/// anchor: the whole matched span becomes the link's visible text, and
/// the scan resumes after it.
pub open spec fn links_added_from(s: Seq<char>, i: int) -> Seq<char>
    decreases s.len() - i,
{
    if i < 0 || i >= s.len() {
        Seq::empty()
    } else {
        match find_ref_at(s, i) {
            Some(m) => {
                if i < m.end <= s.len() {
                    "<a href=\""@ + link_target(s, m) + "\">"@ + s.subrange(i, m.end) + "</a>"@
                        + links_added_from(s, m.end)
                } else {
                    seq![s[i]] + links_added_from(s, i + 1)
                }
            },
            None => seq![s[i]] + links_added_from(s, i + 1),
        }
    }
}

/// Whether `c` may stand inside a clause label.
fn is_clause_mid(c: char) -> (r: bool)
    ensures
        r == is_clause_mid_char(c),
{
    is_digit(c) || c == '.' || is_lower(c)
}

/// Whether `c` may end a clause label.
fn is_clause_end(c: char) -> (r: bool)
    ensures
        r == is_clause_end_char(c),
{
    is_digit(c) || is_lower(c)
}

/// The position after the whitespace run at `i`.
fn scan_ws(s: &str, i: usize) -> (r: usize)
    requires
        i as int <= s@.len(),
    ensures
        r as int == ws_end(s@, i as int),
        i <= r,
        r as int <= s@.len(),
{
    let n = s.unicode_len();
    let mut p = i;
    while p < n && is_ws(s.get_char(p))
        invariant
            i <= p <= n,
            n == s@.len(),
            ws_end(s@, i as int) == ws_end(s@, p as int),
        decreases n - p,
    {
        p = p + 1;
    }
    p
}

/// At least one whitespace character at `i`, and the position after the
/// run.
fn ws_plus_at(s: &str, i: usize) -> (r: Option<usize>)
    requires
        i as int <= s@.len(),
    ensures
        match r {
            Some(w) => ws_plus(s@, i as int) == Some(w as int) && i < w && w as int <= s@.len(),
            None => ws_plus(s@, i as int) is None,
        },
{
    let n = s.unicode_len();
    if i < n && is_ws(s.get_char(i)) {
        let w = scan_ws(s, i);
        assert(ws_end(s@, i as int) == ws_end(s@, i + 1));
        proof {
            crate::scan::lemma_ws_end(s@, i + 1);
        }
        Some(w)
    } else {
        None
    }
}

/// Whether the word `TS` stands at `i`.
fn check_word_ts(s: &str, i: usize) -> (r: bool)
    ensures
        r == word_ts_at(s@, i as int),
{
    let n = s.unicode_len();
    n >= 2 && i <= n - 2 && s.get_char(i) == 'T' && s.get_char(i + 1) == 'S'
}

/// Whether the word `in` stands at `i`.
fn check_word_in(s: &str, i: usize) -> (r: bool)
    ensures
        r == word_in_at(s@, i as int),
{
    let n = s.unicode_len();
    n >= 2 && i <= n - 2 && s.get_char(i) == 'i' && s.get_char(i + 1) == 'n'
}

/// Whether the word `see` stands at `i`.
fn check_word_see(s: &str, i: usize) -> (r: bool)
    ensures
        r == word_see_at(s@, i as int),
{
    let n = s.unicode_len();
    n >= 3 && i <= n - 3 && s.get_char(i) == 's' && s.get_char(i + 1) == 'e' && s.get_char(i + 2)
        == 'e'
}

/// Whether the word `of` stands at `i`.
fn check_word_of(s: &str, i: usize) -> (r: bool)
    ensures
        r == word_of_at(s@, i as int),
{
    let n = s.unicode_len();
    n >= 2 && i <= n - 2 && s.get_char(i) == 'o' && s.get_char(i + 1) == 'f'
}

/// Whether `clause` or `Clause` stands at `i`.
fn check_word_clause(s: &str, i: usize) -> (r: bool)
    ensures
        r == word_clause_at(s@, i as int),
{
    let n = s.unicode_len();
    n >= 6 && i <= n - 6 && (s.get_char(i) == 'c' || s.get_char(i) == 'C') && s.get_char(i + 1)
        == 'l' && s.get_char(i + 2) == 'a' && s.get_char(i + 3) == 'u' && s.get_char(i + 4) == 's'
        && s.get_char(i + 5) == 'e'
}

/// Whether a six-character document number stands at `i`.
fn check_ts_no(s: &str, i: usize) -> (r: bool)
    ensures
        r == ts_no_at(s@, i as int),
{
    let n = s.unicode_len();
    n >= 6 && i <= n - 6 && is_digit(s.get_char(i)) && is_digit(s.get_char(i + 1)) && s.get_char(
        i + 2,
    ) == '.' && is_digit(s.get_char(i + 3)) && is_digit(s.get_char(i + 4)) && is_digit(
        s.get_char(i + 5),
    )
}

/// The position after the optional word `TS` and its whitespace.
fn after_ts_word(s: &str, i: usize) -> (r: usize)
    requires
        i as int <= s@.len(),
    ensures
        r as int == after_opt_ts_word(s@, i as int),
        i <= r,
        r as int <= s@.len(),
{
    if check_word_ts(s, i) {
        let n = s.unicode_len();
        match ws_plus_at(s, i + 2) {
            Some(w) => w,
            None => i,
        }
    } else {
        i
    }
}

/// The position after an optional `in` or `see` and its whitespace.
fn after_in_see(s: &str, i: usize) -> (r: usize)
    requires
        i as int <= s@.len(),
    ensures
        r as int == after_opt_in_see(s@, i as int),
        i <= r,
        r as int <= s@.len(),
{
    let n = s.unicode_len();
    if check_word_in(s, i) {
        match ws_plus_at(s, i + 2) {
            Some(w) => w,
            None => i,
        }
    } else if check_word_see(s, i) {
        match ws_plus_at(s, i + 3) {
            Some(w) => w,
            None => i,
        }
    } else {
        i
    }
}

/// The position after the digit run at `i`.
fn scan_digits(s: &str, i: usize) -> (r: usize)
    requires
        i as int <= s@.len(),
    ensures
        r as int == digits_end(s@, i as int),
        i <= r,
        r as int <= s@.len(),
{
    let n = s.unicode_len();
    let mut p = i;
    while p < n && is_digit(s.get_char(p))
        invariant
            i <= p <= n,
            n == s@.len(),
            digits_end(s@, i as int) == digits_end(s@, p as int),
        decreases n - p,
    {
        p = p + 1;
    }
    p
}

/// A bracketed citation at `i`, and the position after it.
fn bracket_end_at(s: &str, i: usize) -> (r: Option<usize>)
    requires
        i as int <= s@.len(),
    ensures
        match r {
            Some(b) => bracket_end(s@, i as int) == Some(b as int) && i < b && b as int
                <= s@.len(),
            None => bracket_end(s@, i as int) is None,
        },
{
    let n = s.unicode_len();
    if i < n && s.get_char(i) == '[' {
        let d = scan_digits(s, i + 1);
        if d > i + 1 && d < n && s.get_char(d) == ']' {
            Some(d + 1)
        } else {
            None
        }
    } else {
        None
    }
}

/// The position after the clause-character run at `i`.
fn scan_clause_run(s: &str, i: usize) -> (r: usize)
    requires
        i as int <= s@.len(),
    ensures
        r as int == clause_run_end(s@, i as int),
        i <= r,
        r as int <= s@.len(),
{
    let n = s.unicode_len();
    let mut p = i;
    while p < n && is_clause_mid(s.get_char(p))
        invariant
            i <= p <= n,
            n == s@.len(),
            clause_run_end(s@, i as int) == clause_run_end(s@, p as int),
        decreases n - p,
    {
        p = p + 1;
    }
    p
}

/// The longest clause label at `i`, and the position after it.
fn clause_label_end_at(s: &str, i: usize) -> (r: Option<usize>)
    requires
        i as int <= s@.len(),
    ensures
        match r {
            Some(ce) => clause_label_end(s@, i as int) == Some(ce as int) && i + 2 <= ce
                && ce as int <= s@.len(),
            None => clause_label_end(s@, i as int) is None,
        },
{
    let n = s.unicode_len();
    if i < n && is_digit(s.get_char(i)) {
        let m = scan_clause_run(s, i + 1);
        if m - i < 2 {
            return None;
        }
        let lo = i + 2;
        let mut k = m;
        while k >= lo && !is_clause_end(s.get_char(k - 1))
            invariant
                lo == i + 2,
                i + 1 <= m <= n,
                n == s@.len(),
                k <= m,
                lo <= k + 1,
                clause_back(s@, lo as int, m as int) == clause_back(s@, lo as int, k as int),
            decreases k,
        {
            k = k - 1;
        }
        if k < lo {
            None
        } else {
            Some(k)
        }
    } else {
        None
    }
}

/// The position after the parenthesized-text run at `i`.
fn scan_paren_class(s: &str, i: usize) -> (r: usize)
    requires
        i as int <= s@.len(),
    ensures
        r as int == paren_class_end(s@, i as int),
        i <= r,
        r as int <= s@.len(),
{
    let n = s.unicode_len();
    let mut p = i;
    while p < n && s.get_char(p) != '<' && s.get_char(p) != '>' && s.get_char(p) != '^'
        && s.get_char(p) != '.' && s.get_char(p) != ')'
        invariant
            i <= p <= n,
            n == s@.len(),
            paren_class_end(s@, i as int) == paren_class_end(s@, p as int),
        decreases n - p,
    {
        p = p + 1;
    }
    p
}

/// The position after an optional parenthesized text and its whitespace.
fn after_paren(s: &str, i: usize) -> (r: usize)
    requires
        i as int <= s@.len(),
    ensures
        r as int == after_opt_paren(s@, i as int),
        i <= r,
        r as int <= s@.len(),
{
    let n = s.unicode_len();
    if i < n && s.get_char(i) == '(' {
        let q = scan_paren_class(s, i + 1);
        if q > i + 1 && q < n && s.get_char(q) == ')' {
            match ws_plus_at(s, q + 1) {
                Some(w) => w,
                None => i,
            }
        } else {
            i
        }
    } else {
        i
    }
}

/// Tries the document-and-clause form at `i`.
fn try_alt_ts_clause(s: &str, i: usize) -> (r: Option<FoundRef>)
    requires
        i as int <= s@.len(),
    ensures
        match r {
            Some(f) => alt_ts_clause_at(s@, i as int) == Some(f.to_match()) && f.in_bounds(
                s@,
                i as int,
            ),
            None => alt_ts_clause_at(s@, i as int) is None,
        },
{
    let n = s.unicode_len();
    let j = after_ts_word(s, i);
    if !check_ts_no(s, j) {
        return None;
    }
    let w1 = match ws_plus_at(s, j + 6) {
        Some(w) => w,
        None => {
            return None;
        },
    };
    let b = match bracket_end_at(s, w1) {
        Some(b) => b,
        None => {
            return None;
        },
    };
    let k = if b < n && s.get_char(b) == ',' {
        b + 1
    } else {
        b
    };
    let w2 = match ws_plus_at(s, k) {
        Some(w) => w,
        None => {
            return None;
        },
    };
    if !check_word_clause(s, w2) {
        return None;
    }
    let w3 = match ws_plus_at(s, w2 + 6) {
        Some(w) => w,
        None => {
            return None;
        },
    };
    match clause_label_end_at(s, w3) {
        Some(ce) => Some(FoundRef { end: ce, ts: Some(j), clause: Some((w3, ce)) }),
        None => None,
    }
}

/// Tries the clause-first form at `i`.
fn try_alt_clause_of_ts(s: &str, i: usize) -> (r: Option<FoundRef>)
    requires
        i as int <= s@.len(),
    ensures
        match r {
            Some(f) => alt_clause_of_ts_at(s@, i as int) == Some(f.to_match()) && f.in_bounds(
                s@,
                i as int,
            ),
            None => alt_clause_of_ts_at(s@, i as int) is None,
        },
{
    let n = s.unicode_len();
    let j = after_in_see(s, i);
    if !check_word_clause(s, j) {
        return None;
    }
    let w1 = match ws_plus_at(s, j + 6) {
        Some(w) => w,
        None => {
            return None;
        },
    };
    let ce = match clause_label_end_at(s, w1) {
        Some(ce) => ce,
        None => {
            return None;
        },
    };
    let w2 = match ws_plus_at(s, ce) {
        Some(w) => w,
        None => {
            return None;
        },
    };
    let p = after_paren(s, w2);
    if !(check_word_of(s, p) || check_word_in(s, p)) {
        return None;
    }
    let w3 = match ws_plus_at(s, p + 2) {
        Some(w) => w,
        None => {
            return None;
        },
    };
    if !check_word_ts(s, w3) {
        return None;
    }
    let w4 = match ws_plus_at(s, w3 + 2) {
        Some(w) => w,
        None => {
            return None;
        },
    };
    if !check_ts_no(s, w4) {
        return None;
    }
    let w5 = match ws_plus_at(s, w4 + 6) {
        Some(w) => w,
        None => {
            return None;
        },
    };
    match bracket_end_at(s, w5) {
        Some(b) => Some(FoundRef { end: b, ts: Some(w4), clause: Some((w1, ce)) }),
        None => None,
    }
}

/// Tries the bare `clause C` form at `i`.
fn try_alt_clause(s: &str, i: usize) -> (r: Option<FoundRef>)
    requires
        i as int <= s@.len(),
    ensures
        match r {
            Some(f) => alt_clause_at(s@, i as int) == Some(f.to_match()) && f.in_bounds(
                s@,
                i as int,
            ),
            None => alt_clause_at(s@, i as int) is None,
        },
{
    let n = s.unicode_len();
    let j = after_in_see(s, i);
    if !check_word_clause(s, j) {
        return None;
    }
    let w1 = match ws_plus_at(s, j + 6) {
        Some(w) => w,
        None => {
            return None;
        },
    };
    match clause_label_end_at(s, w1) {
        Some(ce) => Some(FoundRef { end: ce, ts: None, clause: Some((w1, ce)) }),
        None => None,
    }
}

/// Tries the bare numeral form at `i`.
fn try_alt_in_see(s: &str, i: usize) -> (r: Option<FoundRef>)
    requires
        i as int <= s@.len(),
    ensures
        match r {
            Some(f) => alt_in_see_at(s@, i as int) == Some(f.to_match()) && f.in_bounds(
                s@,
                i as int,
            ),
            None => alt_in_see_at(s@, i as int) is None,
        },
{
    let n = s.unicode_len();
    let w1 = if check_word_in(s, i) {
        match ws_plus_at(s, i + 2) {
            Some(w) => w,
            None => {
                return None;
            },
        }
    } else if check_word_see(s, i) {
        match ws_plus_at(s, i + 3) {
            Some(w) => w,
            None => {
                return None;
            },
        }
    } else {
        return None;
    };
    match clause_label_end_at(s, w1) {
        Some(ce) => Some(FoundRef { end: ce, ts: None, clause: Some((w1, ce)) }),
        None => None,
    }
}

/// Tries the document-citation form at `i`.
fn try_alt_ts(s: &str, i: usize) -> (r: Option<FoundRef>)
    requires
        i as int <= s@.len(),
    ensures
        match r {
            Some(f) => alt_ts_at(s@, i as int) == Some(f.to_match()) && f.in_bounds(
                s@,
                i as int,
            ),
            None => alt_ts_at(s@, i as int) is None,
        },
{
    let n = s.unicode_len();
    let j = after_ts_word(s, i);
    if !check_ts_no(s, j) {
        return None;
    }
    let w1 = match ws_plus_at(s, j + 6) {
        Some(w) => w,
        None => {
            return None;
        },
    };
    match bracket_end_at(s, w1) {
        Some(b) => Some(FoundRef { end: b, ts: Some(j), clause: None }),
        None => None,
    }
}

/// The reference recognized at `i`, the five forms tried in rank order.
pub fn try_ref_at(s: &str, i: usize) -> (r: Option<FoundRef>)
    requires
        i as int <= s@.len(),
    ensures
        match r {
            Some(f) => find_ref_at(s@, i as int) == Some(f.to_match()) && f.in_bounds(
                s@,
                i as int,
            ),
            None => find_ref_at(s@, i as int) is None,
        },
{
    proof {
        reveal(find_ref_at);
    }
    match try_alt_ts_clause(s, i) {
        Some(f) => {
            return Some(f);
        },
        None => {},
    }
    match try_alt_clause_of_ts(s, i) {
        Some(f) => {
            return Some(f);
        },
        None => {},
    }
    match try_alt_clause(s, i) {
        Some(f) => {
            return Some(f);
        },
        None => {},
    }
    match try_alt_in_see(s, i) {
        Some(f) => {
            return Some(f);
        },
        None => {},
    }
    try_alt_ts(s, i)
}

} // verus!
