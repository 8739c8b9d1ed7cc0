//! The rewriting pipeline over a converted document.
//!
//! Five stages run in a fixed order: hard-space entities become plain
//! spaces, language-tagged inline spans collapse to their content, the
//! table of contents gets anchor links, headings get `id` attributes for
//! their clause numbers, and recognized cross-references become
//! hyperlinks. Each stage reads its input once, front to back, and
//! degrades to copying text verbatim wherever a pattern is absent.

use vstd::prelude::*;

use crate::scan::first_match;
use crate::scan::is_digit;
use crate::scan::is_digit_char;
use crate::scan::is_ws;
use crate::scan::is_lower;
use crate::scan::is_lower_char;
use crate::scan::is_upper;
use crate::scan::is_upper_char;
use crate::scan::lemma_first_match;
use crate::scan::lemma_first_match_exact;
use crate::scan::lemma_first_match_suffix;
use crate::scan::lemma_match_char_at;
use crate::scan::lemma_match_chars;
use crate::scan::lemma_token_end;
use crate::scan::lemma_ws_end;
use crate::scan::match_at;
use crate::scan::token_end;
use crate::scan::ws_end;
use crate::scan::find_from;
use crate::source_modifier::SourceModifier;
use crate::source_parser::begin_of;
use crate::source_parser::end_of;
use crate::source_parser::precedes;
use crate::source_parser::SourceParser;
use crate::grammar::link_target;
use crate::grammar::links_added_from;
use crate::grammar::try_ref_at;

verus! {

/// `s` from `i` on, with every occurrence of `pat` replaced by `rep`,
/// leftmost first, never rescanning a replacement.
pub open spec fn replaced(s: Seq<char>, pat: Seq<char>, rep: Seq<char>, i: int) -> Seq<char>
    decreases s.len() - i,
{
    if i < 0 || i >= s.len() {
        Seq::empty()
    } else if pat.len() > 0 && match_at(s, pat, i) {
        rep + replaced(s, pat, rep, i + pat.len())
    } else {
        seq![s[i]] + replaced(s, pat, rep, i + 1)
    }
}

/// Over a stretch free of occurrences, replacement copies verbatim.
proof fn lemma_replaced_skip(s: Seq<char>, pat: Seq<char>, rep: Seq<char>, i: int, j: int)
    requires
        0 <= i <= j <= s.len(),
        pat.len() > 0,
        forall|k: int| i <= k < j ==> !match_at(s, pat, k),
    ensures
        replaced(s, pat, rep, i) == s.subrange(i, j) + replaced(s, pat, rep, j),
    decreases j - i,
{
    if i == j {
        assert(s.subrange(i, j) =~= Seq::<char>::empty());
        assert(s.subrange(i, j) + replaced(s, pat, rep, j) =~= replaced(s, pat, rep, j));
    } else {
        lemma_replaced_skip(s, pat, rep, i + 1, j);
        assert(seq![s[i]] + (s.subrange(i + 1, j) + replaced(s, pat, rep, j)) =~= s.subrange(
            i,
            j,
        ) + replaced(s, pat, rep, j));
    }
}

/// Every occurrence of `pat` in `content`, replaced by `rep`.
fn replace_literal(content: &str, pat: &str, rep: &str) -> (r: String)
    requires
        pat@.len() > 0,
    ensures
        r@ == replaced(content@, pat@, rep@, 0),
{
    let n = content.unicode_len();
    let plen = pat.unicode_len();
    let mut out = String::new();
    let mut i: usize = 0;
    loop
        invariant_except_break
            0 <= i <= n,
            n == content@.len(),
            plen == pat@.len(),
            plen > 0,
            out@ + replaced(content@, pat@, rep@, i as int) == replaced(content@, pat@, rep@, 0),
        ensures
            out@ == replaced(content@, pat@, rep@, 0),
        decreases n - i,
    {
        match find_from(content, pat, i) {
            Some(j) => {
                proof {
                    lemma_first_match(content@, pat@, i as int);
                    lemma_replaced_skip(content@, pat@, rep@, i as int, j as int);
                }
                let ghost pre = out@;
                out.append(content.substring_char(i, j));
                out.append(rep);
                proof {
                    assert(pre + (content@.subrange(i as int, j as int) + (rep@ + replaced(
                        content@,
                        pat@,
                        rep@,
                        j + plen,
                    ))) =~= out@ + replaced(content@, pat@, rep@, j + plen));
                }
                i = j + plen;
            },
            None => {
                proof {
                    lemma_first_match(content@, pat@, i as int);
                    lemma_replaced_skip(content@, pat@, rep@, i as int, n as int);
                    assert(replaced(content@, pat@, rep@, n as int) =~= Seq::<char>::empty());
                    assert(content@.subrange(i as int, n as int) + Seq::<char>::empty()
                        =~= content@.subrange(i as int, n as int));
                }
                out.append(content.substring_char(i, n));
                break;
            },
        }
    }
    out
}

/// What `remove_hard_spaces` returns: hard-space entities become plain
/// spaces.
pub open spec fn hard_spaces_removed(s: Seq<char>) -> Seq<char> {
    replaced(s, "&nbsp;"@, " "@, 0)
}

/// Replaces every hard-space entity in the document with a plain space.
pub fn remove_hard_spaces(content: &String) -> (r: String)
    ensures
        r@ == hard_spaces_removed(content@),
{
    proof {
        reveal_strlit("&nbsp;");
    }
    replace_literal(content.as_str(), "&nbsp;", " ")
}

/// An inline span tagged with a language code of the `xx-YY` shape
/// opens at `i`.
pub open spec fn span_open_at(s: Seq<char>, i: int) -> bool {
    &&& i + 19 <= s.len()
    &&& match_at(s, "<span lang=\""@, i)
    &&& is_lower_char(s[i + 12]) && is_lower_char(s[i + 13])
    &&& s[i + 14] == '-'
    &&& is_upper_char(s[i + 15]) && is_upper_char(s[i + 16])
    &&& s[i + 17] == '"' && s[i + 18] == '>'
}

/// `s` from `i` on, with every language-tagged inline span collapsed to
/// its inner content. A span without a closing tag is left as it stands.
pub open spec fn lang_spans_removed(s: Seq<char>, i: int) -> Seq<char>
    decreases s.len() - i,
{
    if i < 0 || i >= s.len() {
        Seq::empty()
    } else if span_open_at(s, i) && first_match(s, "</span>"@, i + 19) is Some {
        let c = first_match(s, "</span>"@, i + 19)->Some_0;
        if i + 19 <= c && c + 7 <= s.len() {
            s.subrange(i + 19, c) + lang_spans_removed(s, c + 7)
        } else {
            seq![s[i]] + lang_spans_removed(s, i + 1)
        }
    } else {
        seq![s[i]] + lang_spans_removed(s, i + 1)
    }
}

/// Over a stretch where no span opens, the collapse copies verbatim.
proof fn lemma_lang_spans_skip(s: Seq<char>, i: int, j: int)
    requires
        0 <= i <= j <= s.len(),
        forall|k: int| i <= k < j ==> !span_open_at(s, k),
    ensures
        lang_spans_removed(s, i) == s.subrange(i, j) + lang_spans_removed(s, j),
    decreases j - i,
{
    if i == j {
        assert(s.subrange(i, j) =~= Seq::<char>::empty());
        assert(s.subrange(i, j) + lang_spans_removed(s, j) =~= lang_spans_removed(s, j));
    } else {
        lemma_lang_spans_skip(s, i + 1, j);
        assert(seq![s[i]] + (s.subrange(i + 1, j) + lang_spans_removed(s, j)) =~= s.subrange(
            i,
            j,
        ) + lang_spans_removed(s, j));
    }
}

/// Collapses every `<span lang="xx-YY">…</span>` region to its inner
/// content, dropping the two tags, whatever the language code.
pub fn remove_span_language_en(content: &String) -> (r: String)
    ensures
        r@ == lang_spans_removed(content@, 0),
{
    let s = content.as_str();
    let n = s.unicode_len();
    let mut out = String::new();
    let mut i: usize = 0;
    proof {
        reveal_strlit("<span lang=\"");
        reveal_strlit("</span>");
    }
    loop
        invariant_except_break
            0 <= i <= n,
            n == s@.len(),
            s@ == content@,
            out@ + lang_spans_removed(s@, i as int) == lang_spans_removed(s@, 0),
        ensures
            out@ == lang_spans_removed(s@, 0),
        decreases n - i,
    {
        proof {
            reveal_strlit("<span lang=\"");
            reveal_strlit("</span>");
        }
        match find_from(s, "<span lang=\"", i) {
            None => {
                proof {
                    lemma_first_match(s@, "<span lang=\""@, i as int);
                    lemma_lang_spans_skip(s@, i as int, n as int);
                    assert(lang_spans_removed(s@, n as int) =~= Seq::<char>::empty());
                    assert(s@.subrange(i as int, n as int) + Seq::<char>::empty() =~= s@.subrange(
                        i as int,
                        n as int,
                    ));
                }
                out.append(s.substring_char(i, n));
                break;
            },
            Some(j) => {
                proof {
                    lemma_first_match(s@, "<span lang=\""@, i as int);
                    lemma_lang_spans_skip(s@, i as int, j as int);
                }
                let ghost pre = out@;
                out.append(s.substring_char(i, j));
                proof {
                    assert(pre + (s@.subrange(i as int, j as int) + lang_spans_removed(
                        s@,
                        j as int,
                    )) =~= out@ + lang_spans_removed(s@, j as int));
                }
                let full_open = n - j >= 19 && is_lower(s.get_char(j + 12)) && is_lower(
                    s.get_char(j + 13),
                ) && s.get_char(j + 14) == '-' && is_upper(s.get_char(j + 15)) && is_upper(
                    s.get_char(j + 16),
                ) && s.get_char(j + 17) == '"' && s.get_char(j + 18) == '>';
                if full_open {
                    match find_from(s, "</span>", j + 19) {
                        Some(c) => {
                            proof {
                                lemma_first_match(s@, "</span>"@, j + 19);
                            }
                            let ghost pre2 = out@;
                            out.append(s.substring_char(j + 19, c));
                            proof {
                                assert(pre2 + (s@.subrange(j + 19, c as int)
                                    + lang_spans_removed(s@, c + 7)) =~= out@
                                    + lang_spans_removed(s@, c + 7));
                            }
                            i = c + 7;
                        },
                        None => {
                            let ghost pre2 = out@;
                            out.append(s.substring_char(j, j + 1));
                            proof {
                                assert(s@.subrange(j as int, j + 1) =~= seq![s@[j as int]]);
                                assert(pre2 + (seq![s@[j as int]] + lang_spans_removed(
                                    s@,
                                    j + 1,
                                )) =~= out@ + lang_spans_removed(s@, j + 1));
                            }
                            i = j + 1;
                        },
                    }
                } else {
                    let ghost pre2 = out@;
                    out.append(s.substring_char(j, j + 1));
                    proof {
                        assert(s@.subrange(j as int, j + 1) =~= seq![s@[j as int]]);
                        assert(pre2 + (seq![s@[j as int]] + lang_spans_removed(s@, j + 1)) =~= out@
                            + lang_spans_removed(s@, j + 1));
                    }
                    i = j + 1;
                }
            },
        }
    }
    out
}

/// The first angle bracket at or after `i`, or the end of `s`.
pub open spec fn angle_end(s: Seq<char>, i: int) -> int
    decreases s.len() - i,
{
    if 0 <= i < s.len() && s[i] != '<' && s[i] != '>' {
        angle_end(s, i + 1)
    } else {
        i
    }
}

/// `angle_end` stays within `s`, passes no angle bracket, and stops at
/// the end of `s` or on an angle bracket.
proof fn lemma_angle_end(s: Seq<char>, i: int)
    requires
        0 <= i <= s.len(),
    ensures
        i <= angle_end(s, i) <= s.len(),
        forall|k: int| i <= k < angle_end(s, i) ==> s[k] != '<' && s[k] != '>',
        angle_end(s, i) == s.len() || s[angle_end(s, i)] == '<' || s[angle_end(s, i)] == '>',
    decreases s.len() - i,
{
    if 0 <= i < s.len() && s[i] != '<' && s[i] != '>' {
        lemma_angle_end(s, i + 1);
    }
}

/// A markup tag stands at `i`: `<`, at least one character that is no
/// angle bracket, then `>`.
pub open spec fn tag_at(s: Seq<char>, i: int) -> bool {
    &&& 0 <= i < s.len() && s[i] == '<'
    &&& angle_end(s, i + 1) < s.len()
    &&& s[angle_end(s, i + 1)] == '>'
    &&& angle_end(s, i + 1) >= i + 2
}

/// `s` from `i` on with every markup tag removed.
pub open spec fn tags_stripped(s: Seq<char>, i: int) -> Seq<char>
    decreases s.len() - i,
{
    if i < 0 || i >= s.len() {
        Seq::empty()
    } else if tag_at(s, i) {
        tags_stripped(s, angle_end(s, i + 1) + 1)
    } else {
        seq![s[i]] + tags_stripped(s, i + 1)
    }
}

/// Removes every markup tag from `t`.
fn strip_markup_tags(t: &str) -> (r: String)
    ensures
        r@ == tags_stripped(t@, 0),
{
    let n = t.unicode_len();
    let mut out = String::new();
    let mut i: usize = 0;
    while i < n
        invariant
            0 <= i <= n,
            n == t@.len(),
            out@ + tags_stripped(t@, i as int) == tags_stripped(t@, 0),
        decreases n - i,
    {
        if t.get_char(i) == '<' {
            let mut q = i + 1;
            while q < n && t.get_char(q) != '<' && t.get_char(q) != '>'
                invariant
                    i + 1 <= q <= n,
                    n == t@.len(),
                    angle_end(t@, i + 1) == angle_end(t@, q as int),
                decreases n - q,
            {
                q = q + 1;
            }
            assert(angle_end(t@, q as int) == q);
            if q < n && t.get_char(q) == '>' && q >= i + 2 {
                i = q + 1;
            } else {
                let ghost pre = out@;
                out.append(t.substring_char(i, i + 1));
                proof {
                    assert(t@.subrange(i as int, i + 1) =~= seq![t@[i as int]]);
                    assert(pre + (seq![t@[i as int]] + tags_stripped(t@, i + 1)) =~= out@
                        + tags_stripped(t@, i + 1));
                }
                i = i + 1;
            }
        } else {
            let ghost pre = out@;
            out.append(t.substring_char(i, i + 1));
            proof {
                assert(t@.subrange(i as int, i + 1) =~= seq![t@[i as int]]);
                assert(pre + (seq![t@[i as int]] + tags_stripped(t@, i + 1)) =~= out@
                    + tags_stripped(t@, i + 1));
            }
            i = i + 1;
        }
    }
    assert(tags_stripped(t@, n as int) =~= Seq::<char>::empty());
    assert(out@ + Seq::<char>::empty() =~= out@);
    out
}

/// What `extract_clause_no_from_toc_entry` returns: the first
/// whitespace-delimited token of the entry with its markup tags removed,
/// and only when that token begins with a decimal digit.
pub open spec fn toc_clause_of(t: Seq<char>) -> Option<Seq<char>> {
    let stripped = tags_stripped(t, 0);
    let b = ws_end(stripped, 0);
    if b < stripped.len() && is_digit_char(stripped[b]) {
        Some(stripped.subrange(b, token_end(stripped, b)))
    } else {
        None
    }
}

/// The clause number a table-of-contents entry names, when its first
/// token (markup aside) begins with a decimal digit; a non-clause entry
/// yields nothing.
pub fn extract_clause_no_from_toc_entry(toc_entry: &str) -> (r: Option<String>)
    ensures
        match r {
            Some(c) => toc_clause_of(toc_entry@) == Some(c@),
            None => toc_clause_of(toc_entry@) is None,
        },
{
    let stripped = strip_markup_tags(toc_entry);
    let st = stripped.as_str();
    let n = st.unicode_len();
    let mut b: usize = 0;
    while b < n && is_ws(st.get_char(b))
        invariant
            0 <= b <= n,
            n == st@.len(),
            ws_end(st@, 0) == ws_end(st@, b as int),
        decreases n - b,
    {
        b = b + 1;
    }
    assert(ws_end(st@, b as int) == b);
    if b == n {
        return None;
    }
    if !is_digit(st.get_char(b)) {
        return None;
    }
    let mut e = b;
    while e < n && !is_ws(st.get_char(e))
        invariant
            b <= e <= n,
            n == st@.len(),
            token_end(st@, b as int) == token_end(st@, e as int),
        decreases n - e,
    {
        e = e + 1;
    }
    assert(token_end(st@, e as int) == e);
    Some(String::from_str(st.substring_char(b, e)))
}

/// One pass over the table-of-contents region from `i` on: each
/// paragraph whose entry names a clause is wrapped in an anchor link to
/// that clause. The pass ends at the close of the region's `div`; a
/// paragraph without a close tag ends the pass with the rest copied
/// verbatim.
pub open spec fn toc_linked_from(s: Seq<char>, i: int) -> Seq<char>
    decreases s.len() - i,
{
    if i < 0 || i > s.len() {
        Seq::empty()
    } else if precedes(s, "<p"@, "</div>"@, i) {
        let p = first_match(s, "<p"@, i)->Some_0;
        match first_match(s, "</p>"@, p) {
            Some(c) => {
                if i <= p <= c && c + 4 <= s.len() {
                    let entry = s.subrange(p, c + 4);
                    match toc_clause_of(entry) {
                        Some(cl) => s.subrange(i, p) + "<a href=\"#"@ + cl + "\">"@ + entry
                            + "</a>"@ + toc_linked_from(s, c + 4),
                        None => s.subrange(i, p) + entry + toc_linked_from(s, c + 4),
                    }
                } else {
                    s.subrange(i, s.len() as int)
                }
            },
            None => s.subrange(i, s.len() as int),
        }
    } else {
        s.subrange(i, s.len() as int)
    }
}

/// What `better_toc` returns: everything through the opening of the
/// table-of-contents region copied verbatim, then the region rewritten
/// entry by entry.
pub open spec fn toc_linked(s: Seq<char>) -> Seq<char> {
    s.subrange(0, end_of(s, "<div id=\"Table of Contents1\" dir=\"ltr\">"@, 0)) + toc_linked_from(
        s,
        end_of(s, "<div id=\"Table of Contents1\" dir=\"ltr\">"@, 0),
    )
}

/// Rewrites the table of contents: every entry that names a clause is
/// wrapped in an anchor link to that clause's id.
#[verifier::rlimit(100)]
pub fn better_toc(content: &str) -> (r: String)
    ensures
        r@ == toc_linked(content@),
{
    let ghost s = content@;
    let mut modifier = SourceModifier::new(content);
    modifier.copy_til_end_of("<div id=\"Table of Contents1\" dir=\"ltr\">");
    proof {
        lemma_first_match(s, "<div id=\"Table of Contents1\" dir=\"ltr\">"@, 0);
        assert(Seq::<char>::empty() + s.subrange(0, modifier.pos()) =~= s.subrange(
            0,
            modifier.pos(),
        ));
    }
    loop
        invariant_except_break
            modifier.wf(),
            modifier.text() == s,
            modifier.output() + toc_linked_from(s, modifier.pos()) == toc_linked(s),
        ensures
            modifier.wf(),
            modifier.text() == s,
            modifier.output() + s.subrange(modifier.pos(), s.len() as int) == toc_linked(s),
        decreases s.len() - modifier.pos(),
    {
        if !modifier.is_a_before_b("<p", "</div>") {
            break;
        }
        let ghost i0 = modifier.pos();
        let ghost out0 = modifier.output();
        modifier.copy_til_begin_of("<p");
        proof {
            lemma_first_match(s, "<p"@, i0);
        }
        let ghost p = modifier.pos();
        match modifier.get_content_til_end_of("</p>") {
            Some(p_content) => {
                proof {
                    lemma_first_match(s, "</p>"@, p);
                    reveal_strlit("</p>");
                }
                let ghost c = first_match(s, "</p>"@, p)->Some_0;
                match extract_clause_no_from_toc_entry(p_content) {
                    Some(clause_no) => {
                        let mut link = String::from_str("<a href=\"#");
                        link.append(clause_no.as_str());
                        link.append("\">");
                        modifier.push_str(link.as_str());
                        modifier.copy_til_end_of("</p>");
                        modifier.push_str("</a>");
                        proof {
                            assert(modifier.output() + toc_linked_from(s, modifier.pos())
                                =~= out0 + toc_linked_from(s, i0));
                        }
                    },
                    None => {
                        modifier.copy_til_end_of("</p>");
                        proof {
                            assert(modifier.output() + toc_linked_from(s, modifier.pos())
                                =~= out0 + toc_linked_from(s, i0));
                        }
                    },
                }
            },
            None => {
                proof {
                    assert(modifier.output() + s.subrange(modifier.pos(), s.len() as int)
                        =~= out0 + toc_linked_from(s, i0));
                }
                break;
            },
        }
    }
    modifier.copy_til_end_of_source();
    proof {
        assert(modifier.output() =~= toc_linked(s));
    }
    modifier.get_result().clone()
}

/// The position after every anchor element in a run of anchors: while an
/// `<a` opens before the heading's close, skip past the anchor's `</a>`.
pub open spec fn anchors_skipped(s: Seq<char>, i: int) -> int
    decreases s.len() - i,
{
    if 0 <= i <= s.len() && precedes(s, "<a"@, "</h"@, i) {
        let nxt = end_of(s, "</a>"@, i);
        if i < nxt <= s.len() {
            anchors_skipped(s, nxt)
        } else {
            i
        }
    } else {
        i
    }
}

/// What `extract_clause_no_from_h_entry` returns: past the heading's
/// opening tag and any leading anchor elements, the remaining content up
/// to the heading's close, trimmed, must begin with a decimal digit; the
/// first whitespace-delimited token is the clause number.
pub open spec fn h_clause_of(t: Seq<char>) -> Option<Seq<char>> {
    let a = anchors_skipped(t, end_of(t, ">"@, 0));
    match first_match(t, "</h"@, a) {
        None => None,
        Some(hc) => {
            let content = t.subrange(a, hc);
            let b = ws_end(content, 0);
            if b < content.len() && is_digit_char(content[b]) {
                Some(content.subrange(b, token_end(content, b)))
            } else {
                None
            }
        },
    }
}

/// The clause number a heading block carries, when its content — past
/// the opening tag and any leading anchors — begins with a decimal digit;
/// a non-clause heading yields nothing.
pub fn extract_clause_no_from_h_entry(h_entry: &str) -> (r: Option<String>)
    ensures
        match r {
            Some(c) => h_clause_of(h_entry@) == Some(c@),
            None => h_clause_of(h_entry@) is None,
        },
{
    let ghost t = h_entry@;
    let mut parser = SourceParser::new(h_entry);
    parser.goto_end_of(">");
    let ghost g = parser.pos();
    while parser.is_a_before_b("<a", "</h")
        invariant
            parser.wf(),
            parser.text() == t,
            anchors_skipped(t, parser.pos()) == anchors_skipped(t, g),
        decreases t.len() - parser.pos(),
    {
        let ghost p0 = parser.pos();
        proof {
            reveal_strlit("<a");
            reveal_strlit("</a>");
            lemma_first_match(t, "<a"@, p0);
            lemma_first_match(t, "</a>"@, p0);
        }
        parser.goto_end_of("</a>");
    }
    let ghost a = parser.pos();
    assert(anchors_skipped(t, a) == a);
    match parser.get_content_til_begin_of("</h") {
        None => None,
        Some(content_s) => {
            let cn = content_s.unicode_len();
            let mut b: usize = 0;
            while b < cn && is_ws(content_s.get_char(b))
                invariant
                    0 <= b <= cn,
                    cn == content_s@.len(),
                    ws_end(content_s@, 0) == ws_end(content_s@, b as int),
                decreases cn - b,
            {
                b = b + 1;
            }
            assert(ws_end(content_s@, b as int) == b);
            if b == cn {
                return None;
            }
            if !is_digit(content_s.get_char(b)) {
                return None;
            }
            let mut e = b;
            while e < cn && !is_ws(content_s.get_char(e))
                invariant
                    b <= e <= cn,
                    cn == content_s@.len(),
                    token_end(content_s@, b as int) == token_end(content_s@, e as int),
                decreases cn - e,
            {
                e = e + 1;
            }
            assert(token_end(content_s@, e as int) == e);
            Some(String::from_str(content_s.substring_char(b, e)))
        },
    }
}

/// An `id` attribute already stands inside the heading's opening tag:
/// ` id="` occurs before the first `>`.
pub open spec fn open_tag_has_id(t: Seq<char>) -> bool {
    match first_match(t, " id=\""@, 0) {
        Some(j) => j < begin_of(t, ">"@, 0),
        None => false,
    }
}

/// Whether the opening tag of the heading block `t` carries an `id`
/// attribute already.
fn open_tag_marked(t: &str) -> (r: bool)
    ensures
        r == open_tag_has_id(t@),
{
    proof {
        reveal_strlit(" id=\"");
        lemma_first_match(t@, " id=\""@, 0);
        lemma_first_match(t@, ">"@, 0);
    }
    match find_from(t, " id=\"", 0) {
        None => false,
        Some(j) => match find_from(t, ">", 0) {
            None => true,
            Some(g) => j < g,
        },
    }
}

/// The heading block `t` is to be annotated: it names a clause and its
/// opening tag carries no `id` attribute yet. The second condition keeps
/// the stage from annotating its own output twice.
pub open spec fn heading_gets_id(t: Seq<char>) -> bool {
    h_clause_of(t) is Some && !open_tag_has_id(t)
}

/// One pass over the document from `i` on: each heading block that names
/// a clause and is not yet annotated receives an `id` attribute just
/// after its tag name. A heading without a close ends the pass with the
/// rest copied verbatim.
pub open spec fn ids_added_from(s: Seq<char>, i: int) -> Seq<char>
    decreases s.len() - i,
{
    if i < 0 || i > s.len() {
        Seq::empty()
    } else {
        match first_match(s, "<h"@, i) {
            None => s.subrange(i, s.len() as int),
            Some(h) => match first_match(s, "</h"@, h) {
                Some(c) => {
                    if i <= h <= c && c + 3 <= s.len() {
                        let entry = s.subrange(h, c + 3);
                        if heading_gets_id(entry) {
                            s.subrange(i, h + 3) + " id=\""@ + h_clause_of(entry)->Some_0
                                + "\" "@ + s.subrange(h + 3, c + 3) + ids_added_from(s, c + 3)
                        } else {
                            s.subrange(i, c + 3) + ids_added_from(s, c + 3)
                        }
                    } else {
                        s.subrange(i, s.len() as int)
                    }
                },
                None => s.subrange(i, s.len() as int),
            },
        }
    }
}

/// The annotation pass reads nothing before its start position: it is
/// the same pass over the suffix alone.
proof fn lemma_ids_shift(s: Seq<char>, j: int, i: int)
    requires
        0 <= j <= i <= s.len(),
    ensures
        ids_added_from(s, i) == ids_added_from(s.subrange(j, s.len() as int), i - j),
    decreases s.len() - i,
{
    let t = s.subrange(j, s.len() as int);
    lemma_first_match_suffix(s, "<h"@, j, i);
    match first_match(s, "<h"@, i) {
        None => {
            assert(s.subrange(i, s.len() as int) =~= t.subrange(i - j, t.len() as int));
        },
        Some(h) => {
            lemma_first_match(s, "<h"@, i);
            lemma_first_match_suffix(s, "</h"@, j, h);
            match first_match(s, "</h"@, h) {
                None => {
                    assert(s.subrange(i, s.len() as int) =~= t.subrange(i - j, t.len() as int));
                },
                Some(c) => {
                    lemma_first_match(s, "</h"@, h);
                    if i <= h <= c && c + 3 <= s.len() {
                        assert(s.subrange(h, c + 3) =~= t.subrange(h - j, c + 3 - j));
                        assert(s.subrange(i, h + 3) =~= t.subrange(i - j, h + 3 - j));
                        assert(s.subrange(h + 3, c + 3) =~= t.subrange(h + 3 - j, c + 3 - j));
                        assert(s.subrange(i, c + 3) =~= t.subrange(i - j, c + 3 - j));
                        lemma_ids_shift(s, j, c + 3);
                    } else {
                        assert(s.subrange(i, s.len() as int) =~= t.subrange(
                            i - j,
                            t.len() as int,
                        ));
                    }
                },
            }
        },
    }
}

/// The input is clean for annotation: at every heading the pass
/// annotates, the character after the heading's `<h` is no `>` — in
/// converted documents it is the tag-name digit. On an annotated bare
/// `<h>` tag the id attribute would land outside the tag, where a
/// second pass cannot see it.
pub open spec fn clean_for_ids(s: Seq<char>, i: int) -> bool
    decreases s.len() - i,
{
    if i < 0 || i > s.len() {
        true
    } else {
        match first_match(s, "<h"@, i) {
            None => true,
            Some(h) => match first_match(s, "</h"@, h) {
                Some(c) => {
                    if i <= h <= c && c + 3 <= s.len() {
                        let entry = s.subrange(h, c + 3);
                        if heading_gets_id(entry) {
                            s[h + 2] != '>' && clean_for_ids(s, c + 3)
                        } else {
                            clean_for_ids(s, c + 3)
                        }
                    } else {
                        true
                    }
                },
                None => true,
            },
        }
    }
}

/// A clause number never holds a heading close: it is drawn from the
/// heading's content, which ends at the first close.
proof fn lemma_h_clause_no_close(t: Seq<char>)
    requires
        h_clause_of(t) is Some,
    ensures
        forall|q: int| !match_at(h_clause_of(t)->Some_0, "</h"@, q),
{
    lemma_ids_literal_chars();
    let a = anchors_skipped(t, end_of(t, ">"@, 0));
    assert(0 <= a <= t.len()) by {
        if a < 0 || a > t.len() {
            assert(first_match(t, "</h"@, a) is None);
        }
    }
    lemma_first_match(t, "</h"@, a);
    let hc = first_match(t, "</h"@, a)->Some_0;
    let content = t.subrange(a, hc);
    let b = ws_end(content, 0);
    lemma_ws_end(content, 0);
    let e = token_end(content, b);
    lemma_token_end(content, b);
    let cl = content.subrange(b, e);
    assert(cl == h_clause_of(t)->Some_0);
    assert forall|q: int| !match_at(cl, "</h"@, q) by {
        if match_at(cl, "</h"@, q) {
            lemma_match_char_at(cl, "</h"@, q, 0);
            lemma_match_char_at(cl, "</h"@, q, 1);
            lemma_match_char_at(cl, "</h"@, q, 2);
            let p = a + b + q;
            assert(t[p] == cl[q] && t[p + 1] == cl[q + 1] && t[p + 2] == cl[q + 2]);
            lemma_match_chars(t, "</h"@, p);
            assert(match_at(t, "</h"@, p));
            assert(!match_at(t, "</h"@, p));
        }
    }
}

/// The characters of the patterns and literals the annotation pass
/// works with.
proof fn lemma_ids_literal_chars()
    ensures
        "<h"@ =~= seq!['<', 'h'],
        "</h"@ =~= seq!['<', '/', 'h'],
        " id=\""@ =~= seq![' ', 'i', 'd', '=', '"'],
        "\" "@ =~= seq!['"', ' '],
        ">"@ =~= seq!['>'],
        "<a"@ =~= seq!['<', 'a'],
{
    reveal_strlit("<h");
    reveal_strlit("</h");
    reveal_strlit(" id=\"");
    reveal_strlit("\" ");
    reveal_strlit(">");
    reveal_strlit("<a");
}

/// A heading's close comes at least two characters after its open, and
/// when a close follows directly, the heading carries no clause number.
proof fn lemma_tight_heading_not_annotated(s: Seq<char>, h: int, c: int)
    requires
        0 <= h <= c,
        c + 3 <= s.len(),
        match_at(s, "<h"@, h),
        match_at(s, "</h"@, c),
    ensures
        c >= h + 2,
        c == h + 2 ==> !heading_gets_id(s.subrange(h, c + 3)),
{
    lemma_ids_literal_chars();
    lemma_match_char_at(s, "<h"@, h, 0);
    lemma_match_char_at(s, "<h"@, h, 1);
    lemma_match_char_at(s, "</h"@, c, 0);
    lemma_match_char_at(s, "</h"@, c, 1);
    lemma_match_char_at(s, "</h"@, c, 2);
    assert(c >= h + 2);
    if c == h + 2 {
        let entry = s.subrange(h, c + 3);
        assert(entry.len() == 5);
        assert(entry[0] == '<' && entry[1] == 'h' && entry[2] == '<' && entry[3] == '/'
            && entry[4] == 'h');
        assert(first_match(entry, ">"@, 0) is None) by {
            lemma_first_match(entry, ">"@, 0);
            match first_match(entry, ">"@, 0) {
                Some(g) => {
                    lemma_match_char_at(entry, ">"@, g, 0);
                },
                None => {},
            }
        }
        assert(end_of(entry, ">"@, 0) == 5);
        assert(first_match(entry, "<a"@, 5) is None) by {
            lemma_first_match(entry, "<a"@, 5);
        }
        assert(!precedes(entry, "<a"@, "</h"@, 5));
        assert(anchors_skipped(entry, 5) == 5);
        assert(first_match(entry, "</h"@, 5) is None) by {
            lemma_first_match(entry, "</h"@, 5);
        }
        assert(h_clause_of(entry) is None);
    }
}

/// The annotated form of a heading is passed over by a second pass: its
/// opening tag now carries an id, and the pass copies through its close
/// and goes on behind it unchanged.
#[verifier::rlimit(100)]
proof fn lemma_ids_idem_step_annotated(s: Seq<char>, i: int, h: int, c: int)
    requires
        0 <= i <= s.len(),
        first_match(s, "<h"@, i) == Some(h),
        first_match(s, "</h"@, h) == Some(c),
        i <= h <= c,
        c + 3 <= s.len(),
        c >= h + 3,
        heading_gets_id(s.subrange(h, c + 3)),
        s[h + 2] != '>',
        ids_added_from(ids_added_from(s, c + 3), 0) == ids_added_from(s, c + 3),
    ensures
        ids_added_from(ids_added_from(s, i), 0) == ids_added_from(s, i),
{
    lemma_ids_literal_chars();
    lemma_first_match(s, "<h"@, i);
    lemma_first_match(s, "</h"@, h);
    lemma_match_char_at(s, "<h"@, h, 0);
    lemma_match_char_at(s, "<h"@, h, 1);
    lemma_match_char_at(s, "</h"@, c, 0);
    lemma_match_char_at(s, "</h"@, c, 1);
    lemma_match_char_at(s, "</h"@, c, 2);
    let t = ids_added_from(s, i);
    let entry = s.subrange(h, c + 3);
    let cl = h_clause_of(entry)->Some_0;
    let mid = " id=\""@ + cl + "\" "@;
    let d = mid.len();
    let y = ids_added_from(s, c + 3);
    lemma_h_clause_no_close(entry);
    assert(t == s.subrange(i, h + 3) + " id=\""@ + cl + "\" "@ + s.subrange(h + 3, c + 3) + y);
    assert(t.len() == (c + 3 - i) + d + y.len());
    assert forall|k: int| 0 <= k < h + 3 - i implies #[trigger] t[k] == s[i + k] by {}
    assert forall|k: int|
        h + 3 - i <= k < h + 3 - i + d implies #[trigger] t[k] == mid[k - (h + 3 - i)] by {}
    assert forall|k: int|
        h + 3 - i + d <= k < c + 3 - i + d implies #[trigger] t[k] == s[i + k - d] by {}
    assert forall|k: int|
        c + 3 - i + d <= k < t.len() implies #[trigger] t[k] == y[k - (c + 3 - i + d)] by {}
    assert(forall|k: int| 0 <= k < 5 ==> #[trigger] mid[k] == " id=\""@[k]);
    assert(forall|k: int| 5 <= k < 5 + cl.len() ==> #[trigger] mid[k] == cl[k - 5]);
    assert(forall|k: int|
        5 + cl.len() <= k < d ==> #[trigger] mid[k] == "\" "@[k - 5 - cl.len()]);
    assert(first_match(t, "<h"@, 0) == Some(h - i)) by {
        lemma_match_chars(t, "<h"@, h - i);
        assert(t[h - i] == '<' && t[h - i + 1] == 'h');
        assert forall|k: int| 0 <= k < h - i implies !match_at(t, "<h"@, k) by {
            if match_at(t, "<h"@, k) {
                lemma_match_char_at(t, "<h"@, k, 0);
                lemma_match_char_at(t, "<h"@, k, 1);
                lemma_match_chars(s, "<h"@, i + k);
                assert(match_at(s, "<h"@, i + k));
                assert(!match_at(s, "<h"@, i + k));
            }
        }
        lemma_first_match_exact(t, "<h"@, 0, h - i);
    }
    assert(first_match(t, "</h"@, h - i) == Some(c - i + d)) by {
        assert(t[c - i + d] == s[c] && t[c - i + d + 1] == s[c + 1] && t[c - i + d + 2] == s[c
            + 2]);
        lemma_match_chars(t, "</h"@, c - i + d);
        assert(match_at(t, "</h"@, c - i + d));
        assert forall|k: int| h - i <= k < c - i + d implies !match_at(t, "</h"@, k) by {
            if match_at(t, "</h"@, k) {
                lemma_match_char_at(t, "</h"@, k, 0);
                lemma_match_char_at(t, "</h"@, k, 1);
                lemma_match_char_at(t, "</h"@, k, 2);
                if k < h + 3 - i {
                    if k == h - i {
                        assert(t[k + 1] == 'h');
                    } else if k == h + 1 - i {
                        assert(t[k] == s[h + 1]);
                        assert(t[k] == 'h');
                    } else {
                        assert(k == h + 2 - i);
                        assert(t[k + 1] == mid[0]);
                        assert(t[k + 1] == ' ');
                    }
                    assert(false);
                } else if k < h + 3 - i + d {
                    let q = k - (h + 3 - i);
                    assert(t[k] == mid[q]);
                    if q < 5 {
                        assert(mid[q] == " id=\""@[q]);
                        assert(t[k] != '<');
                    } else if q < 5 + cl.len() {
                        assert(mid[q] == cl[q - 5]);
                        if q + 2 < 5 + cl.len() {
                            assert(t[k + 1] == mid[q + 1] && mid[q + 1] == cl[q - 4]);
                            assert(t[k + 2] == mid[q + 2] && mid[q + 2] == cl[q - 3]);
                            lemma_match_chars(cl, "</h"@, q - 5);
                            assert(match_at(cl, "</h"@, q - 5));
                            assert(!match_at(cl, "</h"@, q - 5));
                        } else if q + 1 < 5 + cl.len() {
                            assert(t[k + 2] == mid[q + 2]);
                            assert(mid[q + 2] == "\" "@[0]);
                            assert(t[k + 2] != 'h');
                        } else {
                            assert(t[k + 1] == mid[q + 1]);
                            assert(mid[q + 1] == "\" "@[0]);
                            assert(t[k + 1] != '/');
                        }
                    } else {
                        assert(mid[q] == "\" "@[q - 5 - cl.len()]);
                        assert(t[k] != '<');
                    }
                    assert(false);
                } else {
                    let p = i + k - d;
                    assert(t[k] == s[p] && t[k + 1] == s[p + 1] && t[k + 2] == s[p + 2]);
                    lemma_match_chars(s, "</h"@, p);
                    assert(match_at(s, "</h"@, p));
                    assert(!match_at(s, "</h"@, p));
                }
            }
        }
        lemma_first_match_exact(t, "</h"@, h - i, c - i + d);
    }
    let a = t.subrange(h - i, c - i + d + 3);
    assert(a.len() == 3 + d + (c - h));
    assert forall|q: int| 0 <= q < a.len() implies #[trigger] a[q] == t[h - i + q] by {}
    assert(a[0] == '<' && a[1] == 'h' && a[2] == s[h + 2]);
    assert(forall|q: int| 3 <= q < 3 + d ==> #[trigger] a[q] == mid[q - 3]);
    assert(open_tag_has_id(a)) by {
        assert(first_match(a, " id=\""@, 0) == Some(3int)) by {
            lemma_match_chars(a, " id=\""@, 3);
            assert(a[3] == ' ' && a[4] == 'i' && a[5] == 'd' && a[6] == '=' && a[7] == '"');
            assert(match_at(a, " id=\""@, 3));
            assert forall|k: int| 0 <= k < 3 implies !match_at(a, " id=\""@, k) by {
                if match_at(a, " id=\""@, k) {
                    lemma_match_char_at(a, " id=\""@, k, 0);
                    lemma_match_char_at(a, " id=\""@, k, 1);
                    if k == 0 {
                        assert(a[0] == ' ');
                    } else if k == 1 {
                        assert(a[1] == ' ');
                    } else {
                        assert(a[3] == 'i');
                    }
                }
            }
            lemma_first_match_exact(a, " id=\""@, 0, 3int);
        }
        assert(begin_of(a, ">"@, 0) > 3) by {
            lemma_first_match(a, ">"@, 0);
            match first_match(a, ">"@, 0) {
                Some(g) => {
                    if g <= 3 {
                        lemma_match_char_at(a, ">"@, g, 0);
                        assert(a[g] == '>');
                        assert(a[3] == ' ');
                        assert(false);
                    }
                },
                None => {},
            }
        }
    }
    assert(!heading_gets_id(a));
    assert(ids_added_from(t, 0) == t.subrange(0, c - i + d + 3) + ids_added_from(
        t,
        c - i + d + 3,
    ));
    lemma_ids_shift(t, c - i + d + 3, c - i + d + 3);
    assert(t.subrange(c - i + d + 3, t.len() as int) =~= y);
    assert(ids_added_from(t, c - i + d + 3) == ids_added_from(y, 0));
    assert(t.subrange(0, c - i + d + 3) + y =~= t);
}

/// A heading the pass did not annotate is copied as it stands, and a
/// second pass does not annotate it either.
#[verifier::rlimit(100)]
proof fn lemma_ids_idem_step_plain(s: Seq<char>, i: int, h: int, c: int)
    requires
        0 <= i <= s.len(),
        first_match(s, "<h"@, i) == Some(h),
        first_match(s, "</h"@, h) == Some(c),
        i <= h <= c,
        c + 3 <= s.len(),
        !heading_gets_id(s.subrange(h, c + 3)),
        ids_added_from(ids_added_from(s, c + 3), 0) == ids_added_from(s, c + 3),
    ensures
        ids_added_from(ids_added_from(s, i), 0) == ids_added_from(s, i),
{
    lemma_ids_literal_chars();
    lemma_first_match(s, "<h"@, i);
    lemma_first_match(s, "</h"@, h);
    lemma_match_char_at(s, "<h"@, h, 0);
    lemma_match_char_at(s, "<h"@, h, 1);
    lemma_match_char_at(s, "</h"@, c, 0);
    lemma_match_char_at(s, "</h"@, c, 1);
    lemma_match_char_at(s, "</h"@, c, 2);
    let t = ids_added_from(s, i);
    let entry = s.subrange(h, c + 3);
    let y = ids_added_from(s, c + 3);
    assert(t == s.subrange(i, c + 3) + y);
    assert(t.len() == (c + 3 - i) + y.len());
    assert forall|k: int| 0 <= k < c + 3 - i implies #[trigger] t[k] == s[i + k] by {}
    assert(first_match(t, "<h"@, 0) == Some(h - i)) by {
        lemma_match_chars(t, "<h"@, h - i);
        assert(t[h - i] == '<' && t[h - i + 1] == 'h');
        assert forall|k: int| 0 <= k < h - i implies !match_at(t, "<h"@, k) by {
            if match_at(t, "<h"@, k) {
                lemma_match_char_at(t, "<h"@, k, 0);
                lemma_match_char_at(t, "<h"@, k, 1);
                lemma_match_chars(s, "<h"@, i + k);
                assert(match_at(s, "<h"@, i + k));
                assert(!match_at(s, "<h"@, i + k));
            }
        }
        lemma_first_match_exact(t, "<h"@, 0, h - i);
    }
    assert(first_match(t, "</h"@, h - i) == Some(c - i)) by {
        lemma_match_chars(t, "</h"@, c - i);
        assert(t[c - i] == s[c] && t[c - i + 1] == s[c + 1] && t[c - i + 2] == s[c + 2]);
        assert(match_at(t, "</h"@, c - i));
        assert forall|k: int| h - i <= k < c - i implies !match_at(t, "</h"@, k) by {
            if match_at(t, "</h"@, k) {
                lemma_match_char_at(t, "</h"@, k, 0);
                lemma_match_char_at(t, "</h"@, k, 1);
                lemma_match_char_at(t, "</h"@, k, 2);
                lemma_match_chars(s, "</h"@, i + k);
                assert(match_at(s, "</h"@, i + k));
                assert(!match_at(s, "</h"@, i + k));
            }
        }
        lemma_first_match_exact(t, "</h"@, h - i, c - i);
    }
    assert(t.subrange(h - i, c - i + 3) =~= entry);
    assert(ids_added_from(t, 0) == t.subrange(0, c - i + 3) + ids_added_from(t, c - i + 3));
    lemma_ids_shift(t, c - i + 3, c - i + 3);
    assert(t.subrange(c - i + 3, t.len() as int) =~= y);
    assert(ids_added_from(t, c - i + 3) == ids_added_from(y, 0));
    assert(t.subrange(0, c - i + 3) + y =~= t);
}

/// Annotating a document a second time changes nothing. Every heading
/// the first pass annotated now carries an `id` in its opening tag, so
/// the pass passes it over; every other stretch comes out as it went in.
proof fn lemma_ids_idem_from(s: Seq<char>, i: int)
    requires
        0 <= i <= s.len(),
        clean_for_ids(s, i),
    ensures
        ids_added_from(ids_added_from(s, i), 0) == ids_added_from(s, i),
    decreases s.len() - i,
{
    lemma_ids_literal_chars();
    let t = ids_added_from(s, i);
    let n = s.len() as int;
    match first_match(s, "<h"@, i) {
        None => {
            lemma_first_match(s, "<h"@, i);
            assert(t == s.subrange(i, n));
            assert(first_match(t, "<h"@, 0) is None) by {
                lemma_first_match(t, "<h"@, 0);
                match first_match(t, "<h"@, 0) {
                    Some(p) => {
                        lemma_match_chars(t, "<h"@, p);
                        lemma_match_chars(s, "<h"@, i + p);
                        assert(match_at(s, "<h"@, i + p));
                        assert(!match_at(s, "<h"@, i + p));
                    },
                    None => {},
                }
            }
            assert(t.subrange(0, t.len() as int) =~= t);
        },
        Some(h) => {
            lemma_first_match(s, "<h"@, i);
            lemma_match_char_at(s, "<h"@, h, 0);
            lemma_match_char_at(s, "<h"@, h, 1);
            match first_match(s, "</h"@, h) {
                None => {
                    lemma_first_match(s, "</h"@, h);
                    assert(t == s.subrange(i, n));
                    assert(first_match(t, "<h"@, 0) == Some(h - i)) by {
                        lemma_match_chars(t, "<h"@, h - i);
                        assert(t[h - i] == '<' && t[h - i + 1] == 'h');
                        assert(match_at(t, "<h"@, h - i));
                        assert forall|k: int| 0 <= k < h - i implies !match_at(t, "<h"@, k) by {
                            if match_at(t, "<h"@, k) {
                                lemma_match_char_at(t, "<h"@, k, 0);
                                lemma_match_char_at(t, "<h"@, k, 1);
                                lemma_match_chars(s, "<h"@, i + k);
                                assert(match_at(s, "<h"@, i + k));
                                assert(!match_at(s, "<h"@, i + k));
                            }
                        }
                        lemma_first_match_exact(t, "<h"@, 0, h - i);
                    }
                    assert(first_match(t, "</h"@, h - i) is None) by {
                        lemma_first_match(t, "</h"@, h - i);
                        match first_match(t, "</h"@, h - i) {
                            Some(p) => {
                                lemma_match_chars(t, "</h"@, p);
                                lemma_match_chars(s, "</h"@, i + p);
                                assert(match_at(s, "</h"@, i + p));
                                assert(!match_at(s, "</h"@, i + p));
                            },
                            None => {},
                        }
                    }
                    assert(t.subrange(0, t.len() as int) =~= t);
                },
                Some(c) => {
                    lemma_first_match(s, "</h"@, h);
                    lemma_match_char_at(s, "</h"@, c, 0);
                    lemma_match_char_at(s, "</h"@, c, 1);
                    lemma_match_char_at(s, "</h"@, c, 2);
                    lemma_tight_heading_not_annotated(s, h, c);
                    let entry = s.subrange(h, c + 3);
                    lemma_ids_idem_from(s, c + 3);
                    if heading_gets_id(entry) {
                        assert(c >= h + 3);
                        lemma_ids_idem_step_annotated(s, i, h, c);
                    } else {
                        lemma_ids_idem_step_plain(s, i, h, c);
                    }
                },
            }
        },
    }
}

/// Idempotence of the annotation stage: running it again on its own
/// output changes nothing, since every heading it annotated now carries
/// an `id` attribute and is passed over. The one hypothesis is
/// `clean_for_ids`: no annotated heading may be a bare `<h>` tag, since
/// its id attribute would land outside the tag and the law fails there.
pub proof fn lemma_add_clauses_ids_idempotent(s: Seq<char>)
    requires
        clean_for_ids(s, 0),
    ensures
        ids_added_from(ids_added_from(s, 0), 0) == ids_added_from(s, 0),
{
    lemma_ids_idem_from(s, 0);
}

/// Annotates every clause heading with an `id` attribute holding its
/// clause number, so that intra-document links can target it.
#[verifier::rlimit(100)]
pub fn add_clauses_ids(content: &str) -> (r: String)
    ensures
        r@ == ids_added_from(content@, 0),
{
    let ghost s = content@;
    let mut modifier = SourceModifier::new(content);
    loop
        invariant_except_break
            modifier.wf(),
            modifier.text() == s,
            modifier.output() + ids_added_from(s, modifier.pos()) == ids_added_from(s, 0),
        ensures
            modifier.wf(),
            modifier.text() == s,
            modifier.output() + s.subrange(modifier.pos(), s.len() as int) == ids_added_from(
                s,
                0,
            ),
        decreases s.len() - modifier.pos(),
    {
        if !modifier.is_before_end("<h") {
            break;
        }
        let ghost i0 = modifier.pos();
        let ghost out0 = modifier.output();
        modifier.copy_til_begin_of("<h");
        proof {
            lemma_first_match(s, "<h"@, i0);
        }
        let ghost h = modifier.pos();
        match modifier.get_content_til_end_of("</h") {
            None => {
                proof {
                    assert(modifier.output() + s.subrange(modifier.pos(), s.len() as int)
                        =~= out0 + ids_added_from(s, i0));
                }
                break;
            },
            Some(h_content) => {
                proof {
                    lemma_first_match(s, "</h"@, h);
                    reveal_strlit("</h");
                    reveal_strlit("<h");
                }
                let ghost c = first_match(s, "</h"@, h)->Some_0;
                let entry_len = h_content.unicode_len();
                let clause_opt = extract_clause_no_from_h_entry(h_content);
                let already = open_tag_marked(h_content);
                let mut annotated = false;
                match clause_opt {
                    Some(clause_no) => {
                        if !already {
                            proof {
                                assert(match_at(s, "<h"@, h));
                                lemma_first_match(s, "<h"@, h);
                            }
                            modifier.copy_til_end_of("<h");
                            modifier.copy_chars_count(1);
                            let mut idstr = String::from_str(" id=\"");
                            idstr.append(clause_no.as_str());
                            idstr.append("\" ");
                            modifier.push_str(idstr.as_str());
                            modifier.copy_chars_count(entry_len - 3);
                            annotated = true;
                            proof {
                                assert(modifier.output() + ids_added_from(s, modifier.pos())
                                    =~= out0 + ids_added_from(s, i0));
                            }
                        }
                    },
                    None => {},
                }
                if !annotated {
                    modifier.copy_til_end_of("</h");
                    proof {
                        assert(modifier.output() + ids_added_from(s, modifier.pos()) =~= out0
                            + ids_added_from(s, i0));
                    }
                }
            },
        }
    }
    modifier.copy_til_end_of_source();
    proof {
        assert(modifier.output() =~= ids_added_from(s, 0));
    }
    modifier.get_result().clone()
}

/// Rewrites every recognized cross-reference into a hyperlink: the whole
/// matched span becomes the link's visible text, and its target is the
/// cited document's page, the clause's anchor, or both.
///
/// Unlike the annotation stage, this rewriting is not idempotent, and
/// deliberately so: run on its own output it would wrap already-linked
/// text in a second anchor. The pipeline runs it exactly once, last.
#[verifier::rlimit(100)]
pub fn add_clause_links(content: &str) -> (r: String)
    ensures
        r@ == links_added_from(content@, 0),
{
    let n = content.unicode_len();
    let mut out = String::new();
    let mut i: usize = 0;
    while i < n
        invariant
            0 <= i <= n,
            n == content@.len(),
            out@ + links_added_from(content@, i as int) == links_added_from(content@, 0),
        decreases n - i,
    {
        match try_ref_at(content, i) {
            Some(f) => {
                let ghost m = f.to_match();
                let mut anchor = String::from_str("<a href=\"");
                match f.ts {
                    Some(t) => {
                        anchor.append("../");
                        anchor.append(content.substring_char(t, t + 6));
                        anchor.append("/");
                        anchor.append(content.substring_char(t, t + 6));
                        anchor.append(".html");
                    },
                    None => {},
                }
                match f.clause {
                    Some(span) => {
                        anchor.append("#");
                        anchor.append(content.substring_char(span.0, span.1));
                    },
                    None => {},
                }
                proof {
                    assert(anchor@ =~= "<a href=\""@ + link_target(content@, m));
                }
                anchor.append("\">");
                anchor.append(content.substring_char(i, f.end));
                anchor.append("</a>");
                let ghost pre = out@;
                out.append(anchor.as_str());
                proof {
                    assert(pre + ("<a href=\""@ + link_target(content@, m) + "\">"@
                        + content@.subrange(i as int, m.end) + "</a>"@ + links_added_from(
                        content@,
                        m.end,
                    )) =~= out@ + links_added_from(content@, m.end));
                }
                i = f.end;
            },
            None => {
                let ghost pre = out@;
                out.append(content.substring_char(i, i + 1));
                proof {
                    assert(content@.subrange(i as int, i + 1) =~= seq![content@[i as int]]);
                    assert(pre + (seq![content@[i as int]] + links_added_from(content@, i + 1))
                        =~= out@ + links_added_from(content@, i + 1));
                }
                i = i + 1;
            },
        }
    }
    assert(links_added_from(content@, n as int) =~= Seq::<char>::empty());
    assert(out@ + Seq::<char>::empty() =~= out@);
    out
}

/// What `html_to_better_html` returns: the five stages composed in their
/// fixed order.
pub open spec fn enriched(s: Seq<char>) -> Seq<char> {
    links_added_from(
        ids_added_from(toc_linked(lang_spans_removed(hard_spaces_removed(s), 0)), 0),
        0,
    )
}

/// The full pipeline: strips hard-space entities, collapses
/// language-tagged spans, links the table of contents, annotates clause
/// headings with ids, and rewrites cross-references into hyperlinks.
pub fn html_to_better_html(content: &String) -> (r: String)
    ensures
        r@ == enriched(content@),
{
    let mut result = remove_hard_spaces(content);
    result = remove_span_language_en(&result);
    result = better_toc(result.as_str());
    result = add_clauses_ids(result.as_str());
    result = add_clause_links(result.as_str());
    result
}

} // verus!
