//! A cursor over an immutable text buffer.
//!
//! The cursor holds a read position, counted in characters, that only
//! moves forward. Searches look at the text from the position on; when a
//! pattern is absent, the "goto" operations move to the end of the buffer
//! and the "get" operations return nothing, so a caller can degrade to
//! copying the rest of the input verbatim instead of failing.

use vstd::prelude::*;

use crate::scan::find_from;
use crate::scan::first_match;
use crate::scan::is_digit;
use crate::scan::is_digit_char;
use crate::scan::is_ws;
use crate::scan::lemma_first_match;
use crate::scan::lemma_token_end;
use crate::scan::lemma_ws_end;
use crate::scan::token_end;
use crate::scan::ws_end;

verus! {

/// Where the cursor lands after a forward move to the first occurrence of
/// `pat` at or after `from`: the begin of that occurrence, or the end of
/// the text when there is none.
pub open spec fn begin_of(s: Seq<char>, pat: Seq<char>, from: int) -> int {
    match first_match(s, pat, from) {
        Some(j) => j,
        None => s.len() as int,
    }
}

/// Where the cursor lands after a forward move past the first occurrence
/// of `pat` at or after `from`: just after that occurrence, or the end of
/// the text when there is none.
pub open spec fn end_of(s: Seq<char>, pat: Seq<char>, from: int) -> int {
    match first_match(s, pat, from) {
        Some(j) => j + pat.len(),
        None => s.len() as int,
    }
}

/// `pat1` occurs at or after `from` and strictly before any occurrence of
/// `pat2` there.
pub open spec fn precedes(s: Seq<char>, pat1: Seq<char>, pat2: Seq<char>, from: int) -> bool {
    &&& first_match(s, pat1, from) is Some
    &&& match first_match(s, pat2, from) {
        Some(j2) => first_match(s, pat1, from)->Some_0 < j2,
        None => true,
    }
}

pub struct SourceParser<'a> {
    source: &'a str,
    current_pos: usize,
}

impl<'a> SourceParser<'a> {
    /// The whole text the cursor reads.
    pub closed spec fn text(self) -> Seq<char> {
        self.source@
    }

    /// The current read position, a character index.
    pub closed spec fn pos(self) -> int {
        self.current_pos as int
    }

    /// The position stays within the text.
    pub open spec fn wf(self) -> bool {
        0 <= self.pos() <= self.text().len()
    }

    pub fn new(source: &'a str) -> (r: SourceParser<'a>)
        ensures
            r.wf(),
            r.text() == source@,
            r.pos() == 0,
    {
        SourceParser { source, current_pos: 0 }
    }

    /// A duplicate that can look ahead without moving this cursor.
    pub fn clone(&self) -> (r: SourceParser<'a>)
        ensures
            r.text() == self.text(),
            r.pos() == self.pos(),
    {
        SourceParser { source: self.source, current_pos: self.current_pos }
    }

    /// The text between the character indices `begin` and `end`, or nothing
    /// when the range is reversed or reaches past the end of the text.
    pub fn get_source_slice(&self, begin: usize, end: usize) -> (r: Option<&'a str>)
        ensures
            match r {
                Some(sub) => begin <= end <= self.text().len() && sub@ == self.text().subrange(
                    begin as int,
                    end as int,
                ),
                None => begin > end || end > self.text().len(),
            },
    {
        let n = self.source.unicode_len();
        if begin > end || begin > n || end > n {
            return None;
        }
        Some(self.source.substring_char(begin, end))
    }

    pub fn get_current_pos(&self) -> (r: usize)
        ensures
            r == self.pos(),
    {
        self.current_pos
    }

    /// The text from the current position to the end.
    pub fn get_content_til_end_of_source(&self) -> (r: &'a str)
        requires
            self.wf(),
        ensures
            r@ == self.text().subrange(self.pos(), self.text().len() as int),
    {
        let n = self.source.unicode_len();
        self.source.substring_char(self.current_pos, n)
    }

    /// Whether the character at the current position is a decimal digit.
    pub fn current_is_digit(&self) -> (r: bool)
        requires
            self.wf(),
        ensures
            r == (self.pos() < self.text().len() && is_digit_char(self.text()[self.pos()])),
    {
        if self.is_at_end() {
            return false;
        }
        is_digit(self.source.get_char(self.current_pos))
    }

    /// Whether the character at the current position is `c`.
    pub fn current_is(&self, c: char) -> (r: bool)
        requires
            self.wf(),
        ensures
            r == (self.pos() < self.text().len() && self.text()[self.pos()] == c),
    {
        if self.is_at_end() {
            return false;
        }
        self.source.get_char(self.current_pos) == c
    }

    /// Whether the character just after the current position is a decimal
    /// digit.
    pub fn next_is_digit(&self) -> (r: bool)
        requires
            self.wf(),
        ensures
            r == (self.pos() + 1 < self.text().len() && is_digit_char(
                self.text()[self.pos() + 1],
            )),
    {
        let n = self.source.unicode_len();
        if self.current_pos >= n || self.current_pos + 1 >= n {
            return false;
        }
        is_digit(self.source.get_char(self.current_pos + 1))
    }

    /// Moves the position forward by `count` characters and returns the
    /// text passed over.
    pub fn advance_for_count_and_get_omitted_source(&mut self, count: usize) -> (r: &'a str)
        requires
            old(self).wf(),
            old(self).pos() + count <= old(self).text().len(),
        ensures
            final(self).wf(),
            final(self).text() == old(self).text(),
            final(self).pos() == old(self).pos() + count,
            r@ == old(self).text().subrange(old(self).pos(), old(self).pos() + count),
    {
        let n = self.source.unicode_len();
        assert(self.current_pos + count <= n);
        let old_pos = self.current_pos;
        self.current_pos = self.current_pos + count;
        self.source.substring_char(old_pos, self.current_pos)
    }

    /// Moves the position to the first non-whitespace character at or
    /// after it, or to the end of the text.
    pub fn skip_whitespaces(&mut self)
        requires
            old(self).wf(),
        ensures
            final(self).wf(),
            final(self).text() == old(self).text(),
            final(self).pos() == ws_end(old(self).text(), old(self).pos()),
    {
        let n = self.source.unicode_len();
        let mut p = self.current_pos;
        while p < n && is_ws(self.source.get_char(p))
            invariant
                self.current_pos <= p <= n,
                n == self.text().len(),
                ws_end(self.text(), self.current_pos as int) == ws_end(self.text(), p as int),
            decreases n - p,
        {
            p = p + 1;
        }
        self.current_pos = p;
    }

    /// Skips leading whitespace and peeks at the word that begins there:
    /// the position lands on the word's first character and does not pass
    /// it. Nothing comes back when the position reaches the end of the
    /// text, or when the word runs to the end with no whitespace after it.
    pub fn skip_word(&mut self) -> (r: Option<&'a str>)
        requires
            old(self).wf(),
        ensures
            final(self).wf(),
            final(self).text() == old(self).text(),
            final(self).pos() == ws_end(old(self).text(), old(self).pos()),
            match r {
                Some(w) => {
                    &&& token_end(final(self).text(), final(self).pos())
                        < final(self).text().len()
                    &&& w@ == final(self).text().subrange(
                        final(self).pos(),
                        token_end(final(self).text(), final(self).pos()),
                    )
                },
                None => final(self).pos() == final(self).text().len() || token_end(
                    final(self).text(),
                    final(self).pos(),
                ) == final(self).text().len(),
            },
    {
        self.skip_whitespaces();
        if self.is_at_end() {
            return None;
        }
        proof {
            lemma_token_end(self.text(), self.pos());
        }
        let n = self.source.unicode_len();
        let mut e = self.current_pos;
        while e < n && !is_ws(self.source.get_char(e))
            invariant
                self.current_pos <= e <= n,
                n == self.text().len(),
                token_end(self.text(), self.current_pos as int) == token_end(
                    self.text(),
                    e as int,
                ),
            decreases n - e,
        {
            e = e + 1;
        }
        if e == n {
            return None;
        }
        Some(self.source.substring_char(self.current_pos, e))
    }

    /// Whether `a` occurs at or after the position, strictly before any
    /// occurrence of `b` there.
    pub fn is_a_before_b(&self, a: &str, b: &str) -> (r: bool)
        requires
            self.wf(),
        ensures
            r == precedes(self.text(), a@, b@, self.pos()),
    {
        let a_pos = self.find_pattern_pos(a);
        let b_pos = self.find_pattern_pos(b);
        match a_pos {
            None => false,
            Some(ap) => match b_pos {
                None => true,
                Some(bp) => ap < bp,
            },
        }
    }

    /// Whether `pattern` occurs anywhere at or after the position.
    pub fn is_before_end(&self, pattern: &str) -> (r: bool)
        requires
            self.wf(),
        ensures
            r == (first_match(self.text(), pattern@, self.pos()) is Some),
    {
        self.find_pattern_pos(pattern).is_some()
    }

    /// The first occurrence of `pattern` at or after the position, as an
    /// offset from the position.
    pub fn find_pattern_pos(&self, pattern: &str) -> (r: Option<usize>)
        requires
            self.wf(),
        ensures
            match r {
                Some(k) => first_match(self.text(), pattern@, self.pos()) == Some(
                    self.pos() + k,
                ),
                None => first_match(self.text(), pattern@, self.pos()) is None,
            },
    {
        proof {
            lemma_first_match(self.text(), pattern@, self.pos());
        }
        match find_from(self.source, pattern, self.current_pos) {
            None => None,
            Some(j) => Some(j - self.current_pos),
        }
    }

    /// Moves the position to the begin of the next occurrence of
    /// `pattern`, or to the end of the text when there is none.
    pub fn goto_begin_of(&mut self, pattern: &str)
        requires
            old(self).wf(),
        ensures
            final(self).wf(),
            final(self).text() == old(self).text(),
            final(self).pos() == begin_of(old(self).text(), pattern@, old(self).pos()),
            final(self).pos() >= old(self).pos(),
    {
        proof {
            lemma_first_match(self.text(), pattern@, self.pos());
        }
        match find_from(self.source, pattern, self.current_pos) {
            Some(j) => {
                self.current_pos = j;
            },
            None => {
                self.current_pos = self.source.unicode_len();
            },
        }
    }

    /// As `goto_begin_of`, and returns the text passed over.
    pub fn goto_begin_of_and_get_omitted_content(&mut self, pattern: &str) -> (r: Option<
        &'a str,
    >)
        requires
            old(self).wf(),
        ensures
            final(self).wf(),
            final(self).text() == old(self).text(),
            final(self).pos() == begin_of(old(self).text(), pattern@, old(self).pos()),
            final(self).pos() >= old(self).pos(),
            match r {
                Some(omitted) => omitted@ == old(self).text().subrange(
                    old(self).pos(),
                    final(self).pos(),
                ),
                None => false,
            },
    {
        let old_pos = self.current_pos;
        self.goto_begin_of(pattern);
        Some(self.source.substring_char(old_pos, self.current_pos))
    }

    /// Moves the position just past the next occurrence of `pattern`, or
    /// to the end of the text when there is none, and returns the text
    /// passed over.
    pub fn goto_end_of_and_get_omitted_content(&mut self, pattern: &str) -> (r: Option<&'a str>)
        requires
            old(self).wf(),
        ensures
            final(self).wf(),
            final(self).text() == old(self).text(),
            final(self).pos() == end_of(old(self).text(), pattern@, old(self).pos()),
            final(self).pos() >= old(self).pos(),
            match r {
                Some(omitted) => omitted@ == old(self).text().subrange(
                    old(self).pos(),
                    final(self).pos(),
                ),
                None => false,
            },
    {
        let old_pos = self.current_pos;
        self.goto_end_of(pattern);
        Some(self.source.substring_char(old_pos, self.current_pos))
    }

    /// Moves the position just past the next occurrence of `pattern`, or
    /// to the end of the text when there is none.
    pub fn goto_end_of(&mut self, pattern: &str)
        requires
            old(self).wf(),
        ensures
            final(self).wf(),
            final(self).text() == old(self).text(),
            final(self).pos() == end_of(old(self).text(), pattern@, old(self).pos()),
            final(self).pos() >= old(self).pos(),
    {
        proof {
            lemma_first_match(self.text(), pattern@, self.pos());
        }
        let n = self.source.unicode_len();
        let plen = pattern.unicode_len();
        match find_from(self.source, pattern, self.current_pos) {
            Some(j) => {
                assert(j + plen <= n);
                self.current_pos = j + plen;
            },
            None => {
                self.current_pos = n;
            },
        }
    }

    /// The text from the position up to the begin of the next occurrence
    /// of `pattern`, without moving; nothing when `pattern` is absent.
    pub fn get_content_til_begin_of(&self, pattern: &str) -> (r: Option<&'a str>)
        requires
            self.wf(),
        ensures
            match r {
                Some(content) => first_match(self.text(), pattern@, self.pos()) is Some
                    && content@ == self.text().subrange(
                    self.pos(),
                    first_match(self.text(), pattern@, self.pos())->Some_0,
                ),
                None => first_match(self.text(), pattern@, self.pos()) is None,
            },
    {
        proof {
            lemma_first_match(self.text(), pattern@, self.pos());
        }
        match find_from(self.source, pattern, self.current_pos) {
            Some(j) => Some(self.source.substring_char(self.current_pos, j)),
            None => None,
        }
    }

    /// The text from the position through the end of the next occurrence
    /// of `pattern`, without moving; nothing when `pattern` is absent.
    pub fn get_content_til_end_of(&self, pattern: &str) -> (r: Option<&'a str>)
        requires
            self.wf(),
        ensures
            match r {
                Some(content) => first_match(self.text(), pattern@, self.pos()) is Some
                    && content@ == self.text().subrange(
                    self.pos(),
                    first_match(self.text(), pattern@, self.pos())->Some_0 + pattern@.len(),
                ),
                None => first_match(self.text(), pattern@, self.pos()) is None,
            },
    {
        proof {
            lemma_first_match(self.text(), pattern@, self.pos());
        }
        let n = self.source.unicode_len();
        let plen = pattern.unicode_len();
        match find_from(self.source, pattern, self.current_pos) {
            Some(j) => {
                assert(j + plen <= n);
                Some(self.source.substring_char(self.current_pos, j + plen))
            },
            None => None,
        }
    }

    /// Whether the position has reached the end of the text.
    pub fn is_at_end(&self) -> (r: bool)
        requires
            self.wf(),
        ensures
            r == (self.pos() == self.text().len()),
    {
        self.current_pos == self.source.unicode_len()
    }

    /// The length of the whole text, in characters.
    pub fn get_source_len(&self) -> (r: usize)
        ensures
            r == self.text().len(),
    {
        self.source.unicode_len()
    }
}

} // verus!
