//! A copy-forward transform builder.
//!
//! The builder wraps a cursor and accumulates an output buffer by copying
//! spans of the input verbatim and by emitting literal text, never
//! re-reading input it has already passed. A ghost record of the pieces
//! that built the output carries the builder's central guarantee: as long
//! as no span is skipped, the copied portions of the output, concatenated,
//! are exactly the input up to the read position — nothing dropped,
//! nothing duplicated, nothing reordered.

use vstd::prelude::*;

use crate::scan::first_match;
use crate::source_parser::begin_of;
use crate::source_parser::end_of;
use crate::source_parser::precedes;
use crate::source_parser::SourceParser;

verus! {

/// One step in the construction of the output buffer.
pub enum Piece {
    /// The input span `[lo, hi)`, copied to the output.
    Copied { lo: int, hi: int },
    /// The input span `[lo, hi)`, passed over without copying.
    Skipped { lo: int, hi: int },
    /// Literal text emitted into the output.
    Emitted { text: Seq<char> },
}

/// What one piece contributes to the output.
pub open spec fn piece_output(src: Seq<char>, p: Piece) -> Seq<char> {
    match p {
        Piece::Copied { lo, hi } => src.subrange(lo, hi),
        Piece::Skipped { .. } => Seq::empty(),
        Piece::Emitted { text } => text,
    }
}

/// The output that a sequence of pieces builds, in order.
pub open spec fn output_of(src: Seq<char>, ps: Seq<Piece>) -> Seq<char>
    decreases ps.len(),
{
    if ps.len() == 0 {
        Seq::empty()
    } else {
        output_of(src, ps.drop_last()) + piece_output(src, ps.last())
    }
}

/// The copied portions of the output, concatenated: what remains of the
/// output after the emitted literals are removed.
pub open spec fn copied_of(src: Seq<char>, ps: Seq<Piece>) -> Seq<char>
    decreases ps.len(),
{
    if ps.len() == 0 {
        Seq::empty()
    } else {
        copied_of(src, ps.drop_last()) + match ps.last() {
            Piece::Copied { lo, hi } => src.subrange(lo, hi),
            _ => Seq::empty(),
        }
    }
}

/// The copied and skipped spans are consecutive and cover the input
/// exactly from its begin to `hi`.
pub open spec fn covers_prefix(src: Seq<char>, ps: Seq<Piece>, hi: int) -> bool
    decreases ps.len(),
{
    if ps.len() == 0 {
        hi == 0
    } else {
        match ps.last() {
            Piece::Copied { lo: l, hi: h } => h == hi && 0 <= l <= h <= src.len()
                && covers_prefix(src, ps.drop_last(), l),
            Piece::Skipped { lo: l, hi: h } => h == hi && 0 <= l <= h <= src.len()
                && covers_prefix(src, ps.drop_last(), l),
            Piece::Emitted { .. } => covers_prefix(src, ps.drop_last(), hi),
        }
    }
}

/// No span of the input was passed over without being copied.
pub open spec fn copy_only(ps: Seq<Piece>) -> bool {
    forall|i: int| 0 <= i < ps.len() ==> !(#[trigger] ps[i] is Skipped)
}

/// Appending a piece appends its contribution to the output.
pub proof fn lemma_output_of_push(src: Seq<char>, ps: Seq<Piece>, p: Piece)
    ensures
        output_of(src, ps.push(p)) == output_of(src, ps) + piece_output(src, p),
        copied_of(src, ps.push(p)) == copied_of(src, ps) + match p {
            Piece::Copied { lo, hi } => src.subrange(lo, hi),
            _ => Seq::<char>::empty(),
        },
        ps.push(p).drop_last() == ps,
        ps.push(p).last() == p,
        ps.push(p).len() == ps.len() + 1,
{
    assert(ps.push(p).drop_last() =~= ps);
    assert(ps.push(p).last() == p);
}

/// Byte conservation, the builder's core guarantee: when no span was
/// skipped, the copied portions of the output, concatenated in order,
/// reproduce the input exactly up to position `hi`.
pub proof fn lemma_copied_is_prefix(src: Seq<char>, ps: Seq<Piece>, hi: int)
    requires
        covers_prefix(src, ps, hi),
        copy_only(ps),
    ensures
        copied_of(src, ps) == src.subrange(0, hi),
    decreases ps.len(),
{
    if ps.len() == 0 {
        assert(src.subrange(0, 0) =~= Seq::<char>::empty());
    } else {
        assert(copy_only(ps.drop_last())) by {
            assert(forall|i: int|
                0 <= i < ps.len() - 1 ==> #[trigger] ps.drop_last()[i] == ps[i]);
        }
        match ps.last() {
            Piece::Copied { lo, hi: h } => {
                lemma_copied_is_prefix(src, ps.drop_last(), lo);
                assert(src.subrange(0, lo) + src.subrange(lo, hi) =~= src.subrange(0, hi));
            },
            Piece::Skipped { lo, hi: h } => {
                assert(ps[ps.len() - 1] is Skipped);
            },
            Piece::Emitted { .. } => {
                lemma_copied_is_prefix(src, ps.drop_last(), hi);
            },
        }
    }
}

pub struct SourceModifier<'a> {
    parser: SourceParser<'a>,
    result: String,
    pieces: Ghost<Seq<Piece>>,
}

impl<'a> SourceModifier<'a> {
    /// The whole input text.
    pub closed spec fn text(self) -> Seq<char> {
        self.parser.text()
    }

    /// The read position in the input, a character index.
    pub closed spec fn pos(self) -> int {
        self.parser.pos()
    }

    /// The output accumulated so far.
    pub closed spec fn output(self) -> Seq<char> {
        self.result@
    }

    /// The pieces that built the output, in order.
    pub closed spec fn pieces(self) -> Seq<Piece> {
        self.pieces@
    }

    /// The output is exactly what the recorded pieces build, and their
    /// input spans cover the input exactly up to the read position.
    pub open spec fn wf(self) -> bool {
        &&& 0 <= self.pos() <= self.text().len()
        &&& self.output() == output_of(self.text(), self.pieces())
        &&& covers_prefix(self.text(), self.pieces(), self.pos())
    }

    /// Byte conservation for this builder: as long as only the copying
    /// operations were used, removing the emitted literals from the output
    /// leaves the input up to the read position, unchanged and in order.
    pub proof fn lemma_byte_conservation(self)
        requires
            self.wf(),
            copy_only(self.pieces()),
        ensures
            copied_of(self.text(), self.pieces()) == self.text().subrange(0, self.pos()),
            self.output() == output_of(self.text(), self.pieces()),
    {
        lemma_copied_is_prefix(self.text(), self.pieces(), self.pos());
    }

    pub fn new(source: &'a str) -> (r: SourceModifier<'a>)
        ensures
            r.wf(),
            r.text() == source@,
            r.pos() == 0,
            r.output() == Seq::<char>::empty(),
            r.pieces() == Seq::<Piece>::empty(),
    {
        SourceModifier {
            parser: SourceParser::new(source),
            result: String::new(),
            pieces: Ghost(Seq::empty()),
        }
    }

    /// Copies the input through the next occurrence of `pattern` — or to
    /// the end of the input when `pattern` is absent — into the output.
    pub fn copy_til_end_of(&mut self, pattern: &str)
        requires
            old(self).wf(),
        ensures
            final(self).wf(),
            final(self).text() == old(self).text(),
            final(self).pos() == end_of(old(self).text(), pattern@, old(self).pos()),
            final(self).pos() >= old(self).pos(),
            final(self).output() == old(self).output() + old(self).text().subrange(
                old(self).pos(),
                final(self).pos(),
            ),
            final(self).pieces() == old(self).pieces().push(
                Piece::Copied { lo: old(self).pos(), hi: final(self).pos() },
            ),
    {
        let ghost old_pos = self.pos();
        match self.parser.goto_end_of_and_get_omitted_content(pattern) {
            Some(omitted) => {
                self.result.append(omitted);
            },
            None => {},
        }
        proof {
            self.pieces@ = self.pieces@.push(Piece::Copied { lo: old_pos, hi: self.pos() });
            lemma_output_of_push(
                self.text(),
                old(self).pieces(),
                Piece::Copied { lo: old_pos, hi: self.pos() },
            );
        }
    }

    /// Copies everything from the read position to the end of the input
    /// into the output; the position lands at the end.
    pub fn copy_til_end_of_source(&mut self)
        requires
            old(self).wf(),
        ensures
            final(self).wf(),
            final(self).text() == old(self).text(),
            final(self).pos() == final(self).text().len(),
            final(self).output() == old(self).output() + old(self).text().subrange(
                old(self).pos(),
                old(self).text().len() as int,
            ),
            final(self).pieces() == old(self).pieces().push(
                Piece::Copied { lo: old(self).pos(), hi: old(self).text().len() as int },
            ),
    {
        let ghost old_pos = self.pos();
        let n = self.parser.get_source_len();
        let p = self.parser.get_current_pos();
        let rest = self.parser.advance_for_count_and_get_omitted_source(n - p);
        self.result.append(rest);
        proof {
            self.pieces@ = self.pieces@.push(Piece::Copied { lo: old_pos, hi: self.pos() });
            lemma_output_of_push(
                self.text(),
                old(self).pieces(),
                Piece::Copied { lo: old_pos, hi: self.pos() },
            );
        }
    }

    /// Copies the input up to the begin of the next occurrence of
    /// `pattern` — or to the end of the input when `pattern` is absent —
    /// into the output.
    pub fn copy_til_begin_of(&mut self, pattern: &str)
        requires
            old(self).wf(),
        ensures
            final(self).wf(),
            final(self).text() == old(self).text(),
            final(self).pos() == begin_of(old(self).text(), pattern@, old(self).pos()),
            final(self).pos() >= old(self).pos(),
            final(self).output() == old(self).output() + old(self).text().subrange(
                old(self).pos(),
                final(self).pos(),
            ),
            final(self).pieces() == old(self).pieces().push(
                Piece::Copied { lo: old(self).pos(), hi: final(self).pos() },
            ),
    {
        let ghost old_pos = self.pos();
        match self.parser.goto_begin_of_and_get_omitted_content(pattern) {
            Some(omitted) => {
                self.result.append(omitted);
            },
            None => {},
        }
        proof {
            self.pieces@ = self.pieces@.push(Piece::Copied { lo: old_pos, hi: self.pos() });
            lemma_output_of_push(
                self.text(),
                old(self).pieces(),
                Piece::Copied { lo: old_pos, hi: self.pos() },
            );
        }
    }

    /// Copies exactly `count` characters from the read position — fewer
    /// when fewer remain — into the output.
    pub fn copy_chars_count(&mut self, count: usize)
        requires
            old(self).wf(),
        ensures
            final(self).wf(),
            final(self).text() == old(self).text(),
            final(self).pos() == if old(self).pos() + count <= old(self).text().len() {
                old(self).pos() + count
            } else {
                old(self).text().len() as int
            },
            final(self).output() == old(self).output() + old(self).text().subrange(
                old(self).pos(),
                final(self).pos(),
            ),
            final(self).pieces() == old(self).pieces().push(
                Piece::Copied { lo: old(self).pos(), hi: final(self).pos() },
            ),
    {
        let ghost old_pos = self.pos();
        let n = self.parser.get_source_len();
        let p = self.parser.get_current_pos();
        let to_copy = if count <= n - p {
            count
        } else {
            n - p
        };
        let content = self.parser.advance_for_count_and_get_omitted_source(to_copy);
        self.result.append(content);
        proof {
            self.pieces@ = self.pieces@.push(Piece::Copied { lo: old_pos, hi: self.pos() });
            lemma_output_of_push(
                self.text(),
                old(self).pieces(),
                Piece::Copied { lo: old_pos, hi: self.pos() },
            );
        }
    }

    /// Whether `a` occurs at or after the read position, strictly before
    /// any occurrence of `b` there.
    pub fn is_a_before_b(&self, a: &str, b: &str) -> (r: bool)
        requires
            self.wf(),
        ensures
            r == precedes(self.text(), a@, b@, self.pos()),
    {
        self.parser.is_a_before_b(a, b)
    }

    /// Whether `pattern` occurs anywhere at or after the read position.
    pub fn is_before_end(&self, pattern: &str) -> (r: bool)
        requires
            self.wf(),
        ensures
            r == (first_match(self.text(), pattern@, self.pos()) is Some),
    {
        self.parser.is_before_end(pattern)
    }

    /// Moves the read position to the begin of the next occurrence of
    /// `pattern` — or to the end of the input — without copying, and
    /// returns the text passed over. The caller owes the output that text
    /// if the transform is to conserve it.
    pub fn goto_begin_of_and_get_omitted_content(&mut self, pattern: &str) -> (r: Option<
        &'a str,
    >)
        requires
            old(self).wf(),
        ensures
            final(self).wf(),
            final(self).text() == old(self).text(),
            final(self).pos() == begin_of(old(self).text(), pattern@, old(self).pos()),
            final(self).pos() >= old(self).pos(),
            final(self).output() == old(self).output(),
            final(self).pieces() == old(self).pieces().push(
                Piece::Skipped { lo: old(self).pos(), hi: final(self).pos() },
            ),
            match r {
                Some(omitted) => omitted@ == old(self).text().subrange(
                    old(self).pos(),
                    final(self).pos(),
                ),
                None => false,
            },
    {
        let ghost old_pos = self.pos();
        let r = self.parser.goto_begin_of_and_get_omitted_content(pattern);
        proof {
            self.pieces@ = self.pieces@.push(Piece::Skipped { lo: old_pos, hi: self.pos() });
            lemma_output_of_push(
                self.text(),
                old(self).pieces(),
                Piece::Skipped { lo: old_pos, hi: self.pos() },
            );
        }
        r
    }

    /// The input from the read position up to the begin of the next
    /// occurrence of `pattern`, without moving; nothing when `pattern` is
    /// absent.
    pub fn get_content_til_begin_of(&self, pattern: &str) -> (r: Option<&'a str>)
        requires
            self.wf(),
        ensures
            match r {
                Some(content) => first_match(self.text(), pattern@, self.pos()) is Some
                    && content@ == self.text().subrange(
                    self.pos(),
                    first_match(self.text(), pattern@, self.pos())->Some_0,
                ),
                None => first_match(self.text(), pattern@, self.pos()) is None,
            },
    {
        self.parser.get_content_til_begin_of(pattern)
    }

    /// The input from the read position through the end of the next
    /// occurrence of `pattern`, without moving; nothing when `pattern` is
    /// absent.
    pub fn get_content_til_end_of(&self, pattern: &str) -> (r: Option<&'a str>)
        requires
            self.wf(),
        ensures
            match r {
                Some(content) => first_match(self.text(), pattern@, self.pos()) is Some
                    && content@ == self.text().subrange(
                    self.pos(),
                    first_match(self.text(), pattern@, self.pos())->Some_0 + pattern@.len(),
                ),
                None => first_match(self.text(), pattern@, self.pos()) is None,
            },
    {
        self.parser.get_content_til_end_of(pattern)
    }

    /// Emits literal text into the output without touching the cursor.
    pub fn push_str(&mut self, s: &str)
        requires
            old(self).wf(),
        ensures
            final(self).wf(),
            final(self).text() == old(self).text(),
            final(self).pos() == old(self).pos(),
            final(self).output() == old(self).output() + s@,
            final(self).pieces() == old(self).pieces().push(Piece::Emitted { text: s@ }),
    {
        self.result.append(s);
        proof {
            self.pieces@ = self.pieces@.push(Piece::Emitted { text: s@ });
            lemma_output_of_push(self.text(), old(self).pieces(), Piece::Emitted { text: s@ });
        }
    }

    /// The accumulated output.
    pub fn get_result(&self) -> (r: &String)
        ensures
            r@ == self.output(),
    {
        &self.result
    }
}

} // verus!
