//! The line iterator: cuts a text into rows that fit a column budget.
//!
//! A row starts with the first word behind the cursor and takes as many
//! further words, with the separators between them, as fit into the budget.
//! A word that is wider than the whole budget is cut between two of its
//! clusters, and a single cluster that is wider than the budget gets a row
//! of its own. Separators in front of a row and behind it belong to no row.
//! A text without a word has no rows.

use super::cluster::Segmented;
use super::measure::{
    find_run_end, fitting_end, lemma_fitting_end, lemma_reaches_order, lemma_reaches_position,
    lemma_reaches_trans, lemma_run_end, lemma_width_grows, lemma_width_split, reaches, run_end,
    take_run, width_between, Kind,
};
use vstd::prelude::*;

verus! {

/// A row of text: a half-open range of positions of the text. In a string
/// the positions are byte offsets.
#[derive(Clone, Copy, Debug, PartialEq, Eq, Structural)]
pub struct Span {
    /// Position of the first cluster of the row.
    pub start: usize,
    /// Position behind the last cluster of the row.
    pub end: usize,
}

impl View for Span {
    type V = (int, int);

    open spec fn view(&self) -> (int, int) {
        (self.start as int, self.end as int)
    }
}

/// Where the next row starts, seen from `cursor`: at the first cluster that
/// is no separator. It is the end of the text where no word is left.
pub open spec fn line_start<S: Segmented>(s: &S, cursor: int) -> int {
    run_end(s, cursor, Kind::Separator)
}

/// Whether a row is left behind `cursor`.
pub open spec fn has_line<S: Segmented>(s: &S, cursor: int) -> bool {
    line_start(s, cursor) < s.extent()
}

/// Where a row ends that starts at `start` and already reaches to `end`, the
/// end of a word: it takes the next word, with the separator in front of
/// it, as long as the row then still fits into the budget.
pub open spec fn extend_line<S: Segmented>(s: &S, budget: nat, start: int, end: int) -> int
    decreases s.extent() - end,
{
    let word = run_end(s, end, Kind::Separator);
    let next = run_end(s, word, Kind::Word);
    if end <= word < next <= s.extent() && width_between(s, start, next) <= budget {
        extend_line(s, budget, start, next)
    } else {
        end
    }
}

/// Whether the word at `start` has to be cut: it is wider than the budget.
pub open spec fn is_cut<S: Segmented>(s: &S, budget: nat, start: int) -> bool {
    width_between(s, start, run_end(s, start, Kind::Word)) > budget
}

/// Whether the row at `start` is forced: its first cluster alone is wider
/// than the budget.
pub open spec fn is_forced<S: Segmented>(s: &S, budget: nat, start: int) -> bool {
    s.width_at(start) > budget
}

/// Where the row ends that starts with the word at `start`.
pub open spec fn line_end<S: Segmented>(s: &S, budget: nat, start: int) -> int {
    let word = run_end(s, start, Kind::Word);
    if is_cut(s, budget, start) {
        if is_forced(s, budget, start) {
            s.after(start)
        } else {
            fitting_end(s, start, word, budget)
        }
    } else {
        extend_line(s, budget, start, word)
    }
}

/// The rows of a text behind `cursor`, in order.
pub open spec fn lines_from<S: Segmented>(s: &S, budget: nat, cursor: int) -> Seq<(int, int)>
    decreases s.extent() - cursor,
{
    let start = line_start(s, cursor);
    let end = line_end(s, budget, start);
    if cursor <= start < end <= s.extent() {
        seq![(start, end)] + lines_from(s, budget, end)
    } else {
        Seq::empty()
    }
}

/// A word that starts before the end of the text is not empty.
pub proof fn lemma_word_not_empty<S: Segmented>(s: &S, start: int)
    requires
        s.is_position(start),
        start < s.extent(),
        !s.blank_at(start),
    ensures
        s.after(start) <= run_end(s, start, Kind::Word),
{
    s.lemma_after(start);
    lemma_run_end(s, s.after(start), Kind::Word);
}

/// The start of a row is a position behind the cursor, reached from it over
/// separators only, and the cluster there is no separator.
pub proof fn lemma_line_start<S: Segmented>(s: &S, cursor: int)
    requires
        s.is_position(cursor),
    ensures
        cursor <= line_start(s, cursor) <= s.extent(),
        s.is_position(line_start(s, cursor)),
        reaches(s, cursor, line_start(s, cursor)),
        has_line(s, cursor) ==> !s.blank_at(line_start(s, cursor)),
        line_start(s, line_start(s, cursor)) == line_start(s, cursor),
{
    lemma_run_end(s, cursor, Kind::Separator);
}

/// What `extend_line` gives is a position reached from the end it began
/// with, and the row up to it fits into the budget.
pub proof fn lemma_extend_line<S: Segmented>(s: &S, budget: nat, start: int, end: int)
    requires
        s.is_position(end),
        reaches(s, start, end),
        width_between(s, start, end) <= budget,
    ensures
        end <= extend_line(s, budget, start, end) <= s.extent(),
        s.is_position(extend_line(s, budget, start, end)),
        reaches(s, start, extend_line(s, budget, start, end)),
        width_between(s, start, extend_line(s, budget, start, end)) <= budget,
    decreases s.extent() - end,
{
    let word = run_end(s, end, Kind::Separator);
    let next = run_end(s, word, Kind::Word);
    lemma_run_end(s, end, Kind::Separator);
    lemma_run_end(s, word, Kind::Word);
    if end <= word < next <= s.extent() && width_between(s, start, next) <= budget {
        lemma_reaches_trans(s, end, word, next);
        lemma_reaches_trans(s, start, end, next);
        lemma_extend_line(s, budget, start, next);
    }
}

/// The row that starts with a word is not empty, ends at a position of the
/// text that is reached from its start, and fits into the budget unless it
/// is forced; a forced row holds one cluster.
pub proof fn lemma_line_end<S: Segmented>(s: &S, budget: nat, start: int)
    requires
        s.is_position(start),
        start < s.extent(),
        !s.blank_at(start),
    ensures
        start < line_end(s, budget, start) <= s.extent(),
        s.is_position(line_end(s, budget, start)),
        reaches(s, start, line_end(s, budget, start)),
        !is_forced(s, budget, start) ==> width_between(
            s,
            start,
            line_end(s, budget, start),
        ) <= budget,
        is_forced(s, budget, start) ==> line_end(s, budget, start) == s.after(start),
{
    let word = run_end(s, start, Kind::Word);
    let next = s.after(start);
    s.lemma_after(start);
    lemma_run_end(s, start, Kind::Word);
    lemma_word_not_empty(s, start);
    assert(reaches(s, next, next));
    assert(reaches(s, start, next));
    lemma_reaches_order(s, next, word);
    assert(width_between(s, next, next) == 0);
    assert(width_between(s, start, next) == s.width_at(start));
    lemma_width_grows(s, start, next, word);
    if is_cut(s, budget, start) {
        if !is_forced(s, budget, start) {
            lemma_fitting_end(s, start, word, budget);
            lemma_fitting_end(s, next, word, (budget - s.width_at(start)) as nat);
            lemma_reaches_position(s, start, fitting_end(s, start, word, budget));
        }
    } else {
        lemma_extend_line(s, budget, start, word);
    }
}

/// Takes further words into a row as long as they fit.
fn extend<S: Segmented>(
    source: &S,
    budget: usize,
    start: usize,
    end: usize,
    used: usize,
) -> (last: usize)
    requires
        source.is_position(end as int),
        reaches(source, start as int, end as int),
        used == width_between(source, start as int, end as int),
        used <= budget,
    ensures
        last == extend_line(source, budget as nat, start as int, end as int),
{
    let mut last = end;
    let mut used = used;
    loop
        invariant
            source.is_position(last as int),
            reaches(source, start as int, last as int),
            used == width_between(source, start as int, last as int),
            used <= budget,
            extend_line(source, budget as nat, start as int, last as int) == extend_line(
                source,
                budget as nat,
                start as int,
                end as int,
            ),
        decreases source.extent() - last,
    {
        let ghost word = run_end(source, last as int, Kind::Separator);
        let ghost next = run_end(source, word, Kind::Word);
        proof {
            lemma_run_end(source, last as int, Kind::Separator);
            lemma_run_end(source, word, Kind::Word);
            lemma_reaches_trans(source, start as int, last as int, word);
            lemma_reaches_trans(source, start as int, word, next);
            lemma_width_split(source, start as int, last as int, word);
            lemma_width_split(source, start as int, word, next);
        }
        let gap = take_run(source, last, budget - used, Kind::Separator);
        if !gap.followed {
            return last;
        }
        let piece = take_run(source, gap.end, budget - used - gap.width, Kind::Word);
        if !piece.whole {
            return last;
        }
        proof {
            lemma_word_not_empty(source, word);
            source.lemma_after(word);
        }
        used = used + gap.width + piece.width;
        last = piece.end;
    }
}

/// Cuts a text into rows of a given width, one row for each call of
/// [`LinesIterator::next`].
pub struct LinesIterator<S: Segmented> {
    /// The text that is cut.
    content: S,
    /// Position behind the last row that was handed out.
    offset: usize,
    /// Columns that a row may take.
    width: usize,
}

impl<S: Segmented> LinesIterator<S> {
    #[verifier::type_invariant]
    spec fn cursor_is_position(self) -> bool {
        self.content.is_position(self.offset as int)
    }

    /// The text that is cut into rows.
    pub closed spec fn source(self) -> S {
        self.content
    }

    /// Position up to which the text has been handed out or passed over.
    pub closed spec fn cursor(self) -> int {
        self.offset as int
    }

    /// Columns that a row may take.
    pub closed spec fn budget(self) -> nat {
        self.width as nat
    }

    /// An iterator over the rows of `content`, none of them wider than
    /// `width` columns unless a single cluster is.
    pub fn new(content: S, width: usize) -> (lines: Self)
        ensures
            lines.source() == content,
            lines.budget() == width,
            lines.cursor() == 0,
    {
        proof {
            content.lemma_ends();
        }
        LinesIterator { content, offset: 0, width }
    }

    /// The next row, or `None` when no word is left. After `None` every
    /// further call gives `None`.
    pub fn next(&mut self) -> (line: Option<Span>)
        ensures
            final(self).source() == old(self).source(),
            final(self).budget() == old(self).budget(),
            old(self).source().is_position(old(self).cursor()),
            old(self).source().is_position(final(self).cursor()),
            line is Some <==> has_line(&old(self).source(), old(self).cursor()),
            match line {
                Some(span) => {
                    &&& span.start == line_start(&old(self).source(), old(self).cursor())
                    &&& span.end == line_end(
                        &old(self).source(),
                        old(self).budget(),
                        span.start as int,
                    )
                    &&& final(self).cursor() == span.end
                    &&& old(self).cursor() <= span.start < span.end <= old(self).source().extent()
                    &&& old(self).source().is_position(span.start as int)
                    &&& reaches(&old(self).source(), span.start as int, span.end as int)
                    &&& if is_forced(&old(self).source(), old(self).budget(), span.start as int) {
                        span.end == old(self).source().after(span.start as int)
                    } else {
                        width_between(&old(self).source(), span.start as int, span.end as int)
                            <= old(self).budget()
                    }
                },
                None => {
                    &&& final(self).cursor() == old(self).source().extent()
                    &&& !has_line(&final(self).source(), final(self).cursor())
                },
            },
    {
        proof {
            use_type_invariant(&*self);
            lemma_line_start(&self.content, self.offset as int);
        }
        let budget = self.width;
        let len = self.content.reach();
        let start = find_run_end(&self.content, self.offset, Kind::Separator);
        if start >= len {
            self.offset = start;
            return None;
        }
        proof {
            lemma_line_end(&self.content, budget as nat, start as int);
            lemma_run_end(&self.content, start as int, Kind::Word);
        }
        let first = take_run(&self.content, start, budget, Kind::Word);
        let end = if first.whole {
            extend(&self.content, budget, start, first.end, first.width)
        } else if first.end > start {
            proof {
                let next = self.content.after(start as int);
                lemma_reaches_order(&self.content, next, first.end as int);
                assert(width_between(&self.content, start as int, first.end as int)
                    == self.content.width_at(start as int) + width_between(
                    &self.content,
                    next,
                    first.end as int,
                ));
            }
            first.end
        } else {
            proof {
                lemma_word_not_empty(&self.content, start as int);
            }
            self.content.read(start).end
        };
        self.offset = end;
        Some(Span { start, end })
    }

    /// Runs the iterator to its end and gives the rows that were left, in
    /// order.
    pub fn rest(&mut self) -> (rows: Vec<Span>)
        ensures
            final(self).source() == old(self).source(),
            final(self).budget() == old(self).budget(),
            final(self).cursor() == old(self).source().extent(),
            rows@.map_values(|span: Span| span@) == lines_from(
                &old(self).source(),
                old(self).budget(),
                old(self).cursor(),
            ),
    {
        proof {
            use_type_invariant(&*self);
        }
        let ghost source = self.source();
        let ghost budget = self.budget();
        let ghost first = self.cursor();
        let mut rows: Vec<Span> = Vec::new();
        loop
            invariant
                source == old(self).source(),
                budget == old(self).budget(),
                first == old(self).cursor(),
                self.source() == source,
                self.budget() == budget,
                source.is_position(self.cursor()),
                rows@.map_values(|span: Span| span@) + lines_from(&source, budget, self.cursor())
                    == lines_from(&source, budget, first),
            decreases source.extent() - self.cursor(),
        {
            let ghost before = self.cursor();
            let ghost found = rows@.map_values(|span: Span| span@);
            match self.next() {
                Some(span) => {
                    rows.push(span);
                    proof {
                        let grown = rows@.map_values(|span: Span| span@);
                        assert(grown =~= found + seq![span@]);
                        assert(lines_from(&source, budget, before) == seq![span@] + lines_from(
                            &source,
                            budget,
                            span.end as int,
                        ));
                        assert(grown + lines_from(&source, budget, span.end as int) =~= found
                            + lines_from(&source, budget, before));
                    }
                },
                None => {
                    proof {
                        assert(lines_from(&source, budget, before) =~= Seq::<(int, int)>::empty());
                        assert(found + Seq::<(int, int)>::empty() =~= found);
                    }
                    return rows;
                },
            }
        }
    }
}

} // verus!
