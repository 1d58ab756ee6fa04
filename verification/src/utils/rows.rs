//! What holds of the rows that the line iterator hands out: they fit the
//! budget, they are as long as they can be, they follow one another, and
//! together they hold every word of the text.

use super::cluster::Segmented;
use super::lines_iterator::{
    extend_line, has_line, is_cut, is_forced, lemma_line_end, lemma_line_start, line_end,
    line_start, lines_from,
};
use super::measure::{
    fitting_end, lemma_fitting_end, lemma_fitting_whole, lemma_reaches_order,
    lemma_reaches_position, lemma_run_end, lemma_width_grows, reaches, run_end, width_between,
    Kind,
};
use vstd::prelude::*;

verus! {

/// The positions of the clusters between `from` and `to` that are no
/// separators, in order: the clusters of the words.
pub open spec fn words_between<S: Segmented>(s: &S, from: int, to: int) -> Seq<int>
    decreases to - from,
{
    let next = s.after(from);
    if from < next <= to {
        if s.blank_at(from) {
            words_between(s, next, to)
        } else {
            seq![from] + words_between(s, next, to)
        }
    } else {
        Seq::empty()
    }
}

/// The positions of the clusters of the words of a sequence of rows, row
/// after row.
pub open spec fn words_of_rows<S: Segmented>(s: &S, rows: Seq<(int, int)>) -> Seq<int>
    decreases rows.len(),
{
    if rows.len() == 0 {
        Seq::empty()
    } else {
        words_between(s, rows[0].0, rows[0].1) + words_of_rows(s, rows.drop_first())
    }
}

/// The words of a stretch are those up to a place that is reached inside it,
/// followed by those behind it.
pub proof fn lemma_words_split<S: Segmented>(s: &S, from: int, mid: int, to: int)
    requires
        reaches(s, from, mid),
        mid <= to,
    ensures
        words_between(s, from, to) == words_between(s, from, mid) + words_between(s, mid, to),
    decreases mid - from,
{
    if from == mid {
        assert(words_between(s, from, mid) =~= Seq::<int>::empty());
        assert(Seq::<int>::empty() + words_between(s, mid, to) =~= words_between(s, mid, to));
    } else {
        let next = s.after(from);
        lemma_reaches_order(s, next, mid);
        lemma_words_split(s, next, mid, to);
        assert((seq![from] + words_between(s, next, mid)) + words_between(s, mid, to) =~= seq![
            from,
        ] + (words_between(s, next, mid) + words_between(s, mid, to)));
    }
}

/// A run of separators holds no word.
pub proof fn lemma_separators_hold_no_word<S: Segmented>(s: &S, from: int)
    requires
        s.is_position(from),
    ensures
        words_between(s, from, run_end(s, from, Kind::Separator)) == Seq::<int>::empty(),
    decreases s.extent() - from,
{
    let next = s.after(from);
    lemma_run_end(s, from, Kind::Separator);
    s.lemma_after(from);
    if from < s.extent() && s.blank_at(from) {
        lemma_run_end(s, next, Kind::Separator);
        lemma_separators_hold_no_word(s, next);
    }
}

/// A row fits into the budget, unless it is forced: then it holds the one
/// cluster that is wider than the budget.
pub proof fn lemma_row_fits<S: Segmented>(s: &S, budget: nat, cursor: int)
    requires
        s.is_position(cursor),
        has_line(s, cursor),
    ensures
        ({
            let start = line_start(s, cursor);
            let end = line_end(s, budget, start);
            if is_forced(s, budget, start) {
                end == s.after(start)
            } else {
                width_between(s, start, end) <= budget
            }
        }),
{
    lemma_line_start(s, cursor);
    lemma_line_end(s, budget, line_start(s, cursor));
}

/// Nowhere inside a row that is not forced is the width of the row up to
/// there greater than the budget.
pub proof fn lemma_row_never_overfull<S: Segmented>(s: &S, budget: nat, cursor: int, upto: int)
    requires
        s.is_position(cursor),
        has_line(s, cursor),
        !is_forced(s, budget, line_start(s, cursor)),
        reaches(s, line_start(s, cursor), upto),
        upto <= line_end(s, budget, line_start(s, cursor)),
    ensures
        width_between(s, line_start(s, cursor), upto) <= budget,
{
    let start = line_start(s, cursor);
    lemma_line_start(s, cursor);
    lemma_line_end(s, budget, start);
    lemma_width_grows(s, start, upto, line_end(s, budget, start));
}

/// A row that `extend_line` has closed cannot take the next word.
pub proof fn lemma_extend_line_closed<S: Segmented>(s: &S, budget: nat, start: int, end: int)
    requires
        s.is_position(end),
    ensures
        ({
            let last = extend_line(s, budget, start, end);
            let word = run_end(s, last, Kind::Separator);
            let next = run_end(s, word, Kind::Word);
            word < s.extent() ==> width_between(s, start, next) > budget
        }),
    decreases s.extent() - end,
{
    let word = run_end(s, end, Kind::Separator);
    let next = run_end(s, word, Kind::Word);
    lemma_run_end(s, end, Kind::Separator);
    lemma_run_end(s, word, Kind::Word);
    if word < s.extent() {
        s.lemma_after(word);
        lemma_run_end(s, s.after(word), Kind::Word);
    }
    if end <= word < next <= s.extent() && width_between(s, start, next) <= budget {
        lemma_extend_line_closed(s, budget, start, next);
    }
}

/// A row is as long as it can be. Where its first word is not cut, another
/// word follows only if the row with that word would be wider than the
/// budget. Where the word is cut and the row is not forced, the row with
/// the next cluster would be wider than the budget.
pub proof fn lemma_row_is_greedy<S: Segmented>(s: &S, budget: nat, cursor: int)
    requires
        s.is_position(cursor),
        has_line(s, cursor),
    ensures
        ({
            let start = line_start(s, cursor);
            let end = line_end(s, budget, start);
            let word = run_end(s, end, Kind::Separator);
            let next = run_end(s, word, Kind::Word);
            if is_cut(s, budget, start) {
                !is_forced(s, budget, start) ==> width_between(
                    s,
                    start,
                    s.after(end),
                ) > budget
            } else {
                word < s.extent() ==> width_between(s, start, next) > budget
            }
        }),
{
    let start = line_start(s, cursor);
    let first = run_end(s, start, Kind::Word);
    lemma_line_start(s, cursor);
    lemma_line_end(s, budget, start);
    lemma_run_end(s, start, Kind::Word);
    if is_cut(s, budget, start) {
        if !is_forced(s, budget, start) {
            let end = fitting_end(s, start, first, budget);
            lemma_fitting_end(s, start, first, budget);
            lemma_fitting_whole(s, start, first, budget);
            lemma_reaches_position(s, start, end);
            s.lemma_after(end);
            lemma_run_end(s, end, Kind::Word);
            lemma_run_end(s, s.after(end), Kind::Word);
            lemma_word_goes_on(s, start, end);
        }
    } else {
        lemma_extend_line_closed(s, budget, start, first);
    }
}

/// A place inside a word, before its end, has a cluster of the word behind
/// it.
pub proof fn lemma_word_goes_on<S: Segmented>(s: &S, start: int, mid: int)
    requires
        s.is_position(start),
        reaches(s, start, mid),
        mid < run_end(s, start, Kind::Word),
    ensures
        run_end(s, mid, Kind::Word) == run_end(s, start, Kind::Word),
        s.after(mid) <= run_end(s, start, Kind::Word),
    decreases mid - start,
{
    lemma_run_end(s, start, Kind::Word);
    if start == mid {
        s.lemma_after(start);
        lemma_run_end(s, s.after(start), Kind::Word);
    } else {
        let next = s.after(start);
        lemma_reaches_order(s, next, mid);
        s.lemma_after(start);
        lemma_word_goes_on(s, next, mid);
    }
}

/// The rows behind a cursor follow one another: each is a stretch of the
/// text that is not empty, none starts before the cursor, and each starts
/// where the one before it has ended or behind it.
pub proof fn lemma_rows_in_order<S: Segmented>(s: &S, budget: nat, cursor: int, index: int)
    requires
        s.is_position(cursor),
        0 <= index < lines_from(s, budget, cursor).len(),
    ensures
        ({
            let rows = lines_from(s, budget, cursor);
            &&& cursor <= rows[index].0 < rows[index].1 <= s.extent()
            &&& s.is_position(rows[index].0)
            &&& s.is_position(rows[index].1)
            &&& !s.blank_at(rows[index].0)
            &&& rows[index].1 == line_end(s, budget, rows[index].0)
            &&& index > 0 ==> rows[index - 1].1 <= rows[index].0
            &&& index > 0 ==> rows[index].0 == line_start(s, rows[index - 1].1)
        }),
    decreases index,
{
    let start = line_start(s, cursor);
    let end = line_end(s, budget, start);
    lemma_line_start(s, cursor);
    lemma_line_end(s, budget, start);
    let rest = lines_from(s, budget, end);
    if index > 0 {
        lemma_rows_in_order(s, budget, end, index - 1);
        if index > 1 {
            assert(lines_from(s, budget, cursor)[index - 1] == rest[index - 2]);
        }
        assert(lines_from(s, budget, cursor)[index] == rest[index - 1]);
    }
}

/// Every row holds at least one cluster of a word, so there are no more
/// rows behind a cursor than there are such clusters.
pub proof fn lemma_rows_are_few<S: Segmented>(s: &S, budget: nat, cursor: int)
    requires
        s.is_position(cursor),
    ensures
        lines_from(s, budget, cursor).len() <= words_between(s, cursor, s.extent()).len(),
    decreases s.extent() - cursor,
{
    let len = s.extent();
    let start = line_start(s, cursor);
    let end = line_end(s, budget, start);
    lemma_line_start(s, cursor);
    if has_line(s, cursor) {
        lemma_line_end(s, budget, start);
        lemma_rows_are_few(s, budget, end);
        lemma_separators_hold_no_word(s, cursor);
        lemma_words_split(s, cursor, start, len);
        lemma_words_split(s, start, end, len);
        lemma_reaches_order(s, s.after(start), end);
        assert(words_between(s, start, end).len() >= 1);
    }
}

/// The rows of a text hold its words: the clusters of the words of all rows
/// behind a cursor, row after row, are the clusters of the words of the
/// text behind the cursor, each of them once and in its place.
pub proof fn lemma_rows_hold_all_words<S: Segmented>(s: &S, budget: nat, cursor: int)
    requires
        s.is_position(cursor),
    ensures
        words_of_rows(s, lines_from(s, budget, cursor)) == words_between(s, cursor, s.extent()),
    decreases s.extent() - cursor,
{
    let len = s.extent();
    let start = line_start(s, cursor);
    let end = line_end(s, budget, start);
    let rows = lines_from(s, budget, cursor);
    lemma_line_start(s, cursor);
    lemma_separators_hold_no_word(s, cursor);
    lemma_words_split(s, cursor, start, len);
    if has_line(s, cursor) {
        lemma_line_end(s, budget, start);
        lemma_rows_hold_all_words(s, budget, end);
        lemma_words_split(s, start, end, len);
        assert(rows.drop_first() =~= lines_from(s, budget, end));
        assert(rows[0] == (start, end));
        assert(Seq::<int>::empty() + words_between(s, start, len) =~= words_between(
            s,
            start,
            len,
        ));
    } else {
        s.lemma_after(start);
        assert(words_between(s, start, len) =~= Seq::<int>::empty());
        assert(Seq::<int>::empty() + Seq::<int>::empty() =~= Seq::<int>::empty());
    }
}

} // verus!
