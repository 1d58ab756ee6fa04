//! The prefix calculator: how much of a sequence of tokens, joined by a
//! separator, fits into a number of columns when it may only be cut between
//! two tokens.
//!
//! Tokens are taken from the front as long as the joined text fits. A first
//! token that is wider than the budget is not taken: the prefix is then
//! empty and its length is 0. Lengths are counted in characters.

use super::cluster::Segmented;
use super::measure::{lemma_run_end_any, take_run, text_width, Kind};
use vstd::prelude::*;

verus! {

/// The length of a prefix of a joined sequence of tokens.
#[derive(Clone, Copy, Debug, PartialEq, Eq, Structural)]
pub struct PrefixResult {
    /// Number of characters of the prefix.
    pub length: usize,
}

/// The number of characters of the first `count` tokens and of the
/// separators between them.
pub open spec fn joined_chars<S: Segmented>(tokens: Seq<S>, separator: S, count: int) -> nat
    decreases count,
{
    if count <= 0 {
        0
    } else if count == 1 {
        tokens[0].char_count()
    } else {
        joined_chars(tokens, separator, count - 1) + separator.char_count() + tokens[count
            - 1].char_count()
    }
}

/// The columns that the first `count` tokens take when they are joined by
/// the separator: the widths of the tokens and of the separators between
/// them.
pub open spec fn joined_width<S: Segmented>(tokens: Seq<S>, separator: S, count: int) -> nat
    decreases count,
{
    if count <= 0 {
        0
    } else if count == 1 {
        text_width(&tokens[0])
    } else {
        joined_width(tokens, separator, count - 1) + text_width(&separator) + text_width(
            &tokens[count - 1],
        )
    }
}

/// The number of tokens that are taken when `count` of them have been taken
/// already: one more as long as there is one and the joined text still fits.
pub open spec fn accepted<S: Segmented>(
    tokens: Seq<S>,
    separator: S,
    budget: nat,
    count: int,
) -> int
    decreases tokens.len() - count,
{
    if 0 <= count < tokens.len() && joined_width(tokens, separator, count + 1) <= budget {
        accepted(tokens, separator, budget, count + 1)
    } else {
        count
    }
}

/// The number of leading tokens that fit into the budget together.
pub open spec fn prefix_count<S: Segmented>(tokens: Seq<S>, separator: S, budget: nat) -> int {
    accepted(tokens, separator, budget, 0)
}

/// More tokens make the joined text longer and wider.
pub proof fn lemma_joined_grows<S: Segmented>(
    tokens: Seq<S>,
    separator: S,
    fewer: int,
    more: int,
)
    requires
        fewer <= more,
    ensures
        joined_chars(tokens, separator, fewer) <= joined_chars(tokens, separator, more),
        joined_width(tokens, separator, fewer) <= joined_width(tokens, separator, more),
    decreases more - fewer,
{
    if fewer < more {
        lemma_joined_grows(tokens, separator, fewer, more - 1);
    }
}

/// The tokens that are taken fit, and they are as many as can be: whatever
/// number of tokens beyond them is joined is wider than the budget.
pub proof fn lemma_accepted<S: Segmented>(
    tokens: Seq<S>,
    separator: S,
    budget: nat,
    count: int,
    more: int,
)
    requires
        0 <= count <= tokens.len(),
        joined_width(tokens, separator, count) <= budget,
    ensures
        count <= accepted(tokens, separator, budget, count) <= tokens.len(),
        joined_width(tokens, separator, accepted(tokens, separator, budget, count)) <= budget,
        accepted(tokens, separator, budget, count) < more <= tokens.len() ==> joined_width(
            tokens,
            separator,
            more,
        ) > budget,
    decreases tokens.len() - count,
{
    if count < tokens.len() && joined_width(tokens, separator, count + 1) <= budget {
        lemma_accepted(tokens, separator, budget, count + 1, more);
    } else if count < more <= tokens.len() {
        lemma_joined_grows(tokens, separator, count + 1, more);
    }
}

/// The prefix is the longest that fits: the tokens counted by `prefix_count`
/// fit into the budget when joined, and no greater number of tokens does.
pub proof fn lemma_prefix_is_longest<S: Segmented>(
    tokens: Seq<S>,
    separator: S,
    budget: nat,
    more: int,
)
    ensures
        0 <= prefix_count(tokens, separator, budget) <= tokens.len(),
        joined_width(tokens, separator, prefix_count(tokens, separator, budget)) <= budget,
        prefix_count(tokens, separator, budget) < more <= tokens.len() ==> joined_width(
            tokens,
            separator,
            more,
        ) > budget,
{
    lemma_accepted(tokens, separator, budget, 0, more);
}

/// Measures a whole text, as long as it is not wider than `room`.
///
/// Gives the width of the text, or `None` where the text takes more than
/// `room` columns.
pub fn bounded_width<S: Segmented>(text: &S, room: usize) -> (width: Option<usize>)
    ensures
        match width {
            Some(columns) => columns == text_width(text) && columns <= room,
            None => text_width(text) > room,
        },
{
    proof {
        text.lemma_ends();
        lemma_run_end_any(text, 0);
    }
    let run = take_run(text, 0, room, Kind::Any);
    if run.whole {
        Some(run.width)
    } else {
        None
    }
}

/// Computes the length of the longest prefix of the joined tokens that fits
/// into `width` columns and ends with a whole token.
///
/// The tokens are taken in order; between two of them stands `separator`,
/// which takes its own columns. The result counts the characters of the
/// tokens taken and of the separators between them. It is 0 where not even
/// the first token fits.
pub fn prefix<S: Segmented>(tokens: &[S], width: usize, separator: S) -> (result: PrefixResult)
    requires
        joined_chars(tokens@, separator, tokens@.len() as int) <= usize::MAX,
    ensures
        result.length == joined_chars(
            tokens@,
            separator,
            prefix_count(tokens@, separator, width as nat),
        ),
{
    let gap = bounded_width(&separator, width);
    let gap_len = separator.count_chars();
    let mut count: usize = 0;
    let mut used: usize = 0;
    let mut length: usize = 0;
    while count < tokens.len()
        invariant
            joined_chars(tokens@, separator, tokens@.len() as int) <= usize::MAX,
            gap_len == separator.char_count(),
            match gap {
                Some(columns) => columns == text_width(&separator) && columns <= width,
                None => text_width(&separator) > width,
            },
            count <= tokens@.len(),
            used == joined_width(tokens@, separator, count as int),
            used <= width,
            length == joined_chars(tokens@, separator, count as int),
            accepted(tokens@, separator, width as nat, count as int) == prefix_count(
                tokens@,
                separator,
                width as nat,
            ),
        decreases tokens@.len() - count,
    {
        let token = &tokens[count];
        proof {
            lemma_joined_grows(tokens@, separator, count as int + 1, tokens@.len() as int);
        }
        let mut room = width - used;
        let mut grown = length;
        if count > 0 {
            match gap {
                Some(columns) => {
                    if columns > room {
                        return PrefixResult { length };
                    }
                    room = room - columns;
                    grown = grown + gap_len;
                },
                None => {
                    return PrefixResult { length };
                },
            }
        }
        match bounded_width(token, room) {
            Some(columns) => {
                used = width - room + columns;
                length = grown + token.count_chars();
                count = count + 1;
            },
            None => {
                return PrefixResult { length };
            },
        }
    }
    PrefixResult { length }
}

/// Computes what [`prefix`] computes, for tokens of any length.
///
/// Gives `None` where the tokens, joined by the separator, have more
/// characters than a `usize` can count.
pub fn checked_prefix<S: Segmented>(tokens: &[S], width: usize, separator: S) -> (result: Option<
    PrefixResult,
>)
    ensures
        result is Some <==> joined_chars(tokens@, separator, tokens@.len() as int) <= usize::MAX,
        result matches Some(found) ==> found.length == joined_chars(
            tokens@,
            separator,
            prefix_count(tokens@, separator, width as nat),
        ),
{
    let gap_len = separator.count_chars();
    let mut total: usize = 0;
    let mut count: usize = 0;
    while count < tokens.len()
        invariant
            gap_len == separator.char_count(),
            count <= tokens@.len(),
            total == joined_chars(tokens@, separator, count as int),
        decreases tokens@.len() - count,
    {
        proof {
            lemma_joined_grows(tokens@, separator, count as int + 1, tokens@.len() as int);
        }
        let mut grown = total;
        if count > 0 {
            match grown.checked_add(gap_len) {
                Some(sum) => {
                    grown = sum;
                },
                None => {
                    return None;
                },
            }
        }
        match grown.checked_add(tokens[count].count_chars()) {
            Some(sum) => {
                total = sum;
            },
            None => {
                return None;
            },
        }
        count = count + 1;
    }
    Some(prefix(tokens, width, separator))
}

/// The texts of a sequence of strings.
pub open spec fn texts(tokens: Seq<&str>) -> Seq<Seq<char>> {
    tokens.map_values(|token: &str| token@)
}

/// The first `count` of a sequence of texts, joined by the separator.
pub open spec fn joined(tokens: Seq<Seq<char>>, separator: Seq<char>, count: int) -> Seq<char>
    decreases count,
{
    if count <= 0 {
        Seq::empty()
    } else if count == 1 {
        tokens[0]
    } else {
        joined(tokens, separator, count - 1) + separator + tokens[count - 1]
    }
}

/// For strings, the length that `prefix` gives is the length of the joined
/// text of the tokens that are taken.
pub proof fn lemma_joined_chars(tokens: Seq<&str>, separator: &str, count: int)
    requires
        count <= tokens.len(),
    ensures
        joined_chars(tokens, separator, count) == joined(texts(tokens), separator@, count).len(),
    decreases count,
{
    if count > 1 {
        lemma_joined_chars(tokens, separator, count - 1);
    }
}

/// The joined text of fewer tokens is a prefix of the joined text of more
/// tokens.
pub proof fn lemma_joined_is_prefix(
    tokens: Seq<Seq<char>>,
    separator: Seq<char>,
    fewer: int,
    more: int,
)
    requires
        fewer <= more,
    ensures
        joined(tokens, separator, fewer).is_prefix_of(joined(tokens, separator, more)),
    decreases more - fewer,
{
    if fewer < more {
        lemma_joined_is_prefix(tokens, separator, fewer, more - 1);
        if more > 1 {
            let shorter = joined(tokens, separator, more - 1);
            assert(shorter.is_prefix_of(shorter + separator + tokens[more - 1]));
        } else {
            assert(joined(tokens, separator, more - 1) =~= Seq::<char>::empty());
        }
    }
}

} // verus!
