//! The rows of a string as characters: the clusters of a string hold its
//! characters, and the rows hold the characters of its words.

use super::cluster::Segmented;
use super::lines_iterator::lines_from;
use super::measure::{
    lemma_reaches_order, lemma_reaches_position, lemma_run_end, lemma_run_end_any, reaches, Kind,
};
use super::rows::{lemma_rows_hold_all_words, words_between, words_of_rows};
use super::segment::{boundary_after, byte_len, cluster_piece, is_position, piece};
use vstd::prelude::*;
use vstd::utf8::*;

verus! {

/// The positions of the clusters between `from` and `to`, in order.
pub open spec fn clusters_between<S: Segmented>(s: &S, from: int, to: int) -> Seq<int>
    decreases to - from,
{
    let next = s.after(from);
    if from < next <= to {
        seq![from] + clusters_between(s, next, to)
    } else {
        Seq::empty()
    }
}

/// The characters of the clusters of `text` that start at the given
/// positions, one cluster after the other.
pub open spec fn text_at(text: Seq<char>, positions: Seq<int>) -> Seq<char>
    decreases positions.len(),
{
    if positions.len() == 0 {
        Seq::empty()
    } else {
        cluster_piece(text, positions[0]) + text_at(text, positions.drop_first())
    }
}

/// Between two positions of a string, its bytes are the encoding of the
/// characters that stand there.
pub proof fn lemma_piece_bytes(text: Seq<char>, from: int, to: int)
    requires
        is_position(text, from),
        is_position(text, to),
        from <= to,
    ensures
        valid_utf8(encode_utf8(text).subrange(from, to)),
        encode_utf8(piece(text, from, to)) == encode_utf8(text).subrange(from, to),
{
    let bytes = encode_utf8(text);
    encode_utf8_valid_utf8(text);
    valid_utf8_split(bytes, to);
    let head = bytes.subrange(0, to);
    if from < to {
        assert(head[from] == bytes[from]);
        is_char_boundary_iff_not_is_continuation_byte(bytes, from);
        is_char_boundary_iff_not_is_continuation_byte(head, from);
    } else {
        is_char_boundary_start_end_of_seq(head);
    }
    valid_utf8_split(head, from);
    assert(head.subrange(from, head.len() as int) =~= bytes.subrange(from, to));
    decode_utf8_encode_utf8(bytes.subrange(from, to));
}

/// The characters between two positions are those up to a position between
/// them, followed by those behind it.
pub proof fn lemma_piece_split(text: Seq<char>, from: int, mid: int, to: int)
    requires
        is_position(text, from),
        is_position(text, mid),
        is_position(text, to),
        from <= mid <= to,
    ensures
        piece(text, from, to) == piece(text, from, mid) + piece(text, mid, to),
{
    let bytes = encode_utf8(text);
    let part = bytes.subrange(from, to);
    encode_utf8_valid_utf8(text);
    lemma_piece_bytes(text, from, to);
    if mid < to {
        assert(part[mid - from] == bytes[mid]);
        is_char_boundary_iff_not_is_continuation_byte(bytes, mid);
        is_char_boundary_iff_not_is_continuation_byte(part, mid - from);
    } else {
        is_char_boundary_start_end_of_seq(part);
    }
    decode_utf8_split(part, mid - from);
    assert(part.subrange(0, mid - from) =~= bytes.subrange(from, mid));
    assert(part.subrange(mid - from, part.len() as int) =~= bytes.subrange(mid, to));
}

/// The clusters between two positions of a string, one of which is reached
/// from the other, hold the characters that stand between them, all and in
/// order.
pub proof fn lemma_clusters_hold_text(text: &str, from: int, to: int)
    requires
        is_position(text@, from),
        reaches(&text, from, to),
        to <= byte_len(text@),
    ensures
        text_at(text@, clusters_between(&text, from, to)) == piece(text@, from, to),
    decreases to - from,
{
    lemma_reaches_position(&text, from, to);
    if from == to {
        lemma_piece_bytes(text@, from, to);
        assert(encode_utf8(text@).subrange(from, to) =~= Seq::<u8>::empty());
        assert(piece(text@, from, to) =~= Seq::<char>::empty());
    } else {
        let next = boundary_after(text@, from);
        let rest = clusters_between(&text, next, to);
        lemma_reaches_order(&text, next, to);
        text.lemma_after(from);
        lemma_clusters_hold_text(text, next, to);
        lemma_piece_split(text@, from, next, to);
        assert((seq![from] + rest).drop_first() =~= rest);
    }
}

/// The clusters of a string hold the string.
pub proof fn lemma_clusters_hold_whole_text(text: &str)
    ensures
        reaches(&text, 0, byte_len(text@)),
        text_at(text@, clusters_between(&text, 0, byte_len(text@))) == text@,
{
    text.lemma_ends();
    lemma_run_end(&text, 0, Kind::Any);
    lemma_run_end_any(&text, 0);
    lemma_clusters_hold_text(text, 0, byte_len(text@));
    assert(encode_utf8(text@).subrange(0, byte_len(text@)) =~= encode_utf8(text@));
    encode_utf8_decode_utf8(text@);
}

/// The rows of a string hold the characters of its words: the words of all
/// rows behind a cursor, row after row, are the words of the string behind
/// the cursor, each character once and in its place.
pub proof fn lemma_rows_hold_all_characters(text: &str, budget: nat, cursor: int)
    requires
        is_position(text@, cursor),
    ensures
        text_at(text@, words_of_rows(&text, lines_from(&text, budget, cursor))) == text_at(
            text@,
            words_between(&text, cursor, byte_len(text@)),
        ),
{
    lemma_rows_hold_all_words(&text, budget, cursor);
}

} // verus!
