//! Strings as texts: their grapheme clusters, with display width and byte
//! offsets.
//!
//! A position in a string is a byte offset into its UTF-8 encoding that lies
//! between two characters. The clusters of a string form a chain of
//! positions: the cluster that starts at a position ends where the next one
//! starts, and the last one ends at the end of the string.

use super::cluster::{Cluster, Segmented};
use unicode_segmentation::GraphemeCursor;
use unicode_width::UnicodeWidthStr;
use vstd::prelude::*;
use vstd::string::StringSliceAdditionalSpecFns;
use vstd::string::StrSliceExecFns;
use vstd::utf8::*;

verus! {

/// What `GraphemeCursor::next_boundary` finds in `text` when the cursor
/// stands at byte offset `start`: the end of the extended grapheme cluster
/// that starts there.
pub uninterp spec fn cluster_end(text: Seq<char>, start: usize) -> Option<usize>;

/// The number of terminal columns that `UnicodeWidthStr::width` gives for
/// the string `s`.
pub uninterp spec fn display_width(s: Seq<char>) -> nat;

/// Whether `char::is_whitespace` holds of `c`.
pub uninterp spec fn white_space(c: char) -> bool;

/// Calls `GraphemeCursor::next_boundary` of unicode-segmentation on the whole
/// of `text`, with a fresh cursor for extended clusters placed at `start`.
/// The contract only gives the answer its name; an error of the cursor is
/// handed on as `None`. The cursor slices the text at `start`, so `start`
/// has to lie on a character boundary.
#[verifier::external_body]
fn next_boundary(text: &str, start: usize) -> (end: Option<usize>)
    requires
        is_char_boundary(text.spec_bytes(), start as int),
    ensures
        end == cluster_end(text@, start),
{
    match GraphemeCursor::new(start, text.len(), true).next_boundary(text, 0) {
        Ok(found) => found,
        Err(_) => None,
    }
}

/// Calls `UnicodeWidthStr::width` of unicode-width on `s`. The contract only
/// gives the answer its name.
#[verifier::external_body]
fn str_width(s: &str) -> (columns: usize)
    ensures
        columns == display_width(s@),
{
    UnicodeWidthStr::width(s)
}

/// `char::is_whitespace` of the standard library: whether Unicode counts the
/// character as white space. The contract only gives the answer its name.
pub assume_specification[ char::is_whitespace ](c: char) -> (white: bool)
    ensures
        white == white_space(c),
;

/// The length in bytes of the UTF-8 encoding of `text`.
pub open spec fn byte_len(text: Seq<char>) -> int {
    encode_utf8(text).len() as int
}

/// The characters that `text` holds between the byte offsets `from` and `to`.
pub open spec fn piece(text: Seq<char>, from: int, to: int) -> Seq<char> {
    decode_utf8(encode_utf8(text).subrange(from, to))
}

/// The length of `text` in bytes.
pub fn byte_length(text: &str) -> (len: usize)
    ensures
        len == byte_len(text@),
{
    broadcast use vstd::slice::group_slice_axioms;

    text.as_bytes().len()
}

/// The part of `text` between two character boundaries.
pub fn substr<'a>(text: &'a str, from: usize, to: usize) -> (part: &'a str)
    requires
        from <= to,
        is_char_boundary(text.spec_bytes(), from as int),
        is_char_boundary(text.spec_bytes(), to as int),
    ensures
        part@ == piece(text@, from as int, to as int),
        part.spec_bytes() == text.spec_bytes().subrange(from as int, to as int),
{
    broadcast use group_utf8_lib;

    let (front, _) = text.split_at(to);
    proof {
        let bytes = text.spec_bytes();
        let head = bytes.subrange(0, to as int);
        assert(valid_utf8(bytes));
        assert(valid_utf8(head));
        assert(to <= bytes.len());
        if from < to {
            assert(head[from as int] == bytes[from as int]);
            is_char_boundary_iff_not_is_continuation_byte(bytes, from as int);
            is_char_boundary_iff_not_is_continuation_byte(head, from as int);
        } else {
            is_char_boundary_start_end_of_seq(head);
        }
        assert(is_char_boundary(front.spec_bytes(), from as int));
    }
    let (_, part) = front.split_at(from);
    proof {
        let bytes = text.spec_bytes();
        assert(part.spec_bytes() =~= bytes.subrange(from as int, to as int));
        encode_utf8_decode_utf8(part@);
    }
    part
}

/// Whether every character of `s` is white space.
pub open spec fn all_white(s: Seq<char>) -> bool {
    forall|i: int| 0 <= i < s.len() ==> white_space(#[trigger] s[i])
}

/// The position at which the cluster that starts at `start` ends. Where the
/// cursor gives no answer, or one that is no character boundary of `text`
/// behind `start`, the cluster runs to the end of the text.
pub open spec fn boundary_after(text: Seq<char>, start: int) -> int {
    match cluster_end(text, start as usize) {
        Some(end) => if start < end <= byte_len(text) && is_char_boundary(
            encode_utf8(text),
            end as int,
        ) {
            end as int
        } else {
            byte_len(text)
        },
        None => byte_len(text),
    }
}

/// The characters of the cluster that starts at `start`.
pub open spec fn cluster_piece(text: Seq<char>, start: int) -> Seq<char> {
    piece(text, start, boundary_after(text, start))
}

/// The columns that the cluster starting at `start` takes on the screen.
pub open spec fn cluster_width(text: Seq<char>, start: int) -> nat {
    display_width(cluster_piece(text, start))
}

/// Whether the cluster that starts at `start` is a separator: a cluster made
/// of white space only.
pub open spec fn cluster_blank(text: Seq<char>, start: int) -> bool {
    all_white(cluster_piece(text, start))
}

/// Whether `pos` is a place at which a cluster of `text` can start.
pub open spec fn is_position(text: Seq<char>, pos: int) -> bool {
    0 <= pos <= byte_len(text) && is_char_boundary(encode_utf8(text), pos)
}

/// A cluster that starts before the end of the text is not empty and ends at
/// a position of the text.
pub proof fn lemma_boundary_after(text: Seq<char>, start: int)
    requires
        0 <= start < byte_len(text),
    ensures
        start < boundary_after(text, start) <= byte_len(text),
        is_position(text, boundary_after(text, start)),
{
    broadcast use group_utf8_lib;

    is_char_boundary_start_end_of_seq(encode_utf8(text));
}

/// Whether `s` is made of white space only.
pub fn is_blank(s: &str) -> (blank: bool)
    ensures
        blank == all_white(s@),
{
    let n = s.unicode_len();
    let mut i: usize = 0;
    while i < n
        invariant
            i <= n,
            n == s@.len(),
            forall|j: int| 0 <= j < i ==> white_space(#[trigger] s@[j]),
        decreases n - i,
    {
        if !s.get_char(i).is_whitespace() {
            return false;
        }
        i += 1;
    }
    true
}

/// Reads the cluster of `text` that starts at `start`.
pub fn read_cluster(text: &str, start: usize) -> (cluster: Cluster)
    requires
        start < byte_len(text@),
        is_position(text@, start as int),
    ensures
        cluster.end == boundary_after(text@, start as int),
        cluster.width == cluster_width(text@, start as int),
        cluster.blank == cluster_blank(text@, start as int),
        start < cluster.end <= byte_len(text@),
        is_position(text@, cluster.end as int),
{
    let len = byte_length(text);
    let end = match next_boundary(text, start) {
        Some(end) => if start < end && end <= len && text.is_char_boundary(end) {
            end
        } else {
            len
        },
        None => len,
    };
    proof {
        lemma_boundary_after(text@, start as int);
    }
    let part = substr(text, start, end);
    Cluster { end, width: str_width(part), blank: is_blank(part) }
}

impl<'a> Segmented for &'a str {
    open spec fn extent(&self) -> int {
        byte_len(self@)
    }

    open spec fn is_position(&self, pos: int) -> bool {
        is_position(self@, pos)
    }

    open spec fn after(&self, pos: int) -> int {
        boundary_after(self@, pos)
    }

    open spec fn width_at(&self, pos: int) -> nat {
        cluster_width(self@, pos)
    }

    open spec fn blank_at(&self, pos: int) -> bool {
        cluster_blank(self@, pos)
    }

    open spec fn char_count(&self) -> nat {
        self@.len()
    }

    proof fn lemma_ends(&self) {
        encode_utf8_valid_utf8(self@);
        is_char_boundary_start_end_of_seq(encode_utf8(self@));
    }

    proof fn lemma_after(&self, pos: int) {
        if pos < byte_len(self@) {
            lemma_boundary_after(self@, pos);
        }
    }

    fn reach(&self) -> (extent: usize) {
        byte_length(*self)
    }

    fn count_chars(&self) -> (count: usize) {
        self.unicode_len()
    }

    fn read(&self, pos: usize) -> (cluster: Cluster) {
        read_cluster(*self, pos)
    }
}

} // verus!
