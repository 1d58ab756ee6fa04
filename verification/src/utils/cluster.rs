//! Texts that are cut into clusters.
//!
//! The layout does not look at characters. It walks over a text cluster by
//! cluster and asks of each cluster how wide it is and whether it is a
//! separator. Whatever answers these questions can be laid out: a string,
//! where the answers come from the Unicode tables, or a table that holds
//! the answers themselves.

use vstd::prelude::*;

verus! {

/// One cluster of a text, as the layout reads it.
#[derive(Clone, Copy, Debug, PartialEq, Eq, Structural)]
pub struct Cluster {
    /// Position at which the cluster ends.
    pub end: usize,
    /// Columns that the cluster takes on the screen.
    pub width: usize,
    /// Whether the cluster is a separator.
    pub blank: bool,
}

/// A text that is cut into clusters, each with a width.
///
/// A position is a place between two clusters, in front of the first or
/// behind the last. The cluster that starts at a position ends at the next
/// position; the last one ends at the extent of the text.
pub trait Segmented {
    /// The position behind the last cluster.
    spec fn extent(&self) -> int;

    /// Whether a cluster can start at `pos`, or the text end there.
    spec fn is_position(&self, pos: int) -> bool;

    /// The position at which the cluster that starts at `pos` ends.
    spec fn after(&self, pos: int) -> int;

    /// The columns that the cluster starting at `pos` takes on the screen.
    spec fn width_at(&self, pos: int) -> nat;

    /// Whether the cluster that starts at `pos` is a separator.
    spec fn blank_at(&self, pos: int) -> bool;

    /// The number of characters of the text.
    spec fn char_count(&self) -> nat;

    /// The start and the end of the text are positions.
    proof fn lemma_ends(&self)
        ensures
            self.is_position(0),
            self.is_position(self.extent()),
    ;

    /// Positions lie inside the text, and a cluster that starts at a
    /// position before the end is not empty and ends at a position.
    proof fn lemma_after(&self, pos: int)
        requires
            self.is_position(pos),
        ensures
            0 <= pos <= self.extent(),
            pos < self.extent() ==> pos < self.after(pos) <= self.extent() && self.is_position(
                self.after(pos),
            ),
    ;

    /// The position behind the last cluster.
    fn reach(&self) -> (extent: usize)
        ensures
            extent == self.extent(),
    ;

    /// The number of characters of the text.
    fn count_chars(&self) -> (count: usize)
        ensures
            count == self.char_count(),
    ;

    /// Reads the cluster that starts at `pos`.
    fn read(&self, pos: usize) -> (cluster: Cluster)
        requires
            self.is_position(pos as int),
            pos < self.extent(),
        ensures
            cluster.end == self.after(pos as int),
            cluster.width == self.width_at(pos as int),
            cluster.blank == self.blank_at(pos as int),
    ;
}

} // verus!
