//! Texts given by their measures: a table with the width of each cluster
//! and with a mark on each separator.
//!
//! Such a text needs no Unicode tables. Its positions are the indices into
//! the table, so each cluster ends one position behind its start.

use super::cluster::{Cluster, Segmented};
use vstd::prelude::*;

verus! {

/// One cluster of a table.
#[derive(Clone, Copy, Debug, PartialEq, Eq, Structural)]
pub struct Cell {
    /// Columns that the cluster takes on the screen.
    pub width: usize,
    /// Whether the cluster is a separator.
    pub blank: bool,
}

/// A text given by the measures of its clusters.
#[derive(Debug)]
pub struct Table {
    /// The clusters of the text, in order.
    pub cells: Vec<Cell>,
    /// The number of characters of the text.
    pub chars: usize,
}

impl Segmented for Table {
    open spec fn extent(&self) -> int {
        self.cells@.len() as int
    }

    open spec fn is_position(&self, pos: int) -> bool {
        0 <= pos <= self.cells@.len()
    }

    open spec fn after(&self, pos: int) -> int {
        pos + 1
    }

    open spec fn width_at(&self, pos: int) -> nat {
        if 0 <= pos < self.cells@.len() {
            self.cells@[pos].width as nat
        } else {
            0
        }
    }

    open spec fn blank_at(&self, pos: int) -> bool {
        0 <= pos < self.cells@.len() && self.cells@[pos].blank
    }

    open spec fn char_count(&self) -> nat {
        self.chars as nat
    }

    proof fn lemma_ends(&self) {
    }

    proof fn lemma_after(&self, pos: int) {
    }

    fn reach(&self) -> (extent: usize) {
        self.cells.len()
    }

    fn count_chars(&self) -> (count: usize) {
        self.chars
    }

    fn read(&self, pos: usize) -> (cluster: Cluster) {
        let count = self.cells.len();
        let cell = self.cells[pos];
        Cluster { end: pos + 1, width: cell.width, blank: cell.blank }
    }
}

} // verus!
