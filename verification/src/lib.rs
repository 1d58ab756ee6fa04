//! Word wrapping for text shown in a terminal.
//!
//! A text is cut into grapheme clusters, each cluster is measured in
//! terminal columns, and the clusters are packed greedily into rows that
//! fit a column budget. Rows are spans of byte offsets into the text; the
//! text itself is never copied, and a row is only computed when it is asked
//! for.
//!
//! The layout itself is in [`utils`]. It works on anything that can be read
//! cluster by cluster: on a string, which is cut and measured by the
//! Unicode tables, and on a table of widths. The other modules hold what an
//! output backend on a terminal has to decide.

pub mod backend;
pub mod event;
pub mod theme;
pub mod utils;
