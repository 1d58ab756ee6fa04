//! Tools for text layout: the line iterator and the prefix calculator.

pub mod cluster;
pub mod lines_iterator;
pub mod measure;
pub mod prefix_length;
pub mod rows;
pub mod segment;
pub mod table;
pub mod words;

pub use self::lines_iterator::{LinesIterator, Span};
pub use self::prefix_length::{checked_prefix, prefix, PrefixResult};
