//! Extracting data from HTML tables.
//!
//! A [`Table`] is located in a document (the first one, by id, or by the
//! names in its header row), then read into header names and rows of cell
//! text. Each [`Row`] is a borrowed view into its table whose cells can be
//! read by header name or by position.
pub mod headers;
pub mod locate;
pub mod matching;
pub mod table;

pub use headers::Headers;
pub use table::{Iter, Row, Table};
