//! Verified extraction of tabular data from an HTML document.
//!
//! The document is represented as a flat arena of elements in document
//! order, each holding the plain values the algorithms read: tag name,
//! a few attributes, raw inner markup, and the index of its parent
//! element. The extraction pipeline walks that arena to classify table
//! rows into header, footer and data zones, to associate captions,
//! enclosing sections and preceding headings with each table, and to
//! normalize cell text.

pub mod classify;
pub mod dom;
pub mod extract;
pub mod text;
