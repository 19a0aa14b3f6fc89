//! Lookup of Bible verses (Douay-Rheims) by reference.
//!
//! A reference such as `Gn 1:1-5` is read into a [`Range`], the range is
//! checked and resolved against the rows of a verse store, and the rows
//! found are laid out as lines of text.

pub mod classes;
pub mod decimal;
pub mod lines;
pub mod range;
pub mod reference;
pub mod resolve;
pub mod store;
pub mod text;

pub use lines::{book_lines, verse_lines};
pub use range::Range;
pub use reference::{join_words, parse_query, ParseError};
pub use resolve::{resolve, ResolveError};
pub use store::{Book, VerseRow};
