//! The rows of the store: verses and books.

use vstd::prelude::*;

verus! {

/// One verse as the store holds it.
#[derive(Clone, Debug, PartialEq, Eq)]
pub struct VerseRow {
    /// Short code of the book that the verse belongs to.
    pub book: String,
    pub chapter: i32,
    pub verse: i32,
    pub text: String,
}

/// What a [`VerseRow`] stands for.
pub struct VerseView {
    pub book: Seq<char>,
    pub chapter: int,
    pub verse: int,
    pub text: Seq<char>,
}

impl View for VerseRow {
    type V = VerseView;

    open spec fn view(&self) -> VerseView {
        VerseView {
            book: self.book@,
            chapter: self.chapter as int,
            verse: self.verse as int,
            text: self.text@,
        }
    }
}

/// One book as the store holds it.
#[derive(Clone, Debug, PartialEq, Eq)]
pub struct Book {
    /// Short code by which references name the book.
    pub code: String,
    pub long_name: String,
}

/// What a [`Book`] stands for.
pub struct BookView {
    pub code: Seq<char>,
    pub long_name: Seq<char>,
}

impl View for Book {
    type V = BookView;

    open spec fn view(&self) -> BookView {
        BookView { code: self.code@, long_name: self.long_name@ }
    }
}

/// What a sequence of verse rows stands for, row by row.
pub open spec fn verses(rows: Seq<VerseRow>) -> Seq<VerseView> {
    Seq::new(rows.len(), |i: int| rows[i]@)
}

/// What a sequence of book rows stands for, row by row.
pub open spec fn books(rows: Seq<Book>) -> Seq<BookView> {
    Seq::new(rows.len(), |i: int| rows[i]@)
}

impl VerseView {
    /// The verse comes before `other` in its book: in an earlier chapter,
    /// or earlier in the same chapter.
    pub open spec fn before(self, other: VerseView) -> bool {
        self.chapter < other.chapter || (self.chapter == other.chapter && self.verse
            < other.verse)
    }
}

/// The rows stand in canonical order: the verses of a book stand together,
/// and each comes before those of its book that stand after it.
pub open spec fn canonical(store: Seq<VerseView>) -> bool {
    &&& forall|i: int, j: int|
        0 <= i < j < store.len() && #[trigger] store[i].book == #[trigger] store[j].book
            ==> store[i].before(store[j])
    &&& forall|i: int, k: int, j: int|
        0 <= i < k < j < store.len() && #[trigger] store[i].book == #[trigger] store[j].book
            ==> #[trigger] store[k].book == store[i].book
}

} // verus!
