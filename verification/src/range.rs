//! The span of verses that a reference names.

use vstd::prelude::*;

verus! {

/// An inclusive span of verses within one book.
#[derive(Clone, Debug, PartialEq, Eq)]
pub struct Range {
    /// Short code of the book, as the store writes it.
    pub book: String,
    pub start_chapter: i32,
    pub end_chapter: i32,
    pub start_verse: i32,
    pub end_verse: i32,
}

/// What a [`Range`] stands for: the book's code as text and four integers.
pub struct RangeView {
    pub book: Seq<char>,
    pub start_chapter: int,
    pub end_chapter: int,
    pub start_verse: int,
    pub end_verse: int,
}

impl View for Range {
    type V = RangeView;

    open spec fn view(&self) -> RangeView {
        RangeView {
            book: self.book@,
            start_chapter: self.start_chapter as int,
            end_chapter: self.end_chapter as int,
            start_verse: self.start_verse as int,
            end_verse: self.end_verse as int,
        }
    }
}

impl RangeView {
    /// The end does not lie before the start: the end chapter is not
    /// smaller than the start chapter, and within one chapter the end verse
    /// is not smaller than the start verse.
    pub open spec fn ordered(self) -> bool {
        self.start_chapter < self.end_chapter || (self.start_chapter == self.end_chapter
            && self.start_verse <= self.end_verse)
    }

    /// The range names exactly one verse.
    pub open spec fn single_verse(self) -> bool {
        self.start_chapter == self.end_chapter && self.start_verse == self.end_verse
    }
}

} // verus!
