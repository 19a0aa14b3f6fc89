//! The lines of text in which verses and books are shown.

use vstd::prelude::*;
use vstd::string::{StrSliceExecFns, StringExecFns};
use crate::decimal::{decimal, decimal_text};
use crate::range::Range;
use crate::resolve::{resolve, selection, ResolveError};
use crate::store::{books, verses, Book, BookView, VerseRow, VerseView};

verus! {

/// The width to which the chapter and verse of a line are filled up.
pub const LABEL_WIDTH: usize = 7;

/// `s` followed by as many spaces as it takes to reach `width` characters;
/// `s` itself where it is that long already.
pub open spec fn padded(s: Seq<char>, width: nat) -> Seq<char> {
    if s.len() >= width {
        s
    } else {
        s + Seq::new((width - s.len()) as nat, |i: int| ' ')
    }
}

impl VerseView {
    /// Chapter and verse with a colon between them.
    pub open spec fn label(self) -> Seq<char> {
        decimal(self.chapter) + seq![':'] + decimal(self.verse)
    }

    /// The line that shows the verse: its label filled up to
    /// [`LABEL_WIDTH`], a space, and the text.
    pub open spec fn line(self) -> Seq<char> {
        padded(self.label(), LABEL_WIDTH as nat) + seq![' '] + self.text
    }
}

impl BookView {
    /// The line that shows the book: its code, a tab, and its long name.
    pub open spec fn line(self) -> Seq<char> {
        self.code + seq!['\t'] + self.long_name
    }
}

/// What a sequence of strings stands for, string by string.
pub open spec fn texts(lines: Seq<String>) -> Seq<Seq<char>> {
    Seq::new(lines.len(), |i: int| lines[i]@)
}

impl VerseRow {
    /// The line that shows the verse.
    pub fn line(&self) -> (line: String)
        ensures
            line@ == self@.line(),
    {
        let mut line = decimal_text(self.chapter);
        line.push(':');
        line.append(decimal_text(self.verse).as_str());
        let ghost label = line@;
        let mut width: usize = line.as_str().unicode_len();
        while width < LABEL_WIDTH
            invariant
                width == line@.len(),
                width <= LABEL_WIDTH || width == label.len(),
                line@ == label + Seq::new((width - label.len()) as nat, |i: int| ' '),
            decreases LABEL_WIDTH - width,
        {
            line.push(' ');
            width += 1;
        }
        line.push(' ');
        line.append(self.text.as_str());
        assert(line@ =~= self@.line());
        line
    }
}

impl Book {
    /// The line that shows the book.
    pub fn line(&self) -> (line: String)
        ensures
            line@ == self@.line(),
    {
        let mut line = self.code.clone();
        line.push('\t');
        line.append(self.long_name.as_str());
        line
    }
}

/// The lines that show the verses that the range selects from the store,
/// in the order of the store.
///
/// Fails with `InvalidRange` where the end of the range lies before its
/// start.
pub fn verse_lines(range: &Range, store: &[VerseRow]) -> (result: Result<
    Vec<String>,
    ResolveError,
>)
    ensures
        match result {
            Ok(lines) => range@.ordered() && texts(lines@) == selection(
                verses(store@),
                range@,
            ).map_values(|v: VerseView| v.line()),
            Err(e) => !range@.ordered() && e == ResolveError::InvalidRange,
        },
{
    let rows = match resolve(range, store) {
        Ok(rows) => rows,
        Err(e) => { return Err(e); },
    };
    let mut lines: Vec<String> = Vec::new();
    let mut i: usize = 0;
    while i < rows.len()
        invariant
            0 <= i <= rows.len(),
            lines@.len() == i,
            forall|k: int| 0 <= k < i ==> (#[trigger] lines@[k])@ == rows@[k]@.line(),
        decreases rows.len() - i,
    {
        lines.push(rows[i].line());
        i += 1;
    }
    assert(texts(lines@) =~= verses(rows@).map_values(|v: VerseView| v.line()));
    Ok(lines)
}

/// The lines that show the books, one for each and in the same order.
pub fn book_lines(list: &[Book]) -> (lines: Vec<String>)
    ensures
        texts(lines@) == books(list@).map_values(|b: BookView| b.line()),
{
    let mut lines: Vec<String> = Vec::new();
    let mut i: usize = 0;
    while i < list.len()
        invariant
            0 <= i <= list.len(),
            lines@.len() == i,
            forall|k: int| 0 <= k < i ==> (#[trigger] lines@[k])@ == list@[k]@.line(),
        decreases list.len() - i,
    {
        lines.push(list[i].line());
        i += 1;
    }
    assert(texts(lines@) =~= books(list@).map_values(|b: BookView| b.line()));
    lines
}

} // verus!
