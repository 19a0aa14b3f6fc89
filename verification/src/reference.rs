//! Written references such as `Gn 1:1-5`, and how a query is read as one.
//!
//! A reference is written as a book code, which is made of letters and
//! digits, a space and a chapter number,
//! then optionally a colon and a verse number, then optionally a dash and
//! a second verse number, which a chapter number and a colon may precede:
//!
//! ```text
//! BOOK CHAPTER [ ":" VERSE [ "-" [ CHAPTER ":" ] VERSE ] ]
//! ```

use vstd::prelude::*;
use vstd::string::StringExecFns;
use crate::classes::Class;
use crate::decimal::{number, parse_number};
use crate::range::{Range, RangeView};
use crate::text::{chars_of, text_of};

verus! {

/// Why a query could not be read.
#[derive(Clone, Copy, Debug, PartialEq, Eq, Structural)]
pub enum ParseError {
    /// The query is not written as a reference is.
    InvalidFormat,
    /// A chapter or verse of the reference is no number that can be held.
    NotANumber,
}

impl ParseError {
    /// The message that tells a reader of the failure.
    pub open spec fn message_text(self) -> Seq<char> {
        match self {
            ParseError::InvalidFormat => "Invalid query string"@,
            ParseError::NotANumber => "Query string holds a chapter or verse that is no number"@,
        }
    }

    /// The message that tells a reader of the failure.
    pub fn message(&self) -> (text: &'static str)
        ensures
            text@ == self.message_text(),
    {
        match self {
            ParseError::InvalidFormat => "Invalid query string",
            ParseError::NotANumber => "Query string holds a chapter or verse that is no number",
        }
    }
}

/// The parts of a written reference, each as it was written.
#[derive(Clone, Debug, PartialEq, Eq)]
pub struct Reference {
    pub book: String,
    pub start_chapter: String,
    pub start_verse: Option<String>,
    pub end_chapter: Option<String>,
    pub end_verse: Option<String>,
}

/// What a [`Reference`] stands for: its parts as texts.
pub struct ReferenceView {
    pub book: Seq<char>,
    pub start_chapter: Seq<char>,
    pub start_verse: Option<Seq<char>>,
    pub end_chapter: Option<Seq<char>>,
    pub end_verse: Option<Seq<char>>,
}

/// The text of an optional part.
pub open spec fn part_view(part: Option<String>) -> Option<Seq<char>> {
    match part {
        Some(s) => Some(s@),
        None => None,
    }
}

impl View for Reference {
    type V = ReferenceView;

    open spec fn view(&self) -> ReferenceView {
        ReferenceView {
            book: self.book@,
            start_chapter: self.start_chapter@,
            start_verse: part_view(self.start_verse),
            end_chapter: part_view(self.end_chapter),
            end_verse: part_view(self.end_verse),
        }
    }
}

impl ReferenceView {
    /// The book is a run of letters and digits and every other part that
    /// is present is a run of digits; an end verse comes only after a start
    /// verse, and an end chapter only with an end verse.
    pub open spec fn well_formed(self) -> bool {
        &&& Class::Alphanumeric.has_all(self.book)
        &&& Class::Digit.has_all(self.start_chapter)
        &&& self.start_verse matches Some(v) ==> Class::Digit.has_all(v)
        &&& self.end_verse matches Some(v) ==> self.start_verse is Some && Class::Digit.has_all(v)
        &&& self.end_chapter matches Some(c) ==> self.end_verse is Some && Class::Digit.has_all(c)
    }

    /// What follows the dash: the end verse, after the end chapter and a
    /// colon where there is one.
    pub open spec fn end_text(self) -> Seq<char> {
        match self.end_verse {
            None => Seq::empty(),
            Some(verse) => seq!['-'] + match self.end_chapter {
                None => Seq::empty(),
                Some(chapter) => chapter + seq![':'],
            } + verse,
        }
    }

    /// What follows the start chapter: a colon, the start verse and the
    /// end.
    pub open spec fn verse_text(self) -> Seq<char> {
        match self.start_verse {
            None => Seq::empty(),
            Some(verse) => seq![':'] + verse + self.end_text(),
        }
    }

    /// The reference written out.
    pub open spec fn text(self) -> Seq<char> {
        self.book + seq![' '] + self.start_chapter + self.verse_text()
    }

    /// The reference is well formed and `query` is how it is written.
    pub open spec fn spells(self, query: Seq<char>) -> bool {
        self.well_formed() && self.text() == query
    }

    /// The range that the reference names, where each number written in it
    /// can be held. Without a start verse the range runs from verse 1 to
    /// verse 200, which stands for the whole chapter; without an end verse
    /// it ends at the start verse; without an end chapter it ends in the
    /// start chapter.
    pub open spec fn range(self) -> Result<RangeView, ParseError> {
        let start_chapter = number(self.start_chapter);
        let end_chapter = match self.end_chapter {
            Some(c) => number(c),
            None => start_chapter,
        };
        let start_verse = match self.start_verse {
            Some(v) => number(v),
            None => Some(1int),
        };
        let end_verse = match self.end_verse {
            Some(v) => number(v),
            None => if self.start_verse is Some {
                start_verse
            } else {
                Some(200int)
            },
        };
        if start_chapter is Some && end_chapter is Some && start_verse is Some && end_verse
            is Some {
            Ok(
                RangeView {
                    book: self.book,
                    start_chapter: start_chapter->0,
                    end_chapter: end_chapter->0,
                    start_verse: start_verse->0,
                    end_verse: end_verse->0,
                },
            )
        } else {
            Err(ParseError::NotANumber)
        }
    }
}

/// The reference that `query` spells, if it spells one.
pub open spec fn spelled_by(query: Seq<char>) -> Option<ReferenceView> {
    if exists|r: ReferenceView| r.spells(query) {
        Some(choose|r: ReferenceView| r.spells(query))
    } else {
        None
    }
}

/// What reading `query` gives: the range of the reference that it spells,
/// `InvalidFormat` where it spells none, `NotANumber` where a number
/// written in it cannot be held.
pub open spec fn parse_result(query: Seq<char>) -> Result<RangeView, ParseError> {
    match spelled_by(query) {
        Some(r) => r.range(),
        None => Err(ParseError::InvalidFormat),
    }
}

/// Where the run of characters of `class` that starts at `from` ends.
pub open spec fn run_end(s: Seq<char>, from: int, class: Class) -> int
    decreases s.len() - from,
{
    if 0 <= from < s.len() && class.has(s[from]) {
        run_end(s, from + 1, class)
    } else {
        from
    }
}

/// The reference found by reading `q` from left to right, each part as far
/// as it runs.
pub open spec fn reading(q: Seq<char>) -> Option<ReferenceView> {
    let b = run_end(q, 0, Class::Alphanumeric);
    let c = run_end(q, b + 1, Class::Digit);
    let v = run_end(q, c + 1, Class::Digit);
    let x = run_end(q, v + 1, Class::Digit);
    let y = run_end(q, x + 1, Class::Digit);
    if b == 0 || b >= q.len() || q[b] != ' ' || c == b + 1 {
        None
    } else if c == q.len() {
        Some(
            ReferenceView {
                book: q.subrange(0, b),
                start_chapter: q.subrange(b + 1, c),
                start_verse: None,
                end_chapter: None,
                end_verse: None,
            },
        )
    } else if q[c] != ':' || v == c + 1 {
        None
    } else if v == q.len() {
        Some(
            ReferenceView {
                book: q.subrange(0, b),
                start_chapter: q.subrange(b + 1, c),
                start_verse: Some(q.subrange(c + 1, v)),
                end_chapter: None,
                end_verse: None,
            },
        )
    } else if q[v] != '-' || x == v + 1 {
        None
    } else if x == q.len() {
        Some(
            ReferenceView {
                book: q.subrange(0, b),
                start_chapter: q.subrange(b + 1, c),
                start_verse: Some(q.subrange(c + 1, v)),
                end_chapter: None,
                end_verse: Some(q.subrange(v + 1, x)),
            },
        )
    } else if q[x] != ':' || y == x + 1 || y != q.len() {
        None
    } else {
        Some(
            ReferenceView {
                book: q.subrange(0, b),
                start_chapter: q.subrange(b + 1, c),
                start_verse: Some(q.subrange(c + 1, v)),
                end_chapter: Some(q.subrange(v + 1, x)),
                end_verse: Some(q.subrange(x + 1, y)),
            },
        )
    }
}

/// The words joined into one text, with a single space between each two.
pub open spec fn joined(words: Seq<String>) -> Seq<char>
    decreases words.len(),
{
    if words.len() == 0 {
        Seq::empty()
    } else if words.len() == 1 {
        words[0]@
    } else {
        joined(words.drop_last()) + seq![' '] + words.last()@
    }
}

/// Joins the words of a query that was given word by word into one text,
/// with a single space between each two.
pub fn join_words(words: &[String]) -> (query: String)
    ensures
        query@ == joined(words@),
{
    let mut query = String::new();
    let mut i: usize = 0;
    while i < words.len()
        invariant
            0 <= i <= words.len(),
            query@ == joined(words@.take(i as int)),
        decreases words.len() - i,
    {
        if i > 0 {
            query.push(' ');
        }
        query.append(words[i].as_str());
        proof {
            let next = words@.take(i + 1);
            assert(next.drop_last() =~= words@.take(i as int));
            assert(next.last() == words@[i as int]);
        }
        i += 1;
    }
    assert(words@.take(i as int) =~= words@);
    query
}

/// Finds where the run of characters of `class` that starts at `from`
/// ends.
fn scan_run(chars: &Vec<char>, from: usize, class: Class) -> (end: usize)
    requires
        from <= chars.len(),
    ensures
        end == run_end(chars@, from as int, class),
        from <= end <= chars.len(),
{
    let mut i: usize = from;
    while i < chars.len() && class.contains(chars[i])
        invariant
            from <= i <= chars.len(),
            run_end(chars@, from as int, class) == run_end(chars@, i as int, class),
        decreases chars.len() - i,
    {
        i += 1;
    }
    i
}

/// Reads `query` as a written reference: `Some` with its parts where the
/// query spells a reference, `None` where it spells none.
pub fn read_reference(query: &str) -> (result: Option<Reference>)
    ensures
        match result {
            Some(r) => spelled_by(query@) == Some(r@),
            None => spelled_by(query@) is None,
        },
{
    proof {
        lemma_reading(query@);
    }
    let chars = chars_of(query);
    let n = chars.len();
    let b = scan_run(&chars, 0, Class::Alphanumeric);
    if b == 0 || b >= n || chars[b] != ' ' {
        return None;
    }
    let c = scan_run(&chars, b + 1, Class::Digit);
    if c == b + 1 {
        return None;
    }
    let book = text_of(&chars, 0, b);
    let start_chapter = text_of(&chars, b + 1, c);
    if c == n {
        return Some(
            Reference { book, start_chapter, start_verse: None, end_chapter: None, end_verse: None },
        );
    }
    if chars[c] != ':' {
        return None;
    }
    let v = scan_run(&chars, c + 1, Class::Digit);
    if v == c + 1 {
        return None;
    }
    let start_verse = Some(text_of(&chars, c + 1, v));
    if v == n {
        return Some(
            Reference { book, start_chapter, start_verse, end_chapter: None, end_verse: None },
        );
    }
    if chars[v] != '-' {
        return None;
    }
    let x = scan_run(&chars, v + 1, Class::Digit);
    if x == v + 1 {
        return None;
    }
    if x == n {
        let end_verse = Some(text_of(&chars, v + 1, x));
        return Some(Reference { book, start_chapter, start_verse, end_chapter: None, end_verse });
    }
    if chars[x] != ':' {
        return None;
    }
    let y = scan_run(&chars, x + 1, Class::Digit);
    if y == x + 1 || y != n {
        return None;
    }
    let end_chapter = Some(text_of(&chars, v + 1, x));
    let end_verse = Some(text_of(&chars, x + 1, y));
    Some(Reference { book, start_chapter, start_verse, end_chapter, end_verse })
}

impl Reference {
    /// The range that the reference names, or `NotANumber` where a number
    /// written in it is no numeral or too large to be held.
    pub fn range(&self) -> (result: Result<Range, ParseError>)
        ensures
            match result {
                Ok(range) => self@.range() == Ok::<RangeView, ParseError>(range@),
                Err(e) => self@.range() == Err::<RangeView, ParseError>(e),
            },
    {
        let start_chapter = match parse_number(self.start_chapter.as_str()) {
            Some(n) => n,
            None => { return Err(ParseError::NotANumber); },
        };
        let end_chapter = match &self.end_chapter {
            Some(c) => match parse_number(c.as_str()) {
                Some(n) => n,
                None => { return Err(ParseError::NotANumber); },
            },
            None => start_chapter,
        };
        let start_verse = match &self.start_verse {
            Some(v) => match parse_number(v.as_str()) {
                Some(n) => n,
                None => { return Err(ParseError::NotANumber); },
            },
            None => 1,
        };
        let end_verse = match &self.end_verse {
            Some(v) => match parse_number(v.as_str()) {
                Some(n) => n,
                None => { return Err(ParseError::NotANumber); },
            },
            None => if self.start_verse.is_some() {
                start_verse
            } else {
                200
            },
        };
        Ok(Range { book: self.book.clone(), start_chapter, end_chapter, start_verse, end_verse })
    }
}

/// Reads `query` as a reference and gives the range that it names.
///
/// Fails with `InvalidFormat` where the query is not written as a reference
/// is, and with `NotANumber` where it is but a chapter or verse in it is
/// too large to be held or is written in digits other than `0` to `9`.
pub fn parse_query(query: &str) -> (result: Result<Range, ParseError>)
    ensures
        match result {
            Ok(range) => parse_result(query@) == Ok::<RangeView, ParseError>(range@),
            Err(e) => parse_result(query@) == Err::<RangeView, ParseError>(e),
        },
{
    match read_reference(query) {
        Some(reference) => reference.range(),
        None => Err(ParseError::InvalidFormat),
    }
}

/// A run lies within the text, holds characters of its class alone, and
/// ends where the text ends or a character of another kind stands.
pub proof fn lemma_run_end(s: Seq<char>, from: int, class: Class)
    requires
        0 <= from <= s.len(),
    ensures
        from <= run_end(s, from, class) <= s.len(),
        forall|k: int| from <= k < run_end(s, from, class) ==> class.has(#[trigger] s[k]),
        run_end(s, from, class) < s.len() ==> !class.has(s[run_end(s, from, class)]),
    decreases s.len() - from,
{
    if from < s.len() && class.has(s[from]) {
        lemma_run_end(s, from + 1, class);
    }
}

/// A stretch of characters of one class, after which the text ends or a
/// character of another kind stands, is the run that starts where it does.
pub proof fn lemma_run_end_is(s: Seq<char>, from: int, to: int, class: Class)
    requires
        0 <= from <= to <= s.len(),
        forall|k: int| from <= k < to ==> class.has(#[trigger] s[k]),
        to < s.len() ==> !class.has(s[to]),
    ensures
        run_end(s, from, class) == to,
    decreases to - from,
{
    if from < to {
        lemma_run_end_is(s, from + 1, to, class);
    }
}

/// What reading from left to right finds is a well-formed reference that
/// is written as the text that was read.
proof fn lemma_reading_sound(q: Seq<char>)
    requires
        reading(q) is Some,
    ensures
        reading(q)->0.spells(q),
{
    let b = run_end(q, 0, Class::Alphanumeric);
    lemma_run_end(q, 0, Class::Alphanumeric);
    let c = run_end(q, b + 1, Class::Digit);
    lemma_run_end(q, b + 1, Class::Digit);
    let r = reading(q)->0;
    assert(r.book =~= q.subrange(0, b));
    assert(Class::Alphanumeric.has_all(r.book));
    assert(Class::Digit.has_all(r.start_chapter));
    if c == q.len() {
        assert(r.text() =~= q);
    } else {
        let v = run_end(q, c + 1, Class::Digit);
        lemma_run_end(q, c + 1, Class::Digit);
        assert(Class::Digit.has_all(r.start_verse->0));
        if v == q.len() {
            assert(r.text() =~= q);
        } else {
            let x = run_end(q, v + 1, Class::Digit);
            lemma_run_end(q, v + 1, Class::Digit);
            if x == q.len() {
                assert(Class::Digit.has_all(r.end_verse->0));
                assert(r.text() =~= q);
            } else {
                let y = run_end(q, x + 1, Class::Digit);
                lemma_run_end(q, x + 1, Class::Digit);
                assert(Class::Digit.has_all(r.end_chapter->0));
                assert(Class::Digit.has_all(r.end_verse->0));
                assert(r.text() =~= q);
            }
        }
    }
}

/// Reading a well-formed reference as it is written finds that reference.
proof fn lemma_reading_complete(r: ReferenceView)
    requires
        r.well_formed(),
    ensures
        reading(r.text()) == Some(r),
{
    let q = r.text();
    let b = r.book.len() as int;
    let c = b + 1 + r.start_chapter.len();
    assert(!Class::Alphanumeric.has(' '));
    assert(!Class::Digit.has(':'));
    assert(!Class::Digit.has('-'));
    assert(q[b] == ' ');
    assert forall|k: int| 0 <= k < b implies Class::Alphanumeric.has(#[trigger] q[k]) by {
        assert(q[k] == r.book[k]);
    }
    lemma_run_end_is(q, 0, b, Class::Alphanumeric);
    assert forall|k: int| b + 1 <= k < c implies Class::Digit.has(#[trigger] q[k]) by {
        assert(q[k] == r.start_chapter[k - b - 1]);
    }
    assert(q.subrange(0, b) =~= r.book);
    assert(q.subrange(b + 1, c) =~= r.start_chapter);
    match r.start_verse {
        None => {
            assert(q.len() == c);
            lemma_run_end_is(q, b + 1, c, Class::Digit);
        },
        Some(verse) => {
            let v = c + 1 + verse.len();
            assert(q[c] == ':');
            lemma_run_end_is(q, b + 1, c, Class::Digit);
            assert forall|k: int| c + 1 <= k < v implies Class::Digit.has(#[trigger] q[k]) by {
                assert(q[k] == verse[k - c - 1]);
            }
            assert(q.subrange(c + 1, v) =~= verse);
            match r.end_verse {
                None => {
                    assert(q.len() == v);
                    lemma_run_end_is(q, c + 1, v, Class::Digit);
                },
                Some(end_verse) => {
                    assert(q[v] == '-');
                    lemma_run_end_is(q, c + 1, v, Class::Digit);
                    match r.end_chapter {
                        None => {
                            let x = v + 1 + end_verse.len();
                            assert(q.len() == x);
                            assert forall|k: int| v + 1 <= k < x implies Class::Digit.has(
                                #[trigger] q[k],
                            ) by {
                                assert(q[k] == end_verse[k - v - 1]);
                            }
                            lemma_run_end_is(q, v + 1, x, Class::Digit);
                            assert(q.subrange(v + 1, x) =~= end_verse);
                        },
                        Some(end_chapter) => {
                            let x = v + 1 + end_chapter.len();
                            let y = x + 1 + end_verse.len();
                            assert(q.len() == y);
                            assert(q[x] == ':');
                            assert forall|k: int| v + 1 <= k < x implies Class::Digit.has(
                                #[trigger] q[k],
                            ) by {
                                assert(q[k] == end_chapter[k - v - 1]);
                            }
                            lemma_run_end_is(q, v + 1, x, Class::Digit);
                            assert forall|k: int| x + 1 <= k < y implies Class::Digit.has(
                                #[trigger] q[k],
                            ) by {
                                assert(q[k] == end_verse[k - x - 1]);
                            }
                            lemma_run_end_is(q, x + 1, y, Class::Digit);
                            assert(q.subrange(v + 1, x) =~= end_chapter);
                            assert(q.subrange(x + 1, y) =~= end_verse);
                        },
                    }
                },
            }
        },
    }
}

/// A query spells at most one reference, and reading from left to right
/// finds it if there is one.
pub proof fn lemma_reading(q: Seq<char>)
    ensures
        spelled_by(q) == reading(q),
{
    if reading(q) is Some {
        lemma_reading_sound(q);
    }
    if exists|r: ReferenceView| r.spells(q) {
        let r = choose|r: ReferenceView| r.spells(q);
        lemma_reading_complete(r);
    }
}

/// A well-formed reference is the one reference that its text spells.
pub proof fn lemma_spelled(r: ReferenceView)
    requires
        r.well_formed(),
    ensures
        spelled_by(r.text()) == Some(r),
{
    lemma_reading_complete(r);
    lemma_reading(r.text());
}

/// A numeral is a run of digits.
pub proof fn lemma_numeral_is_digits(s: Seq<char>)
    requires
        number(s) is Some,
    ensures
        Class::Digit.has_all(s),
{
}

/// A query of the form `BOOK CHAPTER` names the whole chapter: verses 1 to
/// 200 of that chapter.
pub proof fn lemma_chapter_query(book: Seq<char>, chapter: Seq<char>)
    requires
        Class::Alphanumeric.has_all(book),
        number(chapter) is Some,
    ensures
        parse_result(book + seq![' '] + chapter) == Ok::<RangeView, ParseError>(
            RangeView {
                book,
                start_chapter: number(chapter)->0,
                end_chapter: number(chapter)->0,
                start_verse: 1,
                end_verse: 200,
            },
        ),
{
    let r = ReferenceView {
        book,
        start_chapter: chapter,
        start_verse: None,
        end_chapter: None,
        end_verse: None,
    };
    lemma_numeral_is_digits(chapter);
    assert(r.text() =~= book + seq![' '] + chapter);
    lemma_spelled(r);
}

/// A query of the form `BOOK CHAPTER:VERSE` names that one verse.
pub proof fn lemma_verse_query(book: Seq<char>, chapter: Seq<char>, verse: Seq<char>)
    requires
        Class::Alphanumeric.has_all(book),
        number(chapter) is Some,
        number(verse) is Some,
    ensures
        parse_result(book + seq![' '] + chapter + seq![':'] + verse) == Ok::<
            RangeView,
            ParseError,
        >(
            RangeView {
                book,
                start_chapter: number(chapter)->0,
                end_chapter: number(chapter)->0,
                start_verse: number(verse)->0,
                end_verse: number(verse)->0,
            },
        ),
{
    let r = ReferenceView {
        book,
        start_chapter: chapter,
        start_verse: Some(verse),
        end_chapter: None,
        end_verse: None,
    };
    lemma_numeral_is_digits(chapter);
    lemma_numeral_is_digits(verse);
    assert(r.text() =~= book + seq![' '] + chapter + seq![':'] + verse);
    lemma_spelled(r);
}

/// A query of the form `BOOK CHAPTER:VERSE-VERSE` names the verses from the
/// first to the second, both of that chapter.
pub proof fn lemma_verses_query(
    book: Seq<char>,
    chapter: Seq<char>,
    first: Seq<char>,
    last: Seq<char>,
)
    requires
        Class::Alphanumeric.has_all(book),
        number(chapter) is Some,
        number(first) is Some,
        number(last) is Some,
    ensures
        parse_result(book + seq![' '] + chapter + seq![':'] + first + seq!['-'] + last) == Ok::<
            RangeView,
            ParseError,
        >(
            RangeView {
                book,
                start_chapter: number(chapter)->0,
                end_chapter: number(chapter)->0,
                start_verse: number(first)->0,
                end_verse: number(last)->0,
            },
        ),
{
    let r = ReferenceView {
        book,
        start_chapter: chapter,
        start_verse: Some(first),
        end_chapter: None,
        end_verse: Some(last),
    };
    lemma_numeral_is_digits(chapter);
    lemma_numeral_is_digits(first);
    lemma_numeral_is_digits(last);
    assert(r.text() =~= book + seq![' '] + chapter + seq![':'] + first + seq!['-'] + last);
    lemma_spelled(r);
}

/// A query of the form `BOOK CHAPTER:VERSE-CHAPTER:VERSE` names the span
/// from the first chapter and verse to the second, each number as written.
pub proof fn lemma_span_query(
    book: Seq<char>,
    start_chapter: Seq<char>,
    start_verse: Seq<char>,
    end_chapter: Seq<char>,
    end_verse: Seq<char>,
)
    requires
        Class::Alphanumeric.has_all(book),
        number(start_chapter) is Some,
        number(start_verse) is Some,
        number(end_chapter) is Some,
        number(end_verse) is Some,
    ensures
        parse_result(
            book + seq![' '] + start_chapter + seq![':'] + start_verse + seq!['-'] + end_chapter
                + seq![':'] + end_verse,
        ) == Ok::<RangeView, ParseError>(
            RangeView {
                book,
                start_chapter: number(start_chapter)->0,
                end_chapter: number(end_chapter)->0,
                start_verse: number(start_verse)->0,
                end_verse: number(end_verse)->0,
            },
        ),
{
    let r = ReferenceView {
        book,
        start_chapter,
        start_verse: Some(start_verse),
        end_chapter: Some(end_chapter),
        end_verse: Some(end_verse),
    };
    lemma_numeral_is_digits(start_chapter);
    lemma_numeral_is_digits(start_verse);
    lemma_numeral_is_digits(end_chapter);
    lemma_numeral_is_digits(end_verse);
    assert(r.text() =~= book + seq![' '] + start_chapter + seq![':'] + start_verse + seq!['-']
        + end_chapter + seq![':'] + end_verse);
    lemma_spelled(r);
}

} // verus!
