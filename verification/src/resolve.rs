//! Resolving a range against the rows of the verse store.
//!
//! The store is a sequence of rows and a row's position is its place in
//! that sequence. Resolution finds the first position whose row is of the
//! range's book with chapter and verse each at least the start's, and the
//! last position whose row is of the book with chapter and verse each at
//! most the end's, and gives every row from the one position to the other.

use vstd::prelude::*;
use vstd::slice::slice_subrange;
use crate::range::{Range, RangeView};
use crate::store::{canonical, verses, VerseRow, VerseView};

verus! {

/// Why a range could not be resolved.
#[derive(Clone, Copy, Debug, PartialEq, Eq, Structural)]
pub enum ResolveError {
    /// The end of the range lies before its start.
    InvalidRange,
}

impl ResolveError {
    /// The message that tells a reader of the failure.
    pub open spec fn message_text(self) -> Seq<char> {
        match self {
            ResolveError::InvalidRange => "Query range invalid: end precedes start"@,
        }
    }

    /// The message that tells a reader of the failure.
    pub fn message(&self) -> (text: &'static str)
        ensures
            text@ == self.message_text(),
    {
        match self {
            ResolveError::InvalidRange => "Query range invalid: end precedes start",
        }
    }
}

impl RangeView {
    /// `v` is a verse of the range's book whose chapter and verse are each
    /// at least those of the start.
    pub open spec fn meets_start(self, v: VerseView) -> bool {
        v.book == self.book && v.chapter >= self.start_chapter && v.verse >= self.start_verse
    }

    /// `v` is a verse of the range's book whose chapter and verse are each
    /// at most those of the end.
    pub open spec fn meets_end(self, v: VerseView) -> bool {
        v.book == self.book && v.chapter <= self.end_chapter && v.verse <= self.end_verse
    }

    /// `v` is a verse of the range's book that lies neither before the
    /// start of the range nor after its end.
    pub open spec fn holds(self, v: VerseView) -> bool {
        &&& v.book == self.book
        &&& self.start_chapter < v.chapter || (self.start_chapter == v.chapter
            && self.start_verse <= v.verse)
        &&& v.chapter < self.end_chapter || (v.chapter == self.end_chapter && v.verse
            <= self.end_verse)
    }
}

/// `i` is the lowest position of the store whose row meets the start of
/// the range.
pub open spec fn is_lower(store: Seq<VerseView>, range: RangeView, i: int) -> bool {
    &&& 0 <= i < store.len()
    &&& range.meets_start(store[i])
    &&& forall|j: int| 0 <= j < i ==> !range.meets_start(#[trigger] store[j])
}

/// `i` is the highest position of the store whose row meets the end of the
/// range.
pub open spec fn is_upper(store: Seq<VerseView>, range: RangeView, i: int) -> bool {
    &&& 0 <= i < store.len()
    &&& range.meets_end(store[i])
    &&& forall|j: int| i < j < store.len() ==> !range.meets_end(#[trigger] store[j])
}

/// The lowest position whose row meets the start of the range, if any row
/// does.
pub open spec fn lower(store: Seq<VerseView>, range: RangeView) -> Option<int> {
    if exists|i: int| is_lower(store, range, i) {
        Some(choose|i: int| is_lower(store, range, i))
    } else {
        None
    }
}

/// The highest position whose row meets the end of the range, if any row
/// does.
pub open spec fn upper(store: Seq<VerseView>, range: RangeView) -> Option<int> {
    if exists|i: int| is_upper(store, range, i) {
        Some(choose|i: int| is_upper(store, range, i))
    } else {
        None
    }
}

/// The stretch of positions that the range selects: from the lower position
/// to the upper one, given as the first position and the position after
/// the last; the empty stretch where a position is missing or the lower
/// lies above the upper.
pub open spec fn selected(store: Seq<VerseView>, range: RangeView) -> (int, int) {
    match (lower(store, range), upper(store, range)) {
        (Some(lo), Some(hi)) => if lo <= hi {
            (lo, hi + 1)
        } else {
            (0, 0)
        },
        _ => (0, 0),
    }
}

/// The rows that the range selects, in the order of the store.
pub open spec fn selection(store: Seq<VerseView>, range: RangeView) -> Seq<VerseView> {
    store.subrange(selected(store, range).0, selected(store, range).1)
}

impl Range {
    /// Checks that the end of the range does not lie before its start.
    ///
    /// Fails with `InvalidRange` where the end chapter is smaller than the
    /// start chapter, whatever the verses are, and where the chapters are
    /// equal and the end verse is smaller than the start verse.
    pub fn check(&self) -> (result: Result<(), ResolveError>)
        ensures
            result is Ok <==> self@.ordered(),
            result is Err <==> self.end_chapter < self.start_chapter || (self.end_chapter
                == self.start_chapter && self.end_verse < self.start_verse),
            result is Err ==> result == Err::<(), ResolveError>(ResolveError::InvalidRange),
    {
        if self.end_chapter < self.start_chapter {
            Err(ResolveError::InvalidRange)
        } else if self.end_chapter == self.start_chapter && self.end_verse < self.start_verse {
            Err(ResolveError::InvalidRange)
        } else {
            Ok(())
        }
    }
}

/// Finds the lowest position of the store whose row meets the start of the
/// range.
fn find_lower(range: &Range, store: &[VerseRow]) -> (result: Option<usize>)
    ensures
        match result {
            Some(i) => i < store.len() && lower(verses(store@), range@) == Some(i as int),
            None => lower(verses(store@), range@) is None,
        },
{
    proof {
        lemma_lower(verses(store@), range@);
    }
    let mut i: usize = 0;
    while i < store.len()
        invariant
            0 <= i <= store.len(),
            forall|j: int| 0 <= j < i ==> !range@.meets_start(#[trigger] verses(store@)[j]),
        decreases store.len() - i,
    {
        let row = &store[i];
        if row.book == range.book && row.chapter >= range.start_chapter && row.verse
            >= range.start_verse {
            assert(is_lower(verses(store@), range@, i as int));
            return Some(i);
        }
        i += 1;
    }
    None
}

/// Finds the highest position of the store whose row meets the end of the
/// range.
fn find_upper(range: &Range, store: &[VerseRow]) -> (result: Option<usize>)
    ensures
        match result {
            Some(i) => i < store.len() && upper(verses(store@), range@) == Some(i as int),
            None => upper(verses(store@), range@) is None,
        },
{
    proof {
        lemma_upper(verses(store@), range@);
    }
    let mut i: usize = store.len();
    while i > 0
        invariant
            0 <= i <= store.len(),
            forall|j: int|
                i <= j < store.len() ==> !range@.meets_end(#[trigger] verses(store@)[j]),
        decreases i,
    {
        i -= 1;
        let row = &store[i];
        if row.book == range.book && row.chapter <= range.end_chapter && row.verse
            <= range.end_verse {
            assert(is_upper(verses(store@), range@, i as int));
            return Some(i);
        }
    }
    None
}

/// Resolves the range against the store: gives the rows that the range
/// selects, in the order of the store.
///
/// Fails with `InvalidRange`, before it looks at the store, where the end
/// of the range lies before its start. A range that selects nothing gives
/// no rows, which is no failure.
pub fn resolve<'a>(range: &Range, store: &'a [VerseRow]) -> (result: Result<
    &'a [VerseRow],
    ResolveError,
>)
    ensures
        match result {
            Ok(rows) => {
                &&& range@.ordered()
                &&& rows@ == store@.subrange(
                    selected(verses(store@), range@).0,
                    selected(verses(store@), range@).1,
                )
                &&& verses(rows@) == selection(verses(store@), range@)
            },
            Err(e) => !range@.ordered() && e == ResolveError::InvalidRange,
        },
{
    match range.check() {
        Ok(()) => {},
        Err(e) => { return Err(e); },
    }
    let (lo, hi) = match find_lower(range, store) {
        Some(lo) => match find_upper(range, store) {
            Some(hi) => if lo <= hi {
                (lo, hi + 1)
            } else {
                (0, 0)
            },
            None => (0, 0),
        },
        None => (0, 0),
    };
    let rows = slice_subrange(store, lo, hi);
    assert(verses(rows@) =~= selection(verses(store@), range@));
    Ok(rows)
}

/// No row meets the start of the range exactly when the range has no lower
/// position, and a position that is the lowest is the lower position.
pub proof fn lemma_lower(store: Seq<VerseView>, range: RangeView)
    ensures
        lower(store, range) is None <==> forall|j: int|
            0 <= j < store.len() ==> !range.meets_start(#[trigger] store[j]),
        forall|i: int| is_lower(store, range, i) ==> lower(store, range) == Some(i),
{
    if exists|j: int| 0 <= j < store.len() && range.meets_start(#[trigger] store[j]) {
        let j = choose|j: int| 0 <= j < store.len() && range.meets_start(#[trigger] store[j]);
        lemma_first_from(store, range, j);
    }
}

/// Below a position whose row meets the start there is a lowest such
/// position.
proof fn lemma_first_from(store: Seq<VerseView>, range: RangeView, j: int)
    requires
        0 <= j < store.len(),
        range.meets_start(store[j]),
    ensures
        exists|i: int| is_lower(store, range, i),
    decreases j,
{
    if exists|k: int| 0 <= k < j && range.meets_start(#[trigger] store[k]) {
        let k = choose|k: int| 0 <= k < j && range.meets_start(#[trigger] store[k]);
        lemma_first_from(store, range, k);
    } else {
        assert(is_lower(store, range, j));
    }
}

/// No row meets the end of the range exactly when the range has no upper
/// position, and a position that is the highest is the upper position.
pub proof fn lemma_upper(store: Seq<VerseView>, range: RangeView)
    ensures
        upper(store, range) is None <==> forall|j: int|
            0 <= j < store.len() ==> !range.meets_end(#[trigger] store[j]),
        forall|i: int| is_upper(store, range, i) ==> upper(store, range) == Some(i),
{
    if exists|j: int| 0 <= j < store.len() && range.meets_end(#[trigger] store[j]) {
        let j = choose|j: int| 0 <= j < store.len() && range.meets_end(#[trigger] store[j]);
        lemma_last_from(store, range, j);
    }
}

/// Above a position whose row meets the end there is a highest such
/// position.
proof fn lemma_last_from(store: Seq<VerseView>, range: RangeView, j: int)
    requires
        0 <= j < store.len(),
        range.meets_end(store[j]),
    ensures
        exists|i: int| is_upper(store, range, i),
    decreases store.len() - j,
{
    if exists|k: int| j < k < store.len() && range.meets_end(#[trigger] store[k]) {
        let k = choose|k: int| j < k < store.len() && range.meets_end(#[trigger] store[k]);
        lemma_last_from(store, range, k);
    } else {
        assert(is_upper(store, range, j));
    }
}

/// In a store in canonical order every selected row is a verse of the
/// range's book that lies neither before the start of the range nor after
/// its end.
pub proof fn lemma_selection_within(store: Seq<VerseView>, range: RangeView)
    requires
        canonical(store),
    ensures
        forall|k: int|
            0 <= k < selection(store, range).len() ==> range.holds(
                #[trigger] selection(store, range)[k],
            ),
{
    assert forall|k: int| 0 <= k < selection(store, range).len() implies range.holds(
        #[trigger] selection(store, range)[k],
    ) by {
        let lo = lower(store, range)->0;
        let hi = upper(store, range)->0;
        assert(is_lower(store, range, lo));
        assert(is_upper(store, range, hi));
        let v = store[lo + k];
        assert(selection(store, range)[k] == v);
        assert(store[lo].book == store[hi].book);
        if lo < lo + k {
            assert(store[lo].before(v) && v.book == range.book) by {
                if lo + k < hi {
                    assert(store[lo + k].book == store[lo].book);
                }
            }
        }
        if lo + k < hi {
            assert(v.before(store[hi]) && v.book == range.book) by {
                if lo < lo + k {
                    assert(store[lo + k].book == store[lo].book);
                }
            }
        }
    }
}

/// In a store in canonical order the selected rows come in ascending
/// order: each comes before every one that is given after it.
pub proof fn lemma_selection_ascending(store: Seq<VerseView>, range: RangeView)
    requires
        canonical(store),
    ensures
        forall|i: int, j: int|
            0 <= i < j < selection(store, range).len() ==> (#[trigger] selection(
                store,
                range,
            )[i]).before(#[trigger] selection(store, range)[j]),
{
    lemma_selection_within(store, range);
    let from = selected(store, range).0;
    assert forall|i: int, j: int| 0 <= i < j < selection(store, range).len() implies (
    #[trigger] selection(store, range)[i]).before(#[trigger] selection(store, range)[j]) by {
        assert(store[from + i].book == store[from + j].book);
    }
}

/// In a store in canonical order a range that names one verse selects at
/// most one row.
pub proof fn lemma_single_verse(store: Seq<VerseView>, range: RangeView)
    requires
        canonical(store),
        range.single_verse(),
    ensures
        selection(store, range).len() <= 1,
{
    if selection(store, range).len() > 1 {
        let lo = lower(store, range)->0;
        let hi = upper(store, range)->0;
        assert(is_lower(store, range, lo));
        assert(is_upper(store, range, hi));
        assert(store[lo].book == store[hi].book);
        assert(store[lo].before(store[hi]));
    }
}

} // verus!
