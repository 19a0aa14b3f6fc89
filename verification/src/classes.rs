//! The two classes of characters that a reference is written in.
//!
//! A book code is written in letters and digits, a chapter or verse number
//! in digits. Within ASCII the classes are decided here: the letters are
//! `A` to `Z` and `a` to `z`, the digits `0` to `9`. Beyond ASCII a letter
//! is a character of the Unicode category `L` and a digit one of the
//! category `Nd`, as the `regex` crate knows them, and the crate is asked.

use vstd::prelude::*;

verus! {

/// Whether `pattern` compiles as a regular expression of the `regex` crate
/// and the expression has a match somewhere in `text`.
pub uninterp spec fn regex_matches(pattern: Seq<char>, text: Seq<char>) -> bool;

/// Compiles `pattern` with `regex::Regex::new` and searches `text` with
/// `Regex::is_match`. Whether there is a match depends on the pattern and
/// the text alone; a pattern that does not compile matches nothing.
#[verifier::external_body]
fn regex_is_match(pattern: &str, text: &str) -> (found: bool)
    ensures
        found == regex_matches(pattern@, text@),
{
    match regex::Regex::new(pattern) {
        Ok(re) => re.is_match(text),
        Err(_) => false,
    }
}

/// A class of characters.
#[derive(Clone, Copy, Debug, PartialEq, Eq, Structural)]
pub enum Class {
    /// Letters and digits: the characters that a book code is written in.
    Alphanumeric,
    /// Digits: the characters that a chapter or verse number is written
    /// in.
    Digit,
}

/// `c` is one of the 128 ASCII characters.
pub open spec fn is_ascii(c: char) -> bool {
    (c as u32) < 128
}

/// `c` is one of `0` to `9`.
pub open spec fn is_ascii_digit(c: char) -> bool {
    '0' <= c <= '9'
}

/// `c` is an ASCII letter or an ASCII digit.
pub open spec fn is_ascii_alphanumeric(c: char) -> bool {
    is_ascii_digit(c) || 'A' <= c <= 'Z' || 'a' <= c <= 'z'
}

impl Class {
    /// The regular expression that matches a text of one character exactly
    /// when the character belongs to the class.
    pub open spec fn pattern(self) -> Seq<char> {
        match self {
            Class::Alphanumeric => "^[\\p{L}\\p{Nd}]$"@,
            Class::Digit => "^\\p{Nd}$"@,
        }
    }

    /// `c` belongs to the class.
    pub open spec fn has(self, c: char) -> bool {
        if is_ascii(c) {
            match self {
                Class::Alphanumeric => is_ascii_alphanumeric(c),
                Class::Digit => is_ascii_digit(c),
            }
        } else {
            regex_matches(self.pattern(), seq![c])
        }
    }

    /// `s` is a run of the class: it is not empty and each of its
    /// characters belongs to the class.
    pub open spec fn has_all(self, s: Seq<char>) -> bool {
        s.len() > 0 && forall|i: int| 0 <= i < s.len() ==> self.has(#[trigger] s[i])
    }

    /// Decides whether `c` belongs to the class.
    pub fn contains(self, c: char) -> (found: bool)
        ensures
            found == self.has(c),
    {
        if c <= '\x7f' {
            match self {
                Class::Alphanumeric => ('0' <= c && c <= '9') || ('A' <= c && c <= 'Z') || ('a'
                    <= c && c <= 'z'),
                Class::Digit => '0' <= c && c <= '9',
            }
        } else {
            let mut text = String::new();
            text.push(c);
            match self {
                Class::Alphanumeric => regex_is_match("^[\\p{L}\\p{Nd}]$", text.as_str()),
                Class::Digit => regex_is_match("^\\p{Nd}$", text.as_str()),
            }
        }
    }
}

} // verus!
