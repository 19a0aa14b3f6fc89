use dra_cli::range::Range;
use dra_cli::reference::{join_words, parse_query, read_reference, ParseError, Reference};

fn range(book: &str, sc: i32, sv: i32, ec: i32, ev: i32) -> Range {
    Range {
        book: book.to_string(),
        start_chapter: sc,
        end_chapter: ec,
        start_verse: sv,
        end_verse: ev,
    }
}

#[test]
fn chapter_alone_names_the_whole_chapter() {
    assert_eq!(parse_query("Gn 1"), Ok(range("Gn", 1, 1, 1, 200)));
    assert_eq!(parse_query("Ps 118"), Ok(range("Ps", 118, 1, 118, 200)));
}

#[test]
fn chapter_and_verse_name_one_verse() {
    assert_eq!(parse_query("Gn 1:1"), Ok(range("Gn", 1, 1, 1, 1)));
    assert_eq!(parse_query("Jn 3:16"), Ok(range("Jn", 3, 16, 3, 16)));
}

#[test]
fn two_verses_name_a_span_within_the_chapter() {
    assert_eq!(parse_query("Gn 1:1-3"), Ok(range("Gn", 1, 1, 1, 3)));
    assert_eq!(parse_query("Mt 5:3-12"), Ok(range("Mt", 5, 3, 5, 12)));
}

#[test]
fn second_chapter_names_a_span_across_chapters() {
    assert_eq!(parse_query("Gn 1:5-2:3"), Ok(range("Gn", 1, 5, 2, 3)));
    assert_eq!(parse_query("Ex 19:1-20:21"), Ok(range("Ex", 19, 1, 20, 21)));
}

#[test]
fn parsing_does_not_check_the_order_of_the_range() {
    assert_eq!(parse_query("Gn 3:9-2"), Ok(range("Gn", 3, 9, 3, 2)));
    assert_eq!(parse_query("Gn 3:9-1:10"), Ok(range("Gn", 3, 9, 1, 10)));
}

#[test]
fn book_may_hold_letters_and_digits() {
    assert_eq!(parse_query("1Kgs 2:3"), Ok(range("1Kgs", 2, 3, 2, 3)));
    assert_eq!(parse_query("1 2:3"), Ok(range("1", 2, 3, 2, 3)));
    assert_eq!(parse_query("AZaz09 4"), Ok(range("AZaz09", 4, 1, 4, 200)));
}

#[test]
fn book_may_hold_nothing_but_letters_and_digits() {
    assert_eq!(parse_query("a_b 4"), Err(ParseError::InvalidFormat));
    assert_eq!(parse_query("_ 4"), Err(ParseError::InvalidFormat));
    assert_eq!(parse_query("Gn_ 4:1"), Err(ParseError::InvalidFormat));
    assert_eq!(parse_query("G.n 4"), Err(ParseError::InvalidFormat));
    // COMBINING ACUTE ACCENT, UNDERTIE, ZERO WIDTH JOINER, ROMAN NUMERAL ONE
    assert_eq!(parse_query("Ge\u{301}n 4"), Err(ParseError::InvalidFormat));
    assert_eq!(parse_query("G\u{203f}n 4"), Err(ParseError::InvalidFormat));
    assert_eq!(parse_query("G\u{200d}n 4"), Err(ParseError::InvalidFormat));
    assert_eq!(parse_query("\u{2160} 4"), Err(ParseError::InvalidFormat));
}

#[test]
fn leading_zeros_do_not_count() {
    assert_eq!(parse_query("Gn 001:0002"), Ok(range("Gn", 1, 2, 1, 2)));
    assert_eq!(parse_query("Gn 0"), Ok(range("Gn", 0, 1, 0, 200)));
    assert_eq!(
        parse_query("Gn 000000000000000000000000000007"),
        Ok(range("Gn", 7, 1, 7, 200))
    );
}

#[test]
fn largest_number_that_can_be_held() {
    assert_eq!(
        parse_query("Gn 2147483647:2147483647"),
        Ok(range("Gn", 2147483647, 2147483647, 2147483647, 2147483647))
    );
}

#[test]
fn number_too_large_is_not_a_number() {
    assert_eq!(parse_query("Gn 2147483648"), Err(ParseError::NotANumber));
    assert_eq!(parse_query("Gn 1:2147483648"), Err(ParseError::NotANumber));
    assert_eq!(parse_query("Gn 1:1-2147483648"), Err(ParseError::NotANumber));
    assert_eq!(parse_query("Gn 1:1-2147483648:1"), Err(ParseError::NotANumber));
    assert_eq!(
        parse_query("Gn 99999999999999999999999999999999"),
        Err(ParseError::NotANumber)
    );
}

#[test]
fn book_alone_is_no_reference() {
    assert_eq!(parse_query("Gn"), Err(ParseError::InvalidFormat));
    assert_eq!(parse_query("Gn "), Err(ParseError::InvalidFormat));
}

#[test]
fn malformed_queries_are_refused() {
    for query in [
        "",
        " ",
        " Gn 1",
        "Gn 1 ",
        "Gn  1",
        "Gn\t1",
        "Gn 1\n",
        "Gn one",
        "Gn 1:",
        "Gn 1:x",
        "Gn 1:1-",
        "Gn 1:1-x",
        "Gn 1:1-2:",
        "Gn 1:1-2:x",
        "Gn 1:1-2:3:4",
        "Gn 1:1-2-3",
        "Gn 1-2",
        "Gn 1 2",
        "Gn 1 :2",
        "Gn 1: 2",
        "Gn -1",
        "Gn +1",
        "Gn 1.5",
        "Gn:1",
        "G-n 1",
        "1:1",
        ":1",
    ] {
        assert_eq!(parse_query(query), Err(ParseError::InvalidFormat), "{:?}", query);
    }
}

#[test]
fn malformed_query_with_a_large_number_is_malformed() {
    assert_eq!(parse_query("Gn 2147483648:x"), Err(ParseError::InvalidFormat));
    assert_eq!(parse_query("Gn 2147483648 "), Err(ParseError::InvalidFormat));
}

#[test]
fn letters_beyond_ascii_are_letters() {
    // G, LATIN SMALL LETTER E WITH ACUTE, n
    assert_eq!(parse_query("G\u{e9}n 1:2"), Ok(range("G\u{e9}n", 1, 2, 1, 2)));
    // GREEK CAPITAL GAMMA, SMALL EPSILON WITH TONOS, SMALL NU
    assert_eq!(
        parse_query("\u{393}\u{3ad}\u{3bd} 3"),
        Ok(range("\u{393}\u{3ad}\u{3bd}", 3, 1, 3, 200))
    );
    // three ideographs
    assert_eq!(
        parse_query("\u{5275}\u{4e16}\u{8a18} 1:1"),
        Ok(range("\u{5275}\u{4e16}\u{8a18}", 1, 1, 1, 1))
    );
}

#[test]
fn signs_beyond_ascii_are_no_letters() {
    assert_eq!(parse_query("G\u{2014}n 1"), Err(ParseError::InvalidFormat));
    assert_eq!(parse_query("Gn\u{a0}1"), Err(ParseError::InvalidFormat));
    assert_eq!(parse_query("\u{2020} 1"), Err(ParseError::InvalidFormat));
}

#[test]
fn digits_beyond_ascii_are_read_as_digits_but_are_no_number() {
    // ARABIC-INDIC DIGIT ONE, FULLWIDTH DIGIT TWO
    assert_eq!(parse_query("Gn \u{661}"), Err(ParseError::NotANumber));
    assert_eq!(parse_query("Gn 1:\u{ff12}"), Err(ParseError::NotANumber));
    assert_eq!(parse_query("Gn 1\u{661}:2"), Err(ParseError::NotANumber));
    // a digit beyond ASCII may stand in a book code too
    assert_eq!(parse_query("\u{661} 1"), Ok(range("\u{661}", 1, 1, 1, 200)));
}

#[test]
fn numbers_beyond_ascii_that_are_no_decimal_digits_are_refused() {
    // ROMAN NUMERAL ONE, SUPERSCRIPT TWO, VULGAR FRACTION ONE HALF
    assert_eq!(parse_query("Gn \u{2160}"), Err(ParseError::InvalidFormat));
    assert_eq!(parse_query("Gn \u{b2}"), Err(ParseError::InvalidFormat));
    assert_eq!(parse_query("Gn 1:\u{bd}"), Err(ParseError::InvalidFormat));
    // a letter is no digit
    assert_eq!(parse_query("Gn \u{e9}"), Err(ParseError::InvalidFormat));
}

fn parts(
    book: &str,
    start_chapter: &str,
    start_verse: Option<&str>,
    end_chapter: Option<&str>,
    end_verse: Option<&str>,
) -> Reference {
    Reference {
        book: book.to_string(),
        start_chapter: start_chapter.to_string(),
        start_verse: start_verse.map(|s| s.to_string()),
        end_chapter: end_chapter.map(|s| s.to_string()),
        end_verse: end_verse.map(|s| s.to_string()),
    }
}

#[test]
fn reference_is_read_part_by_part() {
    assert_eq!(read_reference("Gn 1"), Some(parts("Gn", "1", None, None, None)));
    assert_eq!(read_reference("Gn 1:2"), Some(parts("Gn", "1", Some("2"), None, None)));
    assert_eq!(
        read_reference("Gn 1:2-3"),
        Some(parts("Gn", "1", Some("2"), None, Some("3")))
    );
    assert_eq!(
        read_reference("Gn 1:2-3:4"),
        Some(parts("Gn", "1", Some("2"), Some("3"), Some("4")))
    );
    assert_eq!(
        read_reference("Gn 010:020-030:040"),
        Some(parts("Gn", "010", Some("020"), Some("030"), Some("040")))
    );
    assert_eq!(
        read_reference("Gn 99999999999"),
        Some(parts("Gn", "99999999999", None, None, None))
    );
    assert_eq!(read_reference("Gn"), None);
    assert_eq!(read_reference("Gn 1:2-3:"), None);
}

#[test]
fn range_of_a_reference_fills_in_what_is_missing() {
    assert_eq!(parts("Gn", "4", None, None, None).range(), Ok(range("Gn", 4, 1, 4, 200)));
    assert_eq!(parts("Gn", "4", Some("5"), None, None).range(), Ok(range("Gn", 4, 5, 4, 5)));
    assert_eq!(
        parts("Gn", "4", Some("5"), None, Some("6")).range(),
        Ok(range("Gn", 4, 5, 4, 6))
    );
    assert_eq!(
        parts("Gn", "4", Some("5"), Some("6"), Some("7")).range(),
        Ok(range("Gn", 4, 5, 6, 7))
    );
    // parts that no query spells are filled in by the same rules
    assert_eq!(parts("Gn", "4", None, None, Some("9")).range(), Ok(range("Gn", 4, 1, 4, 9)));
    assert_eq!(parts("Gn", "4", None, Some("6"), None).range(), Ok(range("Gn", 4, 1, 6, 200)));
}

#[test]
fn range_of_a_reference_wants_numerals() {
    assert_eq!(parts("Gn", "", None, None, None).range(), Err(ParseError::NotANumber));
    assert_eq!(parts("Gn", "x", None, None, None).range(), Err(ParseError::NotANumber));
    assert_eq!(parts("Gn", "+1", None, None, None).range(), Err(ParseError::NotANumber));
    assert_eq!(parts("Gn", "-1", None, None, None).range(), Err(ParseError::NotANumber));
    assert_eq!(parts("Gn", " 1", None, None, None).range(), Err(ParseError::NotANumber));
    assert_eq!(parts("Gn", "1", Some("x"), None, None).range(), Err(ParseError::NotANumber));
    assert_eq!(
        parts("Gn", "1", Some("1"), Some("x"), Some("1")).range(),
        Err(ParseError::NotANumber)
    );
    assert_eq!(
        parts("Gn", "1", Some("1"), None, Some("2147483648")).range(),
        Err(ParseError::NotANumber)
    );
}

fn words(list: &[&str]) -> Vec<String> {
    list.iter().map(|w| w.to_string()).collect()
}

#[test]
fn words_are_joined_by_single_spaces() {
    assert_eq!(join_words(&words(&[])), "");
    assert_eq!(join_words(&words(&["Gn"])), "Gn");
    assert_eq!(join_words(&words(&["Gn", "1:1-5"])), "Gn 1:1-5");
    assert_eq!(join_words(&words(&["Gn", "1", ":", "2"])), "Gn 1 : 2");
    assert_eq!(join_words(&words(&["", "Gn", ""])), " Gn ");
    assert_eq!(join_words(&words(&["Gn 1:1"])), "Gn 1:1");
}

#[test]
fn query_given_word_by_word_is_read_as_one_text() {
    let query = join_words(&words(&["Gn", "1:1-5"]));
    assert_eq!(parse_query(&query), Ok(range("Gn", 1, 1, 1, 5)));
    let query = join_words(&words(&["Gn", "1", "2"]));
    assert_eq!(parse_query(&query), Err(ParseError::InvalidFormat));
}

#[test]
fn parse_errors_have_messages() {
    assert_eq!(ParseError::InvalidFormat.message(), "Invalid query string");
    assert_eq!(
        ParseError::NotANumber.message(),
        "Query string holds a chapter or verse that is no number"
    );
}
