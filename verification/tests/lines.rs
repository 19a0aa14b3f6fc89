use dra_cli::lines::{book_lines, LABEL_WIDTH};
use dra_cli::store::{Book, VerseRow};

fn row(chapter: i32, verse: i32, text: &str) -> VerseRow {
    VerseRow { book: "Gn".to_string(), chapter, verse, text: text.to_string() }
}

fn book(code: &str, long_name: &str) -> Book {
    Book { code: code.to_string(), long_name: long_name.to_string() }
}

#[test]
fn label_is_filled_up_to_seven_characters() {
    assert_eq!(LABEL_WIDTH, 7);
    assert_eq!(row(1, 1, "In the beginning...").line(), "1:1     In the beginning...");
    assert_eq!(row(12, 3, "t").line(), "12:3    t");
    assert_eq!(row(119, 17, "t").line(), "119:17  t");
    assert_eq!(row(150, 6, "").line(), "150:6   ");
}

#[test]
fn label_of_seven_characters_or_more_is_not_filled_up() {
    assert_eq!(row(119, 176, "t").line(), "119:176 t");
    assert_eq!(row(1000, 1000, "t").line(), "1000:1000 t");
    assert_eq!(
        row(i32::MAX, i32::MIN, "t").line(),
        "2147483647:-2147483648 t"
    );
}

#[test]
fn line_agrees_with_the_formatter_of_std() {
    for (chapter, verse) in [(0, 0), (1, 1), (9, 10), (10, 9), (99, 999), (-1, 5), (-12, -345)] {
        let text = "Et factum est \u{2014} vespere";
        assert_eq!(
            row(chapter, verse, text).line(),
            format!("{:7} {}", format!("{}:{}", chapter, verse), text)
        );
    }
}

#[test]
fn book_line_is_code_tab_long_name() {
    assert_eq!(book("Gn", "Genesis").line(), "Gn\tGenesis");
    assert_eq!(book("1Kgs", "1 Kings").line(), "1Kgs\t1 Kings");
    assert_eq!(book("", "").line(), "\t");
}

#[test]
fn every_book_is_listed_in_the_order_of_the_store() {
    let list = vec![book("Gn", "Genesis"), book("Ex", "Exodus"), book("Ap", "Apocalypse")];
    assert_eq!(
        book_lines(&list),
        vec!["Gn\tGenesis".to_string(), "Ex\tExodus".to_string(), "Ap\tApocalypse".to_string()]
    );
    assert_eq!(book_lines(&[]), Vec::<String>::new());
}
