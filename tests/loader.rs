use specsim::loader::{LineList, LoadError};
use specsim::number::is_real_field;
use specsim::text::{split_fields, trim_bounds};
use specsim::LineShape;

fn chars(s: &str) -> Vec<char> {
    s.chars().collect()
}

fn pairs(list: &LineList) -> Vec<(usize, String, String)> {
    list.records
        .iter()
        .map(|r| (r.line, r.frequency.clone(), r.intensity.clone()))
        .collect()
}

#[test]
fn comment_blank_and_malformed_lines() {
    let text = "# header\n\n1000.0 1.0\n1 2 3\n";
    let list = LineList::load(text).unwrap();
    assert_eq!(list.records.len(), 1);
    assert_eq!(pairs(&list), vec![(3, "1000.0".to_string(), "1.0".to_string())]);
    assert_eq!(list.skipped, vec![2, 4]);
}

#[test]
fn bad_number_fails_the_load() {
    let text = "# freq inten\nabc 1.0\n";
    assert_eq!(LineList::load(text).err(), Some(LoadError::BadNumber { line: 2 }));
}

#[test]
fn bad_intensity_fails_the_load() {
    let text = "1.0 2.0\n3.0 x\n";
    assert_eq!(LineList::load(text).err(), Some(LoadError::BadNumber { line: 2 }));
}

#[test]
fn first_bad_line_is_reported() {
    let text = "1 2\n1 2 3\nfoo 1\nbar 2\n";
    assert_eq!(LineList::load(text).err(), Some(LoadError::BadNumber { line: 3 }));
}

#[test]
fn malformed_line_with_bad_token_is_only_skipped() {
    let list = LineList::load("abc\n1 2\n").unwrap();
    assert_eq!(list.skipped, vec![1]);
    assert_eq!(pairs(&list), vec![(2, "1".to_string(), "2".to_string())]);
}

#[test]
fn records_keep_their_order() {
    let text = "3000 0.5\n1000 1.0\n2000 2.0";
    let list = LineList::load(text).unwrap();
    assert_eq!(
        pairs(&list),
        vec![
            (1, "3000".to_string(), "0.5".to_string()),
            (2, "1000".to_string(), "1.0".to_string()),
            (3, "2000".to_string(), "2.0".to_string()),
        ]
    );
    assert!(list.skipped.is_empty());
}

#[test]
fn empty_text_has_no_records() {
    let list = LineList::load("").unwrap();
    assert!(list.records.is_empty());
    assert!(list.skipped.is_empty());
}

#[test]
fn trailing_line_feed_adds_no_line() {
    let list = LineList::load("1 2\n").unwrap();
    assert!(list.skipped.is_empty());
    let list = LineList::load("1 2\n\n").unwrap();
    assert_eq!(list.skipped, vec![2]);
}

#[test]
fn carriage_returns_and_tabs() {
    let list = LineList::load("  1.5\t2.5  \r\n#x\r\n7 8\r\n").unwrap();
    assert_eq!(
        pairs(&list),
        vec![
            (1, "1.5".to_string(), "2.5".to_string()),
            (3, "7".to_string(), "8".to_string()),
        ]
    );
}

#[test]
fn indented_comment() {
    let list = LineList::load("   # a b\n\u{a0}#c\n1 2\n").unwrap();
    assert!(list.skipped.is_empty());
    assert_eq!(list.records.len(), 1);
    assert_eq!(list.records[0].line, 3);
}

#[test]
fn unicode_space_at_the_ends_is_trimmed() {
    let list = LineList::load("\u{3000}1 2\u{a0}\n").unwrap();
    assert_eq!(pairs(&list), vec![(1, "1".to_string(), "2".to_string())]);
}

#[test]
fn unicode_space_inside_is_no_separator() {
    assert_eq!(
        LineList::load("1\u{a0}2 3\n").err(),
        Some(LoadError::BadNumber { line: 1 })
    );
}

#[test]
fn real_fields_accepted() {
    for s in [
        "0", "1000.0", "-1", "+2.5", ".5", "5.", "1e5", "1E-5", "2.5e+10", "-.5e3", "inf",
        "-Infinity", "NaN", "+nan", "INF", "0001", "1.e3",
    ] {
        assert!(is_real_field(&chars(s)), "{s}");
    }
}

#[test]
fn real_fields_refused() {
    for s in [
        "", "abc", "+", "-", ".", "e5", "1e", "1e+", "1.2.3", "--1", "+-1", "1_0", "0x10", "in",
        "infin", "nana", ".e5", "1,5", "1 ",
    ] {
        assert!(!is_real_field(&chars(s)), "{s}");
    }
}

#[test]
fn real_fields_agree_with_the_float_parser() {
    for s in [
        "0", "1.5", "-2e3", "inf", "NaN", "infinity", "abc", "1e", ".", "+.5", "5.", "1.2.3",
    ] {
        assert_eq!(is_real_field(&chars(s)), s.parse::<f64>().is_ok(), "{s}");
    }
}

#[test]
fn trim_bounds_of_padded_line() {
    let line = chars(" \t ab c \u{2003}");
    assert_eq!(trim_bounds(&line), (3, 7));
    let blank = chars(" \r ");
    let (a, b) = trim_bounds(&blank);
    assert_eq!(a, b);
}

#[test]
fn split_fields_on_ascii_whitespace() {
    let line = chars("  12  3.5\tx\x0Cy  ");
    let n = line.len();
    let f = split_fields(&line, 0, n);
    assert_eq!(f, vec![chars("12"), chars("3.5"), chars("x"), chars("y")]);
    assert!(split_fields(&line, 0, 2).is_empty());
}

#[test]
fn line_shapes_differ() {
    assert_ne!(LineShape::Gaussian, LineShape::Lorentzian);
    assert_eq!(LineShape::Gaussian, LineShape::Gaussian.clone());
}
