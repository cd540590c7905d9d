use skimmer::field::{
    matching_ranges, parse_field_number, parse_field_range, select, split_fields, Delimiter,
    FieldRange,
};
use skimmer::item::Candidate;
use skimmer::options::ConfigError;

#[test]
fn a_number_is_one_field() {
    assert_eq!(parse_field_range("2"), Ok(FieldRange::Single(2)));
    assert_eq!(parse_field_range("1"), Ok(FieldRange::Single(1)));
    assert_eq!(parse_field_range("0012"), Ok(FieldRange::Single(12)));
}

#[test]
fn ranges_of_fields() {
    assert_eq!(parse_field_range("2.."), Ok(FieldRange::From(2)));
    assert_eq!(parse_field_range("..3"), Ok(FieldRange::To(3)));
    assert_eq!(parse_field_range("1..3"), Ok(FieldRange::Between(1, 3)));
    assert_eq!(parse_field_range("4..4"), Ok(FieldRange::Between(4, 4)));
}

#[test]
fn what_is_no_entry() {
    for text in ["", "0", "a", "-1", "..", "3..1", "1...2", "1.2", "1.", ".1", "1..2..3", "0..2", "1..0", " 1", "1 ", "٣"] {
        assert_eq!(parse_field_range(text), Err(ConfigError::InvalidFieldSpec), "{:?}", text);
    }
}

#[test]
fn a_number_must_fit_the_machine() {
    assert_eq!(parse_field_number("18446744073709551615"), Some(usize::MAX));
    assert_eq!(parse_field_number("18446744073709551616"), None);
    assert_eq!(parse_field_number("99999999999999999999999999"), None);
    assert_eq!(parse_field_number("184467440737095516150"), None);
    assert_eq!(parse_field_number("0"), None);
    assert_eq!(parse_field_number("007"), Some(7));
}

#[test]
fn fields_between_whitespace() {
    assert_eq!(split_fields("foo 123", Delimiter::Whitespace), vec![(0, 3), (4, 7)]);
    assert_eq!(split_fields("  foo \t\n 123  ", Delimiter::Whitespace), vec![(2, 5), (9, 12)]);
    assert_eq!(split_fields("", Delimiter::Whitespace), vec![]);
    assert_eq!(split_fields("   ", Delimiter::Whitespace), vec![]);
    assert_eq!(split_fields("x", Delimiter::Whitespace), vec![(0, 1)]);
}

#[test]
fn fields_are_given_in_bytes() {
    assert_eq!(split_fields("héllo wörld", Delimiter::Whitespace), vec![(0, 6), (7, 13)]);
    assert_eq!(split_fields("日本語,abc", Delimiter::Ascii(b',')), vec![(0, 9), (10, 13)]);
}

#[test]
fn fields_between_a_character() {
    assert_eq!(split_fields("a,b,,c", Delimiter::Ascii(b',')), vec![(0, 1), (2, 3), (5, 6)]);
    assert_eq!(split_fields("a b,c", Delimiter::Ascii(b',')), vec![(0, 3), (4, 5)]);
    assert_eq!(split_fields("a,b", Delimiter::Ascii(200)), vec![(0, 3)]);
}

#[test]
fn what_an_entry_selects() {
    let fields = vec![(0, 1), (2, 3), (5, 6)];
    assert_eq!(select(&fields, FieldRange::Single(1)), Some((0, 1)));
    assert_eq!(select(&fields, FieldRange::Single(3)), Some((5, 6)));
    assert_eq!(select(&fields, FieldRange::Single(4)), None);
    assert_eq!(select(&fields, FieldRange::Single(0)), None);
    assert_eq!(select(&fields, FieldRange::From(2)), Some((2, 6)));
    assert_eq!(select(&fields, FieldRange::From(4)), None);
    assert_eq!(select(&fields, FieldRange::To(2)), Some((0, 3)));
    assert_eq!(select(&fields, FieldRange::To(9)), Some((0, 6)));
    assert_eq!(select(&fields, FieldRange::To(0)), None);
    assert_eq!(select(&fields, FieldRange::Between(2, 3)), Some((2, 6)));
    assert_eq!(select(&fields, FieldRange::Between(2, 9)), Some((2, 6)));
    assert_eq!(select(&fields, FieldRange::Between(4, 9)), None);
    assert_eq!(select(&fields, FieldRange::Between(3, 2)), None);
    assert_eq!(select(&vec![], FieldRange::To(1)), None);
}

#[test]
fn ranges_come_in_the_order_of_the_entries() {
    let restriction = vec![FieldRange::Single(3), FieldRange::Single(9), FieldRange::To(2)];
    let ranges = matching_ranges("aa bb cc", Delimiter::Whitespace, &restriction);
    assert_eq!(ranges, vec![(6, 8), (0, 5)]);
}

#[test]
fn a_candidate_with_fields() {
    let c = Candidate::with_fields("foo 123".to_string(), Delimiter::Whitespace, &vec![FieldRange::Single(2)]);
    assert_eq!(c.matching_ranges(), Some(&vec![(4, 7)]));
    let c = Candidate::with_fields("foo 123".to_string(), Delimiter::Whitespace, &vec![]);
    assert!(c.matching_ranges().is_none());
    let c = Candidate::with_fields("foo".to_string(), Delimiter::Whitespace, &vec![FieldRange::Single(2)]);
    assert_eq!(c.matching_ranges(), Some(&vec![]));
}
