use pegast::rules::range::RangeValue;
use pegast::rules::Range;
use pegast::text::{append_decimal, single};
use pegast::ParseError;

#[derive(Clone, Copy, Debug, Eq, PartialEq)]
enum Lower {}

impl RangeValue for Lower {
    const START: char = 'a';
    const END: char = 'z';
}

#[test]
fn message_without_expectations_says_nothing() {
    let error = ParseError { expected: vec![], position: 0 };
    assert_eq!(error.to_string(), "Failed to parse input at 0\n  Expected: nothing\n");
}

#[test]
fn message_with_one_expectation_names_it() {
    let error = ParseError { expected: vec!["a digit".to_owned()], position: 7 };
    assert_eq!(error.to_string(), "Failed to parse input at 7\n  Expected: a digit\n");
}

#[test]
fn message_with_more_expectations_lists_them() {
    let error = ParseError {
        expected: vec!["a digit".to_owned(), "a letter".to_owned(), "or nothing".to_owned()],
        position: 1205,
    };
    assert_eq!(
        error.to_string(),
        "Failed to parse input at 1205\n  Expected: one of:\n    - a digit\n    - a letter\n    - or nothing\n"
    );
}

#[test]
fn decimal_numerals_have_no_leading_zeros() {
    for (number, numeral) in [(0, "0"), (9, "9"), (10, "10"), (100, "100"), (90817, "90817")] {
        let mut string = String::new();
        append_decimal(&mut string, number);
        assert_eq!(string, numeral);
    }
    let mut string = "at ".to_owned();
    append_decimal(&mut string, usize::MAX);
    assert_eq!(string, format!("at {}", usize::MAX));
}

#[test]
fn single_holds_one_character() {
    assert_eq!(single('q'), "q");
    assert_eq!(single('é'), "é");
}

#[test]
fn out_of_range_error_names_character_and_range() {
    let error = Range::<Lower>::try_from('Q').unwrap_err();
    assert_eq!(error.to_string(), "input character 'Q' is out of the range [a-z]");
}

#[test]
fn range_accepts_its_ends() {
    assert!(Range::<Lower>::try_from('a').is_ok());
    assert!(Range::<Lower>::try_from('z').is_ok());
    assert!(Range::<Lower>::try_from('m').is_ok());
    assert!(Range::<Lower>::try_from('`').is_err());
    assert!(Range::<Lower>::try_from('{').is_err());
}
