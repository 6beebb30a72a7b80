use pegast::input::source::Characters;
use pegast::input::{ConsumingInput, Input};
use pegast::rules::literal::LiteralValue;
use pegast::rules::range::RangeValue;
use pegast::rules::sets::SetEntries;
use pegast::rules::{Any, DelimittedSetOf, Either, Literal, Not, OneOrMore, Range};
use pegast::{ParseError, PegAstNode};
use std::borrow::Cow;

#[derive(Clone, Copy, Debug, Eq, PartialEq)]
enum Ab {}

impl LiteralValue for Ab {
    const LITERAL: &'static str = "ab";
}

#[derive(Clone, Copy, Debug, Eq, PartialEq)]
enum A {}

impl LiteralValue for A {
    const LITERAL: &'static str = "a";
}

#[derive(Clone, Copy, Debug, Eq, PartialEq)]
enum X {}

impl LiteralValue for X {
    const LITERAL: &'static str = "X";
}

#[derive(Clone, Copy, Debug, Eq, PartialEq)]
enum Y {}

impl LiteralValue for Y {
    const LITERAL: &'static str = "Y";
}

#[derive(Clone, Copy, Debug, Eq, PartialEq)]
enum Comma {}

impl LiteralValue for Comma {
    const LITERAL: &'static str = ",";
}

#[derive(Clone, Copy, Debug, Eq, PartialEq)]
enum Digit {}

impl RangeValue for Digit {
    const START: char = '0';
    const END: char = '9';
}

/// Exactly one `X`, any number of `Y`.
#[derive(Clone, Debug, Eq, PartialEq)]
enum Clause {
    X(Literal<X>),
    Y(Literal<Y>),
}

impl PegAstNode for Clause {
    type Tree = ();

    fn parse<I: Input>(input: &mut I) -> Result<Self, ParseError> {
        match Either::<Literal<X>, Literal<Y>>::parse(input)? {
            Either::Left(node) => Ok(Clause::X(node)),
            Either::Right(node) => Ok(Clause::Y(node)),
        }
    }

    fn parsed_string(&self) -> Cow<'_, str> {
        match self {
            Clause::X(node) => node.parsed_string(),
            Clause::Y(node) => node.parsed_string(),
        }
    }

    fn expecting() -> Vec<String> {
        Either::<Literal<X>, Literal<Y>>::expecting()
    }
}

impl SetEntries for Clause {
    type EntryId = u8;

    fn all_entry_ids() -> &'static [u8] {
        &[0, 1]
    }

    fn entry_id(&self) -> u8 {
        match self {
            Clause::X(_) => 0,
            Clause::Y(_) => 1,
        }
    }

    fn min_repetitions(entry_id: u8) -> usize {
        if entry_id == 0 {
            1
        } else {
            0
        }
    }

    fn max_repetitions(entry_id: u8) -> Option<usize> {
        if entry_id == 0 {
            Some(1)
        } else {
            None
        }
    }
}

fn input_over(text: &str) -> ConsumingInput<Characters> {
    ConsumingInput::new(Characters::from_str(text))
}

#[test]
fn literal_matches_prefix_and_leaves_the_rest() {
    let mut input = input_over("abcd");
    let node = Literal::<Ab>::parse(&mut input).unwrap();
    assert_eq!(node.parsed_string(), "ab");
    assert_eq!(input.position(), 2);
}

#[test]
fn range_rejects_a_character_outside_it() {
    let mut input = input_over("x5");
    let error = Range::<Digit>::parse(&mut input).unwrap_err();
    assert_eq!(error.position, 0);
    assert_eq!(error.expected, vec!["a character between '0' and '9'".to_owned()]);
    assert_eq!(input.position(), 0);
}

#[test]
fn one_or_more_fails_on_empty_input() {
    let mut input = input_over("");
    let result = OneOrMore::<Any>::parse(&mut input);
    let error = result.unwrap_err();
    assert_eq!(error.position, 0);
    assert_eq!(error.expected, vec!["any character".to_owned()]);
}

#[test]
fn zero_or_more_collects_every_match() {
    let mut input = input_over("aaab");
    let nodes = Vec::<Literal<A>>::parse(&mut input).unwrap();
    assert_eq!(nodes.len(), 3);
    assert_eq!(input.position(), 3);
    assert_eq!(nodes.parsed_string(), "aaa");
    assert_eq!(input.peek(), Some('b'));
}

#[test]
fn delimited_set_accepts_entries_within_their_bounds() {
    let mut input = input_over("X,Y,Y");
    let set = DelimittedSetOf::<Clause, Literal<Comma>>::parse(&mut input).unwrap();
    let items = set.items();
    let xs = items.iter().filter(|item| matches!(item, Clause::X(_))).count();
    let ys = items.iter().filter(|item| matches!(item, Clause::Y(_))).count();
    assert_eq!(xs, 1);
    assert_eq!(ys, 2);
    assert_eq!(set.delimitters().len(), 2);
    assert_eq!(set.parsed_string(), "X,Y,Y");
    assert_eq!(input.position(), 5);
}

#[test]
fn delimited_set_fails_where_a_minimum_is_not_met() {
    let mut input = input_over("Y,Y");
    let error = DelimittedSetOf::<Clause, Literal<Comma>>::parse(&mut input).unwrap_err();
    assert_eq!(error.position, 3);
    assert_eq!(error.expected, vec!["X".to_owned(), "Y".to_owned()]);
    assert_eq!(input.position(), 0);
}

#[test]
fn delimited_set_reports_the_place_behind_a_trailing_delimiter() {
    let mut input = input_over("Y,Y,");
    let error = DelimittedSetOf::<Clause, Literal<Comma>>::parse(&mut input).unwrap_err();
    assert_eq!(error.position, 4);
    assert_eq!(input.position(), 0);
}

#[test]
fn not_succeeds_where_the_rule_fails_and_consumes_nothing() {
    let mut input = input_over("b");
    let node = Not::<Literal<A>>::parse(&mut input).unwrap();
    assert_eq!(node.parsed_string(), "");
    assert_eq!(input.position(), 0);
    assert_eq!(input.peek(), Some('b'));
}
