use pegast::input::source::Characters;
use pegast::input::{ConsumingInput, Input};
use pegast::rules::literal::LiteralValue;
use pegast::rules::sets::SetEntries;
use pegast::rules::{DelimittedSetOf, Either, Literal, SetOf};
use pegast::{ParseError, PegAstNode};
use std::borrow::Cow;

#[derive(Clone, Copy, Debug, Eq, PartialEq)]
enum X {}

impl LiteralValue for X {
    const LITERAL: &'static str = "x";
}

#[derive(Clone, Copy, Debug, Eq, PartialEq)]
enum Y {}

impl LiteralValue for Y {
    const LITERAL: &'static str = "yy";
}

#[derive(Clone, Copy, Debug, Eq, PartialEq)]
enum Z {}

impl LiteralValue for Z {
    const LITERAL: &'static str = "z";
}

#[derive(Clone, Copy, Debug, Eq, PartialEq)]
enum Semicolon {}

impl LiteralValue for Semicolon {
    const LITERAL: &'static str = ";";
}

#[derive(Clone, Copy, Debug, Eq, Hash, PartialEq)]
enum OptionId {
    X,
    Y,
    Z,
}

/// At most one `x`, any number of `yy`, at least two `z`.
#[derive(Clone, Debug, Eq, PartialEq)]
enum Options {
    X(Literal<X>),
    Y(Literal<Y>),
    Z(Literal<Z>),
}

type OptionsShape = Either<Literal<X>, Either<Literal<Y>, Literal<Z>>>;

impl PegAstNode for Options {
    type Tree = ();

    fn parse<I: Input>(input: &mut I) -> Result<Self, ParseError> {
        match OptionsShape::parse(input)? {
            Either::Left(node) => Ok(Options::X(node)),
            Either::Right(Either::Left(node)) => Ok(Options::Y(node)),
            Either::Right(Either::Right(node)) => Ok(Options::Z(node)),
        }
    }

    fn parsed_string(&self) -> Cow<'_, str> {
        match self {
            Options::X(node) => node.parsed_string(),
            Options::Y(node) => node.parsed_string(),
            Options::Z(node) => node.parsed_string(),
        }
    }

    fn expecting() -> Vec<String> {
        OptionsShape::expecting()
    }
}

impl SetEntries for Options {
    type EntryId = OptionId;

    fn all_entry_ids() -> &'static [OptionId] {
        &[OptionId::X, OptionId::Y, OptionId::Z]
    }

    fn entry_id(&self) -> OptionId {
        match self {
            Options::X(_) => OptionId::X,
            Options::Y(_) => OptionId::Y,
            Options::Z(_) => OptionId::Z,
        }
    }

    fn min_repetitions(entry_id: OptionId) -> usize {
        match entry_id {
            OptionId::Z => 2,
            _ => 0,
        }
    }

    fn max_repetitions(entry_id: OptionId) -> Option<usize> {
        match entry_id {
            OptionId::X => Some(1),
            _ => None,
        }
    }
}

fn input_over(text: &str) -> ConsumingInput<Characters> {
    ConsumingInput::new(Characters::from_str(text))
}

fn count(items: &[Options], entry_id: OptionId) -> usize {
    items.iter().filter(|item| item.entry_id() == entry_id).count()
}

#[test]
fn set_accepts_entries_in_any_order() {
    let mut input = input_over("zyyxz!");
    let set = SetOf::<Options>::parse(&mut input).unwrap();
    assert_eq!(set.len(), 4);
    assert_eq!(count(&set, OptionId::X), 1);
    assert_eq!(count(&set, OptionId::Y), 1);
    assert_eq!(count(&set, OptionId::Z), 2);
    assert_eq!(set.parsed_string(), "zyyxz");
    assert_eq!(set.parsed_string_length(), 5);
    assert_eq!(input.position(), 5);
    assert_eq!(SetOf::<Options>::expecting(), vec!["x", "yy", "z"]);
}

#[test]
fn set_leaves_an_entry_beyond_its_maximum_unconsumed() {
    let mut input = input_over("zzxxz");
    let set = SetOf::<Options>::parse(&mut input).unwrap();
    assert_eq!(set.parsed_string(), "zzx");
    assert_eq!(count(&set, OptionId::X), 1);
    assert_eq!(input.position(), 3);
    assert_eq!(input.next(), Some('x'));
    assert_eq!(input.next(), Some('z'));
}

#[test]
fn set_fails_behind_the_entries_it_accepted() {
    let mut input = input_over("yyzyy?");
    let error = SetOf::<Options>::parse(&mut input).unwrap_err();
    assert_eq!(error.position, 5);
    assert_eq!(error.expected, vec!["x", "yy", "z"]);
    assert_eq!(input.position(), 0);
}

#[test]
fn set_with_one_of_two_required_entries_fails_right_behind_it() {
    let mut input = input_over("z");
    let error = SetOf::<Options>::parse(&mut input).unwrap_err();
    assert_eq!(error.position, 1);
    assert_eq!(input.position(), 0);
}

#[test]
fn set_stopped_by_a_maximum_fails_before_the_entry_it_turned_down() {
    let mut input = input_over("zxxz");
    let error = SetOf::<Options>::parse(&mut input).unwrap_err();
    assert_eq!(error.position, 2);
    assert_eq!(input.position(), 0);
}

#[test]
fn empty_set_fails_at_its_start_where_a_minimum_is_set() {
    let mut input = input_over("?");
    let error = SetOf::<Options>::parse(&mut input).unwrap_err();
    assert_eq!(error.position, 0);
}

#[test]
fn delimited_set_accepts_entries_in_any_order() {
    let mut input = input_over("z;x;yy;z;yy end");
    let set = DelimittedSetOf::<Options, Literal<Semicolon>>::parse(&mut input).unwrap();
    assert_eq!(set.items().len(), 5);
    assert_eq!(set.delimitters().len(), 4);
    assert_eq!(set.parsed_string(), "z;x;yy;z;yy");
    assert_eq!(set.parsed_string_length(), 11);
    assert_eq!(input.position(), 11);
    assert_eq!(
        DelimittedSetOf::<Options, Literal<Semicolon>>::expecting(),
        vec!["x", "yy", "z"]
    );
}

#[test]
fn delimited_set_drops_a_dangling_delimiter() {
    let mut input = input_over("z;z;");
    let set = DelimittedSetOf::<Options, Literal<Semicolon>>::parse(&mut input).unwrap();
    assert_eq!(set.items().len(), 2);
    assert_eq!(set.delimitters().len(), 1);
    assert_eq!(set.parsed_string(), "z;z");
    assert_eq!(input.position(), 3);
    assert_eq!(input.next(), Some(';'));
}

#[test]
fn delimited_set_leaves_an_entry_beyond_its_maximum_unconsumed() {
    let mut input = input_over("z;x;z;x;yy");
    let set = DelimittedSetOf::<Options, Literal<Semicolon>>::parse(&mut input).unwrap();
    assert_eq!(set.parsed_string(), "z;x;z");
    assert_eq!(set.items().len(), 3);
    assert_eq!(set.delimitters().len(), 2);
    assert_eq!(input.position(), 5);
    assert!(input.consume(";x;yy"));
}

#[test]
fn delimited_set_stops_where_no_delimiter_follows() {
    let mut input = input_over("zzz");
    let error = DelimittedSetOf::<Options, Literal<Semicolon>>::parse(&mut input).unwrap_err();
    assert_eq!(error.position, 1);
    assert_eq!(input.position(), 0);
}

#[test]
fn delimited_set_fails_behind_the_last_delimiter() {
    let mut input = input_over("yy;z;");
    let error = DelimittedSetOf::<Options, Literal<Semicolon>>::parse(&mut input).unwrap_err();
    assert_eq!(error.position, 5);
    assert_eq!(error.expected, vec!["x", "yy", "z"]);
    assert_eq!(input.position(), 0);
}

#[test]
fn delimited_set_without_entries_fails_at_its_start() {
    let mut input = input_over(";z");
    let error = DelimittedSetOf::<Options, Literal<Semicolon>>::parse(&mut input).unwrap_err();
    assert_eq!(error.position, 0);
}
