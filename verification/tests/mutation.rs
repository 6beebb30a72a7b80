use pegast::input::source::Characters;
use pegast::input::{ConsumingInput, Input};
use pegast::rules::delimitted::ItemOrDelimitter;
use pegast::rules::literal::LiteralValue;
use pegast::rules::range::RangeValue;
use pegast::rules::sets::SetEntries;
use pegast::rules::{Any, Delimitted, DelimittedSetOf, Either, Literal, Range, SetOf};
use pegast::{ParseError, PegAstNode};
use std::borrow::Cow;

#[derive(Clone, Copy, Debug, Eq, PartialEq)]
enum Comma {}

impl LiteralValue for Comma {
    const LITERAL: &'static str = ",";
}

#[derive(Clone, Copy, Debug, Eq, PartialEq)]
enum Digit {}

impl RangeValue for Digit {
    const START: char = '0';
    const END: char = '9';
}

#[derive(Clone, Copy, Debug, Eq, PartialEq)]
enum Upper {}

impl RangeValue for Upper {
    const START: char = 'A';
    const END: char = 'Z';
}

type Separator = Either<Literal<Comma>, Range<Upper>>;

/// A digit or an upper-case letter, each any number of times.
#[derive(Clone, Debug, Eq, PartialEq)]
enum Sign {
    Digit(Range<Digit>),
    Letter(Range<Upper>),
}

impl PegAstNode for Sign {
    type Tree = ();

    fn parse<I: Input>(input: &mut I) -> Result<Self, ParseError> {
        match Either::<Range<Digit>, Range<Upper>>::parse(input)? {
            Either::Left(node) => Ok(Sign::Digit(node)),
            Either::Right(node) => Ok(Sign::Letter(node)),
        }
    }

    fn parsed_string(&self) -> Cow<'_, str> {
        match self {
            Sign::Digit(node) => node.parsed_string(),
            Sign::Letter(node) => node.parsed_string(),
        }
    }

    fn expecting() -> Vec<String> {
        Either::<Range<Digit>, Range<Upper>>::expecting()
    }
}

impl SetEntries for Sign {
    type EntryId = bool;

    fn all_entry_ids() -> &'static [bool] {
        &[false, true]
    }

    fn entry_id(&self) -> bool {
        matches!(self, Sign::Letter(_))
    }

    fn min_repetitions(_: bool) -> usize {
        0
    }

    fn max_repetitions(_: bool) -> Option<usize> {
        None
    }
}

fn input_over(text: &str) -> ConsumingInput<Characters> {
    ConsumingInput::new(Characters::from_str(text))
}

fn digit(character: char) -> Range<Digit> {
    Range::try_from(character).unwrap()
}

#[test]
fn items_of_a_delimited_sequence_can_be_changed() {
    let mut input = input_over("1,2,3");
    let mut node = Delimitted::<Range<Digit>, Literal<Comma>>::parse(&mut input).unwrap();
    {
        let mut items = node.items_mut();
        assert_eq!(items.len(), 3);
        assert_eq!(items[0].parsed_string(), "1");
        assert_eq!(items[2].parsed_string(), "3");
        *items[0] = digit('7');
        *items[2] = digit('9');
    }
    assert_eq!(node.parsed_string(), "7,2,9");
    assert_eq!(node.delimitters().len(), 2);
}

#[test]
fn delimiters_of_a_delimited_sequence_can_be_changed() {
    let mut input = input_over("a,bXc");
    let mut node = Delimitted::<Any, Separator>::parse(&mut input).unwrap();
    assert_eq!(node.parsed_string(), "a,bXc");
    {
        let mut delimitters = node.delimitters_mut();
        assert_eq!(delimitters.len(), 2);
        assert_eq!(delimitters[1].parsed_string(), "X");
        *delimitters[1] = Either::Left(Literal::new());
    }
    assert_eq!(node.parsed_string(), "a,b,c");
    assert_eq!(node.items().len(), 3);
}

#[test]
fn parts_of_a_delimited_sequence_can_be_changed_in_order() {
    let mut input = input_over("a,bXc");
    let mut node = Delimitted::<Any, Separator>::parse(&mut input).unwrap();
    {
        let parts = node.items_and_delimitters_mut();
        assert_eq!(parts.len(), 5);
        for (index, part) in parts.into_iter().enumerate() {
            match part {
                ItemOrDelimitter::Item(item) => {
                    assert_eq!(index % 2, 0);
                    *item = Any::from('_');
                }
                ItemOrDelimitter::Delimitter(delimitter) => {
                    assert_eq!(index % 2, 1);
                    *delimitter = Either::Right(Range::try_from('Q').unwrap());
                }
            }
        }
    }
    assert_eq!(node.parsed_string(), "_Q_Q_");
}

#[test]
fn a_head_alone_can_be_changed() {
    let mut input = input_over("5");
    let mut node = Delimitted::<Range<Digit>, Literal<Comma>>::parse(&mut input).unwrap();
    assert_eq!(node.delimitters_mut().len(), 0);
    assert_eq!(node.items_and_delimitters_mut().len(), 1);
    *node.items_mut()[0] = digit('0');
    assert_eq!(node.parsed_string(), "0");
}

#[test]
fn entries_of_a_delimited_set_can_be_changed() {
    let mut input = input_over("1,A,2");
    let mut set = DelimittedSetOf::<Sign, Literal<Comma>>::parse(&mut input).unwrap();
    {
        let mut items = set.items_mut();
        assert_eq!(items.len(), 3);
        *items[1] = Sign::Digit(digit('8'));
    }
    assert_eq!(set.parsed_string(), "1,8,2");
    assert_eq!(set.delimitters_mut().len(), 2);
    assert_eq!(set.items().len(), 3);
    assert_eq!(set.delimitters().len(), 2);
}

#[test]
fn delimiters_of_a_delimited_set_can_be_changed() {
    let mut input = input_over("1XA,2");
    let mut set = DelimittedSetOf::<Sign, Separator>::parse(&mut input).unwrap();
    assert_eq!(set.parsed_string(), "1XA,2");
    {
        let mut delimitters = set.delimitters_mut();
        assert_eq!(delimitters.len(), 2);
        *delimitters[0] = Either::Left(Literal::new());
    }
    assert_eq!(set.parsed_string(), "1,A,2");
}

#[test]
fn a_set_gives_its_entries_as_a_vector() {
    let mut input = input_over("A1B2-");
    let mut set = SetOf::<Sign>::parse(&mut input).unwrap();
    assert_eq!(set.len(), 4);
    assert_eq!(set[0], Sign::Letter(Range::try_from('A').unwrap()));
    set[0] = Sign::Digit(digit('0'));
    set.pop();
    assert_eq!(set.parsed_string(), "01B");
    assert_eq!(set.iter().filter(|sign| sign.entry_id()).count(), 1);
}
