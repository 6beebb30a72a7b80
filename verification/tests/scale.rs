use pegast::input::source::Characters;
use pegast::input::{ConsumingInput, Input};
use pegast::rules::literal::LiteralValue;
use pegast::rules::range::RangeValue;
use pegast::rules::{Delimitted, Literal, OneOrMore, Range};
use pegast::PegAstNode;

#[derive(Clone, Copy, Debug, Eq, PartialEq)]
enum Comma {}

impl LiteralValue for Comma {
    const LITERAL: &'static str = ",";
}

#[derive(Clone, Copy, Debug, Eq, PartialEq)]
enum Digit {}

impl RangeValue for Digit {
    const START: char = '0';
    const END: char = '9';
}

#[test]
fn a_long_input_is_parsed_through_one_view() {
    let count = 60_000;
    let text = vec!["1234"; count].join(",");
    let mut input = ConsumingInput::new(Characters::from_str(&text));
    let node =
        Delimitted::<OneOrMore<Range<Digit>>, Literal<Comma>>::parse(&mut input).unwrap();
    assert_eq!(node.items().len(), count);
    assert_eq!(node.delimitters().len(), count - 1);
    assert_eq!(input.position(), text.len());
    assert_eq!(node.parsed_string_length(), text.len());
    assert_eq!(node.parsed_string(), text);
    assert_eq!(input.next(), None);
}

#[test]
fn a_long_run_of_characters_is_consumed_in_one_step() {
    let text = "x".repeat(500_000);
    let mut input = ConsumingInput::new(Characters::from_str(&text));
    assert!(input.check(&text));
    input.advance(499_999);
    assert_eq!(input.position(), 499_999);
    assert_eq!(input.next(), Some('x'));
    assert_eq!(input.next(), None);
}
