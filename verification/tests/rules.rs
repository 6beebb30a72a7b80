use pegast::input::source::Characters;
use pegast::input::{ConsumingInput, Input};
use pegast::rules::delimitted::ItemOrDelimitter;
use pegast::rules::literal::LiteralValue;
use pegast::rules::range::RangeValue;
use pegast::rules::{Any, Delimitted, Either, Literal, Not, OneOrMore, Peek, Range};
use pegast::PegAstNode;

#[derive(Clone, Copy, Debug, Eq, PartialEq)]
enum A {}

impl LiteralValue for A {
    const LITERAL: &'static str = "a";
}

#[derive(Clone, Copy, Debug, Eq, PartialEq)]
enum B {}

impl LiteralValue for B {
    const LITERAL: &'static str = "b";
}

#[derive(Clone, Copy, Debug, Eq, PartialEq)]
enum Let {}

impl LiteralValue for Let {
    const LITERAL: &'static str = "let";
}

#[derive(Clone, Copy, Debug, Eq, PartialEq)]
enum Comma {}

impl LiteralValue for Comma {
    const LITERAL: &'static str = ",";
}

#[derive(Clone, Copy, Debug, Eq, PartialEq)]
enum Digit {}

impl RangeValue for Digit {
    const START: char = '0';
    const END: char = '9';
}

fn input_over(text: &str) -> ConsumingInput<Characters> {
    ConsumingInput::new(Characters::from_str(text))
}

fn strings(items: &[&str]) -> Vec<String> {
    items.iter().map(|item| item.to_string()).collect()
}

#[test]
fn any_takes_one_character() {
    let mut input = input_over("xy");
    let node = Any::parse(&mut input).unwrap();
    assert_eq!(node, Any::from('x'));
    assert_eq!(node.parsed_string(), "x");
    assert_eq!(node.parsed_string_length(), 1);
    assert_eq!(input.position(), 1);
}

#[test]
fn any_fails_at_the_end_of_the_stream() {
    let mut input = input_over("x");
    assert!(Any::parse(&mut input).is_ok());
    let error = Any::parse(&mut input).unwrap_err();
    assert_eq!(error.position, 1);
    assert_eq!(error.expected, strings(&["any character"]));
    assert_eq!(Any::expecting(), strings(&["any character"]));
}

#[test]
fn literal_fails_on_a_mismatch_without_moving() {
    let mut input = input_over("lex");
    let error = Literal::<Let>::parse(&mut input).unwrap_err();
    assert_eq!(error.position, 0);
    assert_eq!(error.expected, strings(&["let"]));
    assert_eq!(input.position(), 0);
    assert_eq!(input.next(), Some('l'));
}

#[test]
fn literal_fails_on_a_short_stream() {
    let mut input = input_over("le");
    assert!(Literal::<Let>::parse(&mut input).is_err());
    assert_eq!(input.position(), 0);
}

#[test]
fn literal_renders_its_text() {
    let node = Literal::<Let>::new();
    assert_eq!(node.parsed_string(), "let");
    assert_eq!(node.parsed_string_length(), 3);
    assert_eq!(Literal::<Let>::expecting(), strings(&["let"]));
}

#[test]
fn range_takes_a_character_within_it() {
    let mut input = input_over("5x");
    let node = Range::<Digit>::parse(&mut input).unwrap();
    assert_eq!(node.parsed_string(), "5");
    assert_eq!(node.parsed_string_length(), 1);
    assert_eq!(input.position(), 1);
    assert_eq!(Range::<Digit>::try_from('5'), Ok(node));
}

#[test]
fn range_fails_at_the_end_of_the_stream() {
    let mut input = input_over("");
    let error = Range::<Digit>::parse(&mut input).unwrap_err();
    assert_eq!(error.position, 0);
    assert_eq!(Range::<Digit>::expecting(), strings(&["a character between '0' and '9'"]));
}

#[test]
fn not_fails_where_the_rule_matches() {
    let mut input = input_over("ab");
    let error = Not::<Literal<A>>::parse(&mut input).unwrap_err();
    assert_eq!(error.position, 0);
    assert_eq!(error.expected, strings(&["not a"]));
    assert_eq!(input.position(), 0);
}

#[test]
fn not_describes_what_it_excludes() {
    assert_eq!(Not::<Literal<A>>::expecting(), strings(&["not a"]));
    assert_eq!(
        Not::<Option<Literal<A>>>::expecting(),
        strings(&["not one of:\n    - a\n    - or nothing\n"])
    );
    assert_eq!(
        Not::<Either<Literal<A>, Either<Literal<B>, Any>>>::expecting(),
        strings(&["not one of:\n    - a\n    - b\n    - any character\n"])
    );
}

#[test]
fn peek_matches_without_consuming() {
    let mut input = input_over("let x");
    let node = Peek::<Literal<Let>>::parse(&mut input).unwrap();
    assert_eq!(node.parsed_string(), "");
    assert_eq!(node.parsed_string_length(), 0);
    assert_eq!(input.position(), 0);
    assert!(Literal::<Let>::parse(&mut input).is_ok());
}

#[test]
fn peek_fails_as_the_rule_does() {
    let mut input = input_over("a1x");
    let error = Peek::<(Literal<A>, Range<Digit>, Range<Digit>)>::parse(&mut input).unwrap_err();
    assert_eq!(error.position, 2);
    assert_eq!(error.expected, strings(&["a character between '0' and '9'"]));
    assert_eq!(input.position(), 0);
    assert_eq!(Peek::<Literal<A>>::expecting(), strings(&["a"]));
}

#[test]
fn optional_wraps_a_match() {
    let mut input = input_over("ab");
    let node = Option::<Literal<A>>::parse(&mut input).unwrap();
    assert!(node.is_some());
    assert_eq!(node.parsed_string(), "a");
    assert_eq!(node.parsed_string_length(), 1);
    assert_eq!(input.position(), 1);
}

#[test]
fn optional_succeeds_with_nothing() {
    let mut input = input_over("b");
    let node = Option::<Literal<A>>::parse(&mut input).unwrap();
    assert!(node.is_none());
    assert_eq!(node.parsed_string(), "");
    assert_eq!(node.parsed_string_length(), 0);
    assert_eq!(input.position(), 0);
    assert_eq!(Option::<Literal<A>>::expecting(), strings(&["a", "or nothing"]));
}

#[test]
fn zero_or_more_succeeds_with_no_match() {
    let mut input = input_over("xyz");
    let nodes = Vec::<Range<Digit>>::parse(&mut input).unwrap();
    assert!(nodes.is_empty());
    assert_eq!(nodes.parsed_string(), "");
    assert_eq!(nodes.parsed_string_length(), 0);
    assert_eq!(input.position(), 0);
    assert_eq!(
        Vec::<Range<Digit>>::expecting(),
        strings(&["a character between '0' and '9'", "or nothing"])
    );
}

#[test]
fn zero_or_more_stops_at_the_end_of_the_stream() {
    let mut input = input_over("2024");
    let nodes = Vec::<Range<Digit>>::parse(&mut input).unwrap();
    assert_eq!(nodes.len(), 4);
    assert_eq!(nodes.parsed_string(), "2024");
    assert_eq!(nodes.parsed_string_length(), 4);
    assert_eq!(input.position(), 4);
}

#[test]
fn one_or_more_collects_head_and_tail() {
    let mut input = input_over("123a");
    let node = OneOrMore::<Range<Digit>>::parse(&mut input).unwrap();
    assert_eq!(node.head.parsed_string(), "1");
    assert_eq!(node.tail.len(), 2);
    assert_eq!(node.parsed_string(), "123");
    assert_eq!(node.parsed_string_length(), 3);
    let rendered: Vec<String> =
        node.iter().iter().map(|item| item.parsed_string().into_owned()).collect();
    assert_eq!(rendered, strings(&["1", "2", "3"]));
    assert_eq!(input.position(), 3);
    assert_eq!(OneOrMore::<Range<Digit>>::expecting(), strings(&["a character between '0' and '9'"]));
}

#[test]
fn one_or_more_with_a_head_only_renders_the_head() {
    let mut input = input_over("7x");
    let node = OneOrMore::<Range<Digit>>::parse(&mut input).unwrap();
    assert!(node.tail.is_empty());
    assert_eq!(node.parsed_string(), "7");
    assert_eq!(node.iter().len(), 1);
}

#[test]
fn sequence_of_one_position() {
    let mut input = input_over("ab");
    let node = <(Literal<A>,)>::parse(&mut input).unwrap();
    assert_eq!(node.parsed_string(), "a");
    assert_eq!(input.position(), 1);
    assert_eq!(<(Literal<A>,)>::expecting(), strings(&["a"]));
}

#[test]
fn sequence_parses_its_positions_in_order() {
    let mut input = input_over("a1b!");
    let node = <(Literal<A>, Range<Digit>, Literal<B>)>::parse(&mut input).unwrap();
    assert_eq!(node.1.parsed_string(), "1");
    assert_eq!(node.parsed_string(), "a1b");
    assert_eq!(node.parsed_string_length(), 3);
    assert_eq!(input.position(), 3);
}

#[test]
fn sequence_of_two_positions() {
    let mut input = input_over("ab");
    let node = <(Literal<A>, Literal<B>)>::parse(&mut input).unwrap();
    assert_eq!(node.parsed_string(), "ab");
    assert_eq!(input.position(), 2);
}

#[test]
fn sequence_of_four_and_five_positions() {
    let mut input = input_over("a1b2a");
    let four = <(Literal<A>, Range<Digit>, Literal<B>, Range<Digit>)>::parse(&mut input).unwrap();
    assert_eq!(four.parsed_string(), "a1b2");
    assert_eq!(input.position(), 4);
    let mut input = input_over("a1b2a3");
    let five = <(Literal<A>, Range<Digit>, Literal<B>, Range<Digit>, Any)>::parse(&mut input)
        .unwrap();
    assert_eq!(five.parsed_string(), "a1b2a");
    assert_eq!(five.4, Any::from('a'));
    assert_eq!(input.position(), 5);
}

#[test]
fn sequence_reports_the_failure_where_it_was_detected() {
    let mut input = input_over("a1a");
    let error = <(Literal<A>, Range<Digit>, Literal<B>)>::parse(&mut input).unwrap_err();
    assert_eq!(error.position, 2);
    assert_eq!(error.expected, strings(&["b"]));
    assert_eq!(input.position(), 0);
    let mut input = input_over("a1b2!");
    let error = <(Literal<A>, Range<Digit>, Literal<B>, Range<Digit>, Literal<A>)>::parse(
        &mut input,
    )
    .unwrap_err();
    assert_eq!(error.position, 4);
    assert_eq!(error.expected, strings(&["a"]));
    assert_eq!(input.position(), 0);
}

#[test]
fn sequence_expects_what_its_first_position_expects() {
    assert_eq!(<(Range<Digit>, Literal<B>)>::expecting(), strings(&["a character between '0' and '9'"]));
    assert_eq!(<(Literal<B>, Literal<A>, Any)>::expecting(), strings(&["b"]));
    assert_eq!(<(Any, Literal<A>, Any, Any)>::expecting(), strings(&["any character"]));
    assert_eq!(<(Literal<A>, Any, Any, Any, Any)>::expecting(), strings(&["a"]));
}

#[test]
fn delimitted_collects_items_and_delimiters() {
    let mut input = input_over("1,2,3;");
    let node = Delimitted::<Range<Digit>, Literal<Comma>>::parse(&mut input).unwrap();
    assert_eq!(node.parsed_string(), "1,2,3");
    assert_eq!(node.parsed_string_length(), 5);
    assert_eq!(input.position(), 5);
    let items: Vec<String> =
        node.items().iter().map(|item| item.parsed_string().into_owned()).collect();
    assert_eq!(items, strings(&["1", "2", "3"]));
    assert_eq!(node.delimitters().len(), 2);
    let parts: Vec<String> = node
        .items_and_delimitters()
        .iter()
        .map(|part| match part {
            ItemOrDelimitter::Item(item) => format!("item {}", item.parsed_string()),
            ItemOrDelimitter::Delimitter(delimitter) => {
                format!("delimiter {}", delimitter.parsed_string())
            }
        })
        .collect();
    assert_eq!(
        parts,
        strings(&["item 1", "delimiter ,", "item 2", "delimiter ,", "item 3"])
    );
}

#[test]
fn delimitted_leaves_a_dangling_delimiter() {
    let mut input = input_over("1,2,");
    let node = Delimitted::<Range<Digit>, Literal<Comma>>::parse(&mut input).unwrap();
    assert_eq!(node.parsed_string(), "1,2");
    assert_eq!(input.position(), 3);
    assert_eq!(input.peek(), Some(','));
}

#[test]
fn delimitted_needs_a_head() {
    let mut input = input_over(",1");
    let error = Delimitted::<Range<Digit>, Literal<Comma>>::parse(&mut input).unwrap_err();
    assert_eq!(error.position, 0);
    assert_eq!(
        Delimitted::<Range<Digit>, Literal<Comma>>::expecting(),
        strings(&["a character between '0' and '9'"])
    );
}

#[test]
fn delimitted_with_a_head_only() {
    let mut input = input_over("4");
    let node = Delimitted::<Range<Digit>, Literal<Comma>>::parse(&mut input).unwrap();
    assert!(node.tail.is_empty());
    assert_eq!(node.parsed_string(), "4");
    assert_eq!(node.items().len(), 1);
    assert_eq!(node.delimitters().len(), 0);
    assert_eq!(node.items_and_delimitters().len(), 1);
}

#[test]
fn alternation_takes_the_second_where_the_first_fails() {
    let mut input = input_over("b");
    let node = Either::<Literal<A>, Literal<B>>::parse(&mut input).unwrap();
    assert_eq!(node, Either::Right(Literal::new()));
    assert_eq!(node.parsed_string(), "b");
    assert_eq!(node.parsed_string_length(), 1);
    assert_eq!(input.position(), 1);
}

#[test]
fn alternation_fails_at_its_start_with_every_expectation() {
    let mut input = input_over("a1x");
    let error = Either::<(Literal<A>, Literal<B>), (Literal<A>, Range<Digit>, Literal<B>)>::parse(
        &mut input,
    )
    .unwrap_err();
    assert_eq!(error.position, 0);
    assert_eq!(error.expected, strings(&["a", "a"]));
    assert_eq!(input.position(), 0);
    assert_eq!(
        Either::<Literal<A>, Either<Range<Digit>, Any>>::expecting(),
        strings(&["a", "a character between '0' and '9'", "any character"])
    );
}

#[test]
fn boxed_node_parses_as_the_node() {
    let mut input = input_over("let");
    let node = Box::<Literal<Let>>::parse(&mut input).unwrap();
    assert_eq!(node.parsed_string(), "let");
    assert_eq!(node.parsed_string_length(), 3);
    assert_eq!(input.position(), 3);
    assert_eq!(Box::<Literal<Let>>::expecting(), strings(&["let"]));
    let mut input = input_over("le");
    let error = Box::<Literal<Let>>::parse(&mut input).unwrap_err();
    assert_eq!(error.position, 0);
}
