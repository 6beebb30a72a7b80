use pegast::input::buffered_iterator::{BufferedIterator, PeekingIntoBufferedIterator};
use pegast::input::source::{CharSource, Characters};
use pegast::input::{ConsumingInput, Input, PeekingInput};

fn cursor_over(text: &str) -> BufferedIterator<Characters> {
    BufferedIterator::new(Characters::from_str(text))
}

/// A source that counts how often it is asked for a character.
struct Counting {
    items: Vec<char>,
    next: usize,
    pulls: usize,
}

impl CharSource for Counting {
    fn next(&mut self) -> Option<char> {
        self.pulls += 1;
        let item = self.items.get(self.next).copied();
        if item.is_some() {
            self.next += 1;
        }
        item
    }
}

#[test]
fn characters_hand_out_a_vector_front_to_back() {
    let mut source = Characters::new(vec!['x', 'y']);
    assert_eq!(source.next(), Some('x'));
    assert_eq!(source.next(), Some('y'));
    assert_eq!(source.next(), None);
    assert_eq!(source.next(), None);
}

#[test]
fn characters_from_text_count_characters_not_bytes() {
    let mut source = Characters::from_str("é!");
    assert_eq!(source.next(), Some('é'));
    assert_eq!(source.next(), Some('!'));
    assert_eq!(source.next(), None);
}

#[test]
fn peek_returns_items_without_consuming() {
    let mut cursor = cursor_over("hello");
    assert_eq!(cursor.peek(3), vec!['h', 'e', 'l']);
    assert_eq!(cursor.next(), Some('h'));
}

#[test]
fn peek_returns_fewer_items_at_the_end() {
    let mut cursor = cursor_over("hi");
    assert_eq!(cursor.peek(5), vec!['h', 'i']);
    assert_eq!(cursor.peek(0), Vec::<char>::new());
}

#[test]
fn peek_pulls_only_what_is_missing() {
    let source = Counting { items: vec!['a', 'b', 'c', 'd'], next: 0, pulls: 0 };
    let mut input = ConsumingInput::new(source);
    assert!(input.check("ab"));
    assert!(input.check("ab"));
    assert!(input.check("a"));
    assert_eq!(input.peek(), Some('a'));
    assert!(input.consume("ab"));
    assert_eq!(input.next(), Some('c'));
    assert_eq!(input.next(), Some('d'));
    assert_eq!(input.next(), None);
    assert_eq!(input.position(), 4);
}

#[test]
fn advance_drops_items_and_reports_the_count() {
    let mut cursor = cursor_over("abcdef");
    assert_eq!(cursor.peek(4), vec!['a', 'b', 'c', 'd']);
    assert_eq!(cursor.advance(2), 2);
    assert_eq!(cursor.peek(2), vec!['c', 'd']);
    assert_eq!(cursor.advance(3), 3);
    assert_eq!(cursor.next(), Some('f'));
}

#[test]
fn advance_stops_at_the_end_of_the_stream() {
    let mut cursor = cursor_over("abc");
    assert_eq!(cursor.peek(1), vec!['a']);
    assert_eq!(cursor.advance(10), 3);
    assert_eq!(cursor.advance(1), 0);
    assert_eq!(cursor.next(), None);
}

#[test]
fn next_takes_from_the_buffer_first() {
    let mut cursor = cursor_over("xyz");
    assert_eq!(cursor.peek(2), vec!['x', 'y']);
    assert_eq!(cursor.next(), Some('x'));
    assert_eq!(cursor.next(), Some('y'));
    assert_eq!(cursor.next(), Some('z'));
    assert_eq!(cursor.next(), None);
}

#[test]
fn view_moves_without_the_cursor() {
    let mut cursor = cursor_over("abcd");
    {
        let mut view = cursor.peek_into();
        assert_eq!(view.position(), 0);
        assert_eq!(view.next(), Some('a'));
        assert_eq!(view.next(), Some('b'));
        assert_eq!(view.position(), 2);
        assert_eq!(view.peek(2), vec!['c', 'd']);
        view.advance(1);
        assert_eq!(view.position(), 3);
        assert_eq!(view.peek(5), vec!['d']);
    }
    assert_eq!(cursor.peek(4), vec!['a', 'b', 'c', 'd']);
    assert_eq!(cursor.next(), Some('a'));
}

#[test]
fn view_looks_ahead_relative_to_its_offset() {
    let mut cursor = cursor_over("abcdef");
    let mut view = PeekingIntoBufferedIterator::new(&mut cursor);
    view.advance(4);
    assert_eq!(view.next(), Some('e'));
    assert_eq!(view.peek(3), vec!['f']);
    assert_eq!(view.next(), Some('f'));
    assert_eq!(view.next(), None);
    assert_eq!(view.position(), 6);
}

#[test]
fn view_beyond_the_end_sees_nothing() {
    let mut cursor = cursor_over("ab");
    let mut view = cursor.peek_into();
    view.advance(5);
    assert_eq!(view.position(), 5);
    assert_eq!(view.peek(2), Vec::<char>::new());
    assert_eq!(view.next(), None);
    assert_eq!(view.position(), 5);
}

#[test]
fn nested_view_starts_where_its_parent_stands() {
    let mut cursor = cursor_over("abcd");
    let mut outer = cursor.peek_into();
    outer.advance(1);
    {
        let mut inner = outer.peek_into();
        assert_eq!(inner.position(), 1);
        assert_eq!(inner.next(), Some('b'));
        assert_eq!(inner.next(), Some('c'));
        assert_eq!(inner.position(), 3);
    }
    assert_eq!(outer.position(), 1);
    assert_eq!(outer.next(), Some('b'));
}

#[test]
fn consuming_input_counts_what_it_consumed() {
    let mut input = ConsumingInput::new(Characters::from_str("abcdef"));
    assert_eq!(input.position(), 0);
    input.advance(2);
    assert_eq!(input.position(), 2);
    assert_eq!(input.next(), Some('c'));
    assert_eq!(input.position(), 3);
    input.advance_to(5);
    assert_eq!(input.position(), 5);
    assert_eq!(input.peek(), Some('f'));
    assert_eq!(input.position(), 5);
}

#[test]
fn consuming_input_stops_at_the_end() {
    let mut input = ConsumingInput::new(Characters::from_str("ab"));
    input.advance(7);
    assert_eq!(input.position(), 2);
    assert_eq!(input.next(), None);
    assert_eq!(input.peek(), None);
    assert_eq!(input.position(), 2);
}

#[test]
fn check_compares_without_consuming() {
    let mut input = ConsumingInput::new(Characters::from_str("hello"));
    assert!(input.check("hel"));
    assert!(input.check(""));
    assert!(!input.check("help"));
    assert!(!input.check("hello!"));
    assert_eq!(input.position(), 0);
}

#[test]
fn consume_moves_only_on_a_match() {
    let mut input = ConsumingInput::new(Characters::from_str("hello"));
    assert!(!input.consume("help"));
    assert_eq!(input.position(), 0);
    assert!(input.consume("hel"));
    assert_eq!(input.position(), 3);
    assert!(input.consume("lo"));
    assert_eq!(input.position(), 5);
    assert!(!input.consume("x"));
    assert!(input.consume(""));
}

#[test]
fn check_counts_characters_of_any_width() {
    let mut input = ConsumingInput::new(Characters::from_str("héllo"));
    assert!(input.consume("hé"));
    assert_eq!(input.position(), 2);
    assert_eq!(input.next(), Some('l'));
}

#[test]
fn peeking_input_reports_absolute_positions() {
    let mut cursor = cursor_over("abcdef");
    let mut view = PeekingInput::new(10, &mut cursor);
    assert_eq!(view.position(), 10);
    assert!(view.consume("ab"));
    assert_eq!(view.position(), 12);
    assert_eq!(view.next(), Some('c'));
    assert_eq!(view.peek(), Some('d'));
    assert!(view.check("def"));
    assert!(!view.check("dex"));
    view.advance(1);
    view.advance_to(15);
    assert_eq!(view.position(), 15);
    assert_eq!(view.next(), Some('f'));
    assert_eq!(view.next(), None);
    assert_eq!(view.position(), 16);
}

#[test]
fn peek_only_leaves_the_input_where_it_was() {
    let mut input = ConsumingInput::new(Characters::from_str("abcd"));
    input.advance(1);
    {
        let mut view = input.peek_only();
        assert_eq!(view.position(), 1);
        assert!(view.consume("bc"));
        assert_eq!(view.position(), 3);
        {
            let mut nested = view.peek_only();
            assert_eq!(nested.position(), 3);
            assert_eq!(nested.next(), Some('d'));
            assert_eq!(nested.next(), None);
            assert_eq!(nested.position(), 4);
        }
        assert_eq!(view.position(), 3);
    }
    assert_eq!(input.position(), 1);
    assert_eq!(input.next(), Some('b'));
}

#[test]
fn committing_a_view_consumes_up_to_its_position() {
    let mut input = ConsumingInput::new(Characters::from_str("abcd"));
    let reached = {
        let mut view = input.peek_only();
        assert!(view.consume("abc"));
        view.position()
    };
    input.advance_to(reached);
    assert_eq!(input.position(), 3);
    assert_eq!(input.next(), Some('d'));
}
