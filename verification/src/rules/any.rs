use vstd::prelude::*;
use std::borrow::Cow;
use crate::input::Input;
use crate::text::single;
use crate::{faithful, faithful_on, Outcome, ParseError, PegAstNode};

verus! {

/// Any one character. The rule fails only at the end of the stream.
#[derive(Clone, Copy, Debug, PartialEq, Eq)]
pub struct Any(pub char);

impl From<char> for Any {
    fn from(character: char) -> (any: Self) {
        Any(character)
    }
}

impl vstd::std_specs::convert::FromSpecImpl<char> for Any {
    open spec fn obeys_from_spec() -> bool {
        true
    }

    open spec fn from_spec(character: char) -> Self {
        Any(character)
    }
}

impl PegAstNode for Any {
    type Tree = char;

    open spec fn well_formed() -> bool {
        true
    }

    open spec fn tree(&self) -> char {
        self.0
    }

    open spec fn text(tree: char) -> Seq<char> {
        seq![tree]
    }

    open spec fn spec_parse(stream: Seq<char>) -> Outcome<char> {
        if stream.len() > 0 {
            Outcome::Accepted { tree: stream[0], length: 1 }
        } else {
            Outcome::Rejected { expected: Self::spec_expecting(), offset: 0 }
        }
    }

    open spec fn spec_expecting() -> Seq<Seq<char>> {
        seq!["any character"@]
    }

    fn parse<I: Input>(input: &mut I) -> (result: Result<Self, ParseError>) {
        match input.next() {
            Some(character) => Ok(Any(character)),
            None => Err(ParseError { expected: Self::expecting(), position: input.position() }),
        }
    }

    fn parsed_string(&self) -> (text: Cow<'_, str>) {
        Cow::Owned(single(self.0))
    }

    fn expecting() -> (expected: Vec<String>) {
        let expected = vec!["any character".to_owned()];
        assert(expected.deep_view() =~= Self::spec_expecting());
        expected
    }

    fn parsed_string_length(&self) -> (length: usize) {
        1
    }
}

/// The one character that `Any` consumes is the one it renders.
pub proof fn lemma_any_faithful()
    ensures
        faithful::<Any>(),
{
    assert forall|stream: Seq<char>| #[trigger] faithful_on::<Any>(stream) by {
        if stream.len() > 0 {
            assert(seq![stream[0]] =~= stream.take(1));
        }
    }
}

} // verus!
