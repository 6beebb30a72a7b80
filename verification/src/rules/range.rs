use vstd::prelude::*;
use std::borrow::Cow;
use std::fmt::Debug;
use std::marker::PhantomData;
use crate::input::Input;
use crate::text::single;
use crate::{faithful, faithful_on, Outcome, ParseError, PegAstNode};

verus! {

/// A marker type that stands for an inclusive range of characters.
pub trait RangeValue: Debug {
    const START: char;
    const END: char;
}

/// Whether `character` lies in the range of the marker type `V`, both ends
/// included.
pub open spec fn covers<V: RangeValue>(character: char) -> bool {
    V::START <= character && character <= V::END
}

/// The character that was turned down for lying outside the range of `V`.
#[derive(Debug, Eq, PartialEq)]
pub struct OutOfRangeError<V: RangeValue>(char, PhantomData<V>);

impl<V: RangeValue> Clone for OutOfRangeError<V> {
    fn clone(&self) -> (copy: Self)
        ensures
            copy == *self,
    {
        OutOfRangeError(self.0, PhantomData)
    }
}

impl<V: RangeValue> Copy for OutOfRangeError<V> {

}

impl<V: RangeValue> OutOfRangeError<V> {
    /// The character that was turned down.
    pub closed spec fn character(&self) -> char {
        self.0
    }

    /// The error's message as a mathematical value.
    pub open spec fn message(&self) -> Seq<char> {
        "input character '"@ + seq![self.character()] + "' is out of the range ["@ + seq![V::START]
            + "-"@ + seq![V::END] + "]"@
    }

    /// The error's message.
    pub fn to_string(&self) -> (message: String)
        ensures
            message@ == self.message(),
    {
        let mut message = "input character '".to_owned();
        message.push(self.0);
        message.append("' is out of the range [");
        message.push(V::START);
        message.append("-");
        message.push(V::END);
        message.append("]");
        assert(message@ =~= self.message());
        message
    }
}

/// One character within the range of the marker type `V`.
#[derive(Debug, Eq, PartialEq)]
pub struct Range<V: RangeValue>(char, PhantomData<V>);

impl<V: RangeValue> Clone for Range<V> {
    fn clone(&self) -> (copy: Self)
        ensures
            copy == *self,
    {
        Range(self.0, PhantomData)
    }
}

impl<V: RangeValue> Copy for Range<V> {

}

impl<V: RangeValue> Range<V> {
    /// The description of the range, as a mathematical value.
    pub open spec fn description() -> Seq<char> {
        "a character between '"@ + seq![V::START] + "' and '"@ + seq![V::END] + "'"@
    }
}

impl<V: RangeValue> TryFrom<char> for Range<V> {
    type Error = OutOfRangeError<V>;

    fn try_from(character: char) -> (result: Result<Self, OutOfRangeError<V>>)
        ensures
            result is Ok <==> covers::<V>(character),
            result matches Ok(range) ==> range.tree() == character,
            result matches Err(error) ==> error.character() == character,
    {
        if character >= V::START && character <= V::END {
            Ok(Range(character, PhantomData))
        } else {
            Err(OutOfRangeError(character, PhantomData))
        }
    }
}

impl<V: RangeValue> vstd::std_specs::convert::TryFromSpecImpl<char> for Range<V> {
    open spec fn obeys_try_from_spec() -> bool {
        true
    }

    closed spec fn try_from_spec(character: char) -> Result<Self, OutOfRangeError<V>> {
        if covers::<V>(character) {
            Ok(Range(character, PhantomData))
        } else {
            Err(OutOfRangeError(character, PhantomData))
        }
    }
}

impl<V: RangeValue> PegAstNode for Range<V> {
    type Tree = char;

    open spec fn well_formed() -> bool {
        true
    }

    closed spec fn tree(&self) -> char {
        self.0
    }

    open spec fn text(tree: char) -> Seq<char> {
        seq![tree]
    }

    open spec fn spec_parse(stream: Seq<char>) -> Outcome<char> {
        if stream.len() > 0 && covers::<V>(stream[0]) {
            Outcome::Accepted { tree: stream[0], length: 1 }
        } else {
            Outcome::Rejected { expected: Self::spec_expecting(), offset: 0 }
        }
    }

    open spec fn spec_expecting() -> Seq<Seq<char>> {
        seq![Self::description()]
    }

    fn parse<I: Input>(input: &mut I) -> (result: Result<Self, ParseError>) {
        if let Some(character) = input.peek() {
            if let Ok(range) = Self::try_from(character) {
                let _ = input.next();
                return Ok(range);
            }
        }
        Err(ParseError { expected: Self::expecting(), position: input.position() })
    }

    fn parsed_string(&self) -> (text: Cow<'_, str>) {
        Cow::Owned(single(self.0))
    }

    fn expecting() -> (expected: Vec<String>) {
        let mut description = "a character between '".to_owned();
        description.push(V::START);
        description.append("' and '");
        description.push(V::END);
        description.append("'");
        assert(description@ =~= Self::description());
        let expected = vec![description];
        assert(expected.deep_view() =~= Self::spec_expecting());
        expected
    }
}

/// The one character that a range consumes is the one it renders.
pub proof fn lemma_range_faithful<V: RangeValue>()
    ensures
        faithful::<Range<V>>(),
{
    assert forall|stream: Seq<char>| #[trigger] faithful_on::<Range<V>>(stream) by {
        if stream.len() > 0 {
            assert(seq![stream[0]] =~= stream.take(1));
        }
    }
}

} // verus!
