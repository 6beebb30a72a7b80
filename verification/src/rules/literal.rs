use vstd::prelude::*;
use std::borrow::Cow;
use std::marker::PhantomData;
use crate::input::Input;
use crate::{faithful, faithful_on, Outcome, ParseError, PegAstNode};

verus! {

/// A marker type that stands for one fixed string.
pub trait LiteralValue {
    const LITERAL: &'static str;
}

/// The fixed string of the marker type `V`.
#[derive(Debug, Default, Eq, PartialEq)]
pub struct Literal<V: LiteralValue>(PhantomData<V>);

impl<V: LiteralValue> Clone for Literal<V> {
    fn clone(&self) -> (copy: Self) {
        Literal(PhantomData)
    }
}

impl<V: LiteralValue> Copy for Literal<V> {

}

impl<V: LiteralValue> Literal<V> {
    /// The node of the literal; there is only one.
    pub fn new() -> Self {
        Literal(PhantomData)
    }
}

impl<V: LiteralValue> PegAstNode for Literal<V> {
    type Tree = ();

    open spec fn well_formed() -> bool {
        true
    }

    open spec fn tree(&self) -> () {
        ()
    }

    open spec fn text(tree: ()) -> Seq<char> {
        V::LITERAL@
    }

    open spec fn spec_parse(stream: Seq<char>) -> Outcome<()> {
        if V::LITERAL@.is_prefix_of(stream) {
            Outcome::Accepted { tree: (), length: V::LITERAL@.len() }
        } else {
            Outcome::Rejected { expected: Self::spec_expecting(), offset: 0 }
        }
    }

    open spec fn spec_expecting() -> Seq<Seq<char>> {
        seq![V::LITERAL@]
    }

    fn parse<I: Input>(input: &mut I) -> (result: Result<Self, ParseError>) {
        if input.consume(V::LITERAL) {
            Ok(Literal(PhantomData))
        } else {
            Err(ParseError { expected: Self::expecting(), position: input.position() })
        }
    }

    fn parsed_string(&self) -> (text: Cow<'_, str>) {
        Cow::Borrowed(V::LITERAL)
    }

    fn expecting() -> (expected: Vec<String>) {
        let expected = vec![V::LITERAL.to_owned()];
        assert(expected.deep_view() =~= Self::spec_expecting());
        expected
    }
}

/// A literal consumes its own text and renders it.
pub proof fn lemma_literal_faithful<V: LiteralValue>()
    ensures
        faithful::<Literal<V>>(),
{
    assert forall|stream: Seq<char>| #[trigger] faithful_on::<Literal<V>>(stream) by {
        if V::LITERAL@.is_prefix_of(stream) {
            assert(V::LITERAL@ =~= stream.take(V::LITERAL@.len() as int));
        }
    }
}

} // verus!
