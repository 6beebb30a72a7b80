use vstd::prelude::*;
use std::borrow::Cow;
use std::marker::PhantomData;
use crate::input::Input;
use crate::{faithful, faithful_on, Outcome, ParseError, PegAstNode};

verus! {

/// Positive lookahead: succeeds where `R` would succeed, and consumes
/// nothing.
#[derive(Debug, Default, Eq, PartialEq)]
pub struct Peek<R: PegAstNode>(PhantomData<R>);

impl<R: PegAstNode> Clone for Peek<R> {
    fn clone(&self) -> (copy: Self) {
        Peek(PhantomData)
    }
}

impl<R: PegAstNode> Copy for Peek<R> {

}

impl<R: PegAstNode> PegAstNode for Peek<R> {
    type Tree = ();

    open spec fn well_formed() -> bool {
        R::well_formed()
    }

    open spec fn tree(&self) -> () {
        ()
    }

    open spec fn text(tree: ()) -> Seq<char> {
        Seq::empty()
    }

    open spec fn spec_parse(stream: Seq<char>) -> Outcome<()> {
        match R::spec_parse(stream) {
            Outcome::Accepted { .. } => Outcome::Accepted { tree: (), length: 0 },
            Outcome::Rejected { expected, offset } => Outcome::Rejected { expected, offset },
        }
    }

    open spec fn spec_expecting() -> Seq<Seq<char>> {
        R::spec_expecting()
    }

    fn parse<I: Input>(input: &mut I) -> (result: Result<Self, ParseError>) {
        let mut view = input.peek_only();
        let attempt = R::parse(&mut view);
        proof {
            view.lemma_settled();
        }
        assert(input.remaining().skip(0) =~= input.remaining());
        match attempt {
            Ok(_) => Ok(Peek(PhantomData)),
            Err(error) => Err(error),
        }
    }

    fn parsed_string(&self) -> (text: Cow<'_, str>) {
        let text = Cow::Borrowed("");
        assert(text@ =~= Seq::<char>::empty()) by {
            reveal_strlit("");
        }
        text
    }

    fn expecting() -> (expected: Vec<String>) {
        R::expecting()
    }

    fn parsed_string_length(&self) -> (length: usize) {
        0
    }
}

/// A positive lookahead consumes nothing and renders nothing.
pub proof fn lemma_peek_faithful<R: PegAstNode>()
    requires
        faithful::<R>(),
    ensures
        faithful::<Peek<R>>(),
{
    assert forall|stream: Seq<char>| #[trigger] faithful_on::<Peek<R>>(stream) by {
        assert(faithful_on::<R>(stream));
        assert(stream.take(0) =~= Seq::<char>::empty());
    }
}

} // verus!
