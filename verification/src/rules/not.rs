use vstd::prelude::*;
use std::borrow::Cow;
use std::marker::PhantomData;
use crate::input::Input;
use crate::text::{append_listed, listed};
use crate::{faithful, faithful_on, Outcome, ParseError, PegAstNode};

verus! {

/// Negative lookahead: succeeds where `R` would fail, and consumes nothing.
#[derive(Debug, Default, Eq, PartialEq)]
pub struct Not<R: PegAstNode>(PhantomData<R>);

impl<R: PegAstNode> Clone for Not<R> {
    fn clone(&self) -> (copy: Self) {
        Not(PhantomData)
    }
}

impl<R: PegAstNode> Copy for Not<R> {

}

impl<R: PegAstNode> PegAstNode for Not<R> {
    type Tree = ();

    open spec fn well_formed() -> bool {
        R::well_formed()
    }

    open spec fn tree(&self) -> () {
        ()
    }

    open spec fn text(tree: ()) -> Seq<char> {
        Seq::empty()
    }

    open spec fn spec_parse(stream: Seq<char>) -> Outcome<()> {
        match R::spec_parse(stream) {
            Outcome::Accepted { .. } => Outcome::Rejected {
                expected: Self::spec_expecting(),
                offset: 0,
            },
            Outcome::Rejected { .. } => Outcome::Accepted { tree: (), length: 0 },
        }
    }

    open spec fn spec_expecting() -> Seq<Seq<char>> {
        seq!["not "@ + listed(R::spec_expecting())]
    }

    fn parse<I: Input>(input: &mut I) -> (result: Result<Self, ParseError>) {
        let attempt = {
            let mut view = input.peek_only();
            let attempt = R::parse(&mut view);
            proof {
                view.lemma_settled();
            }
            attempt
        };
        assert(input.remaining().skip(0) =~= input.remaining());
        match attempt {
            Ok(_) => Err(ParseError { expected: Self::expecting(), position: input.position() }),
            Err(_) => Ok(Not(PhantomData)),
        }
    }

    fn parsed_string(&self) -> (text: Cow<'_, str>) {
        let text = Cow::Borrowed("");
        assert(text@ =~= Seq::<char>::empty()) by {
            reveal_strlit("");
        }
        text
    }

    fn expecting() -> (expected: Vec<String>) {
        let mut description = "not ".to_owned();
        let inner = R::expecting();
        append_listed(&mut description, &inner);
        let expected = vec![description];
        assert(expected.deep_view() =~= Self::spec_expecting());
        expected
    }
}

/// A negative lookahead consumes nothing and renders nothing.
pub proof fn lemma_not_faithful<R: PegAstNode>()
    ensures
        faithful::<Not<R>>(),
{
    assert forall|stream: Seq<char>| #[trigger] faithful_on::<Not<R>>(stream) by {
        assert(stream.take(0) =~= Seq::<char>::empty());
    }
}

} // verus!
