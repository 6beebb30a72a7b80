use vstd::prelude::*;
use std::borrow::Cow;
use crate::input::Input;
use crate::{faithful, faithful_on, Outcome, ParseError, PegAstNode};

verus! {

/// An alternation of two rules, tried in the order in which they are
/// declared.
///
/// The first alternative that matches wins, even where the second would
/// match as well or consume more. Longer alternations nest: the second
/// alternative may itself be an `Either`.
#[derive(Clone, Debug, Eq, PartialEq)]
pub enum Either<A, B> {
    Left(A),
    Right(B),
}

impl<A: PegAstNode, B: PegAstNode> PegAstNode for Either<A, B> {
    type Tree = Either<A::Tree, B::Tree>;

    open spec fn well_formed() -> bool {
        A::well_formed() && B::well_formed()
    }

    open spec fn tree(&self) -> Either<A::Tree, B::Tree> {
        match self {
            Either::Left(node) => Either::Left(node.tree()),
            Either::Right(node) => Either::Right(node.tree()),
        }
    }

    open spec fn text(tree: Either<A::Tree, B::Tree>) -> Seq<char> {
        match tree {
            Either::Left(inner) => A::text(inner),
            Either::Right(inner) => B::text(inner),
        }
    }

    open spec fn spec_parse(stream: Seq<char>) -> Outcome<Either<A::Tree, B::Tree>> {
        match A::spec_parse(stream) {
            Outcome::Accepted { tree, length } => Outcome::Accepted {
                tree: Either::Left(tree),
                length,
            },
            Outcome::Rejected { .. } => match B::spec_parse(stream) {
                Outcome::Accepted { tree, length } => Outcome::Accepted {
                    tree: Either::Right(tree),
                    length,
                },
                Outcome::Rejected { .. } => Outcome::Rejected {
                    expected: Self::spec_expecting(),
                    offset: 0,
                },
            },
        }
    }

    open spec fn spec_expecting() -> Seq<Seq<char>> {
        A::spec_expecting() + B::spec_expecting()
    }

    fn parse<I: Input>(input: &mut I) -> (result: Result<Self, ParseError>) {
        let first = {
            let mut view = input.peek_only();
            let attempt = A::parse(&mut view);
            let position = view.position();
            proof {
                view.lemma_settled();
            }
            (attempt, position)
        };
        if let Ok(node) = first.0 {
            input.advance_to(first.1);
            return Ok(Either::Left(node));
        }
        let second = {
            let mut view = input.peek_only();
            let attempt = B::parse(&mut view);
            let position = view.position();
            proof {
                view.lemma_settled();
            }
            (attempt, position)
        };
        if let Ok(node) = second.0 {
            input.advance_to(second.1);
            return Ok(Either::Right(node));
        }
        Err(ParseError { expected: Self::expecting(), position: input.position() })
    }

    fn parsed_string(&self) -> (text: Cow<'_, str>) {
        match self {
            Either::Left(node) => node.parsed_string(),
            Either::Right(node) => node.parsed_string(),
        }
    }

    fn expecting() -> (expected: Vec<String>) {
        let mut expected = A::expecting();
        let mut second = B::expecting();
        let ghost front = expected.deep_view();
        let ghost back = second.deep_view();
        expected.append(&mut second);
        assert(expected.deep_view() =~= front + back);
        expected
    }

    fn parsed_string_length(&self) -> (length: usize) {
        match self {
            Either::Left(node) => node.parsed_string_length(),
            Either::Right(node) => node.parsed_string_length(),
        }
    }
}

/// An alternation renders what the alternative that matched consumed.
pub proof fn lemma_either_faithful<A: PegAstNode, B: PegAstNode>()
    requires
        faithful::<A>(),
        faithful::<B>(),
    ensures
        faithful::<Either<A, B>>(),
{
    assert forall|stream: Seq<char>| #[trigger] faithful_on::<Either<A, B>>(stream) by {
        assert(faithful_on::<A>(stream));
        assert(faithful_on::<B>(stream));
    }
}

} // verus!
