use vstd::prelude::*;
use std::borrow::Cow;
use crate::input::Input;
use crate::{faithful, faithful_on, Outcome, ParseError, PegAstNode};

verus! {

/// Zero or one `R`: where `R` fails, the rule succeeds with nothing and
/// consumes nothing.
impl<R: PegAstNode> PegAstNode for Option<R> {
    type Tree = Option<R::Tree>;

    open spec fn well_formed() -> bool {
        R::well_formed()
    }

    open spec fn tree(&self) -> Option<R::Tree> {
        match self {
            Some(node) => Some(node.tree()),
            None => None,
        }
    }

    open spec fn text(tree: Option<R::Tree>) -> Seq<char> {
        match tree {
            Some(inner) => R::text(inner),
            None => Seq::empty(),
        }
    }

    open spec fn spec_parse(stream: Seq<char>) -> Outcome<Option<R::Tree>> {
        match R::spec_parse(stream) {
            Outcome::Accepted { tree, length } => Outcome::Accepted { tree: Some(tree), length },
            Outcome::Rejected { .. } => Outcome::Accepted { tree: None, length: 0 },
        }
    }

    open spec fn spec_expecting() -> Seq<Seq<char>> {
        R::spec_expecting().push("or nothing"@)
    }

    fn parse<I: Input>(input: &mut I) -> (result: Result<Self, ParseError>) {
        assert(input.remaining().skip(0) =~= input.remaining());
        match R::parse(input) {
            Ok(node) => Ok(Some(node)),
            Err(_) => Ok(None),
        }
    }

    fn parsed_string(&self) -> (text: Cow<'_, str>) {
        match self {
            Some(node) => node.parsed_string(),
            None => {
                let text = Cow::Borrowed("");
                assert(text@ =~= Seq::<char>::empty()) by {
                    reveal_strlit("");
                }
                text
            },
        }
    }

    fn expecting() -> (expected: Vec<String>) {
        let mut expected = R::expecting();
        let ghost inner = expected.deep_view();
        expected.push("or nothing".to_owned());
        assert(expected.deep_view() =~= inner.push("or nothing"@));
        expected
    }

    fn parsed_string_length(&self) -> (length: usize) {
        match self {
            Some(node) => node.parsed_string_length(),
            None => 0,
        }
    }
}

/// An optional rule renders what it consumed, which is nothing where the rule
/// failed.
pub proof fn lemma_optional_faithful<R: PegAstNode>()
    requires
        faithful::<R>(),
    ensures
        faithful::<Option<R>>(),
{
    assert forall|stream: Seq<char>| #[trigger] faithful_on::<Option<R>>(stream) by {
        assert(faithful_on::<R>(stream));
        assert(stream.take(0) =~= Seq::<char>::empty());
    }
}

} // verus!
