//! A composable parsing engine in the style of parsing expression grammars.
//!
//! Grammar rules are types. Each rule implements [`PegAstNode`]: it parses a
//! node of its own type from an [`input::Input`], renders the exact text that
//! the node was parsed from, and describes what it expects. The rules of
//! [`rules`] are the building blocks: single characters, literals, ranges,
//! lookahead, repetition, sequences, alternation, and sets of entries in
//! any order with bounds on how often each may occur.
//!
//! Every rule comes with its model: `spec_parse` gives, for each stream of
//! characters, the tree and the number of characters consumed, or the
//! failure and its place. `parse` is proved to compute exactly that, and to
//! leave the input where it was when the rule fails. What holds of the
//! models in general is stated in [`laws`].

pub mod input;
pub mod laws;
pub mod rules;
pub mod text;

use vstd::prelude::*;
use std::borrow::Cow;
use crate::input::{moved, unmoved, Input};
use crate::text::{append_bulleted, append_decimal, bulleted, decimal};

verus! {

/// A failed parse: what was expected, and the place in the stream where the
/// failure was detected.
#[derive(Debug)]
pub struct ParseError {
    pub expected: Vec<String>,
    pub position: usize,
}

impl ParseError {
    /// The descriptions of what was expected, as mathematical values.
    pub open spec fn descriptions(&self) -> Seq<Seq<char>> {
        self.expected.deep_view()
    }

    /// What the second line of the message says was expected: `nothing`,
    /// the one description, or a header followed by a bulleted line for
    /// each description.
    pub open spec fn expectation(&self) -> Seq<char> {
        if self.descriptions().len() == 0 {
            " nothing\n"@
        } else if self.descriptions().len() == 1 {
            " "@ + self.descriptions()[0] + "\n"@
        } else {
            " one of:\n"@ + bulleted(self.descriptions())
        }
    }

    /// The error's message: the position on the first line, and on the
    /// second what was expected.
    pub open spec fn message(&self) -> Seq<char> {
        "Failed to parse input at "@ + decimal(self.position as nat) + "\n  Expected:"@
            + self.expectation()
    }

    /// The error's message.
    pub fn to_string(&self) -> (message: String)
        ensures
            message@ == self.message(),
    {
        let ghost lines = self.expected.deep_view();
        assert(lines.len() == self.expected.len());
        let mut message = "Failed to parse input at ".to_owned();
        append_decimal(&mut message, self.position);
        message.append("\n  Expected:");
        if self.expected.len() == 0 {
            message.append(" nothing\n");
        } else if self.expected.len() == 1 {
            assert(lines[0] == self.expected[0]@);
            message.append(" ");
            message.append(self.expected[0].as_str());
            message.append("\n");
        } else {
            message.append(" one of:\n");
            append_bulleted(&mut message, &self.expected);
        }
        assert(message@ =~= self.message());
        message
    }
}

/// What a rule makes of a stream, as a mathematical value.
///
/// `Accepted` carries the syntax tree and the number of characters consumed;
/// `Rejected` carries the descriptions of what was expected and the distance
/// from the start of the attempt to the place where it failed.
pub enum Outcome<T> {
    Accepted { tree: T, length: nat },
    Rejected { expected: Seq<Seq<char>>, offset: nat },
}

/// A grammar rule and the syntax node it produces.
///
/// `spec_parse` is the rule as a function of the stream that lies ahead;
/// `parse` computes it on an input. `Tree` is the node as a mathematical
/// value and `text` the characters it stands for. Two nodes are the same
/// where their trees are equal.
///
/// The functions of the model have bodies that say nothing, so that a type
/// can implement the trait in ordinary Rust by giving `Tree`, `parse`,
/// `parsed_string` and `expecting` alone. Such a type is not well formed,
/// and nothing is known of a rule that is built on it. Every rule of this
/// library defines the model in full.
pub trait PegAstNode: Sized {
    type Tree;

    /// What the grammar rooted at this type must satisfy for `parse` to be
    /// called: a configuration that the rule cannot work with is ruled out
    /// here and never reported as a parse failure.
    open spec fn well_formed() -> bool {
        false
    }

    /// The node as a mathematical value.
    open spec fn tree(&self) -> Self::Tree {
        arbitrary()
    }

    /// The characters that a tree stands for.
    open spec fn text(tree: Self::Tree) -> Seq<char> {
        arbitrary()
    }

    /// The rule as a function of the stream that lies ahead.
    open spec fn spec_parse(stream: Seq<char>) -> Outcome<Self::Tree> {
        arbitrary()
    }

    /// The descriptions of what the rule matches. They belong to the type
    /// and not to any one node.
    open spec fn spec_expecting() -> Seq<Seq<char>> {
        arbitrary()
    }

    /// Applies the rule at the input's place.
    ///
    /// Where the rule accepts, the result is the node and the input has
    /// moved over what the rule consumed. Where it rejects, the result is
    /// the error, which holds what was expected and the place where the
    /// failure was detected, and the input has not moved. Either way the
    /// borrow that a speculative view holds is left in place, which the last
    /// clause states.
    fn parse<I: Input>(input: &mut I) -> (result: Result<Self, ParseError>)
        requires
            Self::well_formed(),
            old(input).wf(),
        ensures
            match Self::spec_parse(old(input).remaining()) {
                Outcome::Accepted { tree, length } => {
                    &&& result matches Ok(node)
                    &&& node.tree() == tree
                    &&& moved(old(input), final(input), length)
                },
                Outcome::Rejected { expected, offset } => {
                    &&& result matches Err(error)
                    &&& error.expected.deep_view() == expected
                    &&& error.position == old(input).spec_position() + offset
                    &&& unmoved(old(input), final(input))
                },
            },
            *final(final(input).backing()) == *final(old(input).backing()),
    ;

    /// The text that the node was parsed from.
    fn parsed_string(&self) -> (text: Cow<'_, str>)
        ensures
            text@ == Self::text(self.tree()),
    ;

    /// The descriptions of what the rule matches, for error messages.
    fn expecting() -> (expected: Vec<String>)
        ensures
            expected.deep_view() == Self::spec_expecting(),
    ;

    /// The number of characters of the text that the node was parsed from,
    /// which must fit in `usize`.
    fn parsed_string_length(&self) -> (length: usize)
        requires
            Self::text(self.tree()).len() <= usize::MAX,
        ensures
            length == Self::text(self.tree()).len(),
    {
        match self.parsed_string() {
            Cow::Borrowed(text) => text.unicode_len(),
            Cow::Owned(text) => text.as_str().unicode_len(),
        }
    }
}

/// On `stream`, the rule `N` consumes a prefix and the tree it produces
/// renders exactly that prefix; where it fails, the failure is detected
/// within the stream.
pub open spec fn faithful_on<N: PegAstNode>(stream: Seq<char>) -> bool {
    match N::spec_parse(stream) {
        Outcome::Accepted { tree, length } => length <= stream.len() && N::text(tree)
            == stream.take(length as int),
        Outcome::Rejected { offset, .. } => offset <= stream.len(),
    }
}

/// The rule `N` is faithful on every stream.
pub open spec fn faithful<N: PegAstNode>() -> bool {
    forall|stream: Seq<char>| #[trigger] faithful_on::<N>(stream)
}

/// A node in a box is parsed and rendered as the node.
impl<T: PegAstNode> PegAstNode for Box<T> {
    type Tree = T::Tree;

    open spec fn well_formed() -> bool {
        T::well_formed()
    }

    open spec fn tree(&self) -> T::Tree {
        (**self).tree()
    }

    open spec fn text(tree: T::Tree) -> Seq<char> {
        T::text(tree)
    }

    open spec fn spec_parse(stream: Seq<char>) -> Outcome<T::Tree> {
        T::spec_parse(stream)
    }

    open spec fn spec_expecting() -> Seq<Seq<char>> {
        T::spec_expecting()
    }

    fn parse<I: Input>(input: &mut I) -> (result: Result<Self, ParseError>) {
        match T::parse(input) {
            Ok(inner) => Ok(Box::new(inner)),
            Err(error) => Err(error),
        }
    }

    fn parsed_string(&self) -> (text: Cow<'_, str>) {
        (**self).parsed_string()
    }

    fn expecting() -> (expected: Vec<String>) {
        T::expecting()
    }

    fn parsed_string_length(&self) -> (length: usize) {
        (**self).parsed_string_length()
    }
}

/// A boxed node renders what the node in the box consumed.
pub proof fn lemma_boxed_faithful<T: PegAstNode>()
    requires
        faithful::<T>(),
    ensures
        faithful::<Box<T>>(),
{
    assert forall|stream: Seq<char>| #[trigger] faithful_on::<Box<T>>(stream) by {
        assert(faithful_on::<T>(stream));
    }
}

} // verus!
