use vstd::prelude::*;
use std::borrow::Cow;
use crate::input::Input;
use crate::rules::all_of::then;
use crate::rules::zero_or_more::{joined, lemma_repeated_prefix, never_empty, repeated, trees_of};
use crate::text::as_str;
use crate::{faithful, faithful_on, Outcome, ParseError, PegAstNode};

verus! {

/// One `T` that must be there, followed by as many more as can be parsed.
#[derive(Clone, Debug, Eq, PartialEq)]
pub struct OneOrMore<T> {
    pub head: T,
    pub tail: Vec<T>,
}

impl<T> OneOrMore<T> {
    /// The nodes in order: the head, then the tail.
    pub fn iter(&self) -> (nodes: Vec<&T>)
        ensures
            nodes@.len() == self.tail@.len() + 1,
            *nodes@[0] == self.head,
            forall|i: int| 0 <= i < self.tail@.len() ==> *#[trigger] nodes@[i + 1] == self.tail@[i],
    {
        let mut nodes: Vec<&T> = Vec::new();
        nodes.push(&self.head);
        let mut index: usize = 0;
        while index < self.tail.len()
            invariant
                index <= self.tail.len(),
                nodes@.len() == index + 1,
                *nodes@[0] == self.head,
                forall|i: int| 0 <= i < index ==> *#[trigger] nodes@[i + 1] == self.tail@[i],
            decreases self.tail.len() - index,
        {
            nodes.push(&self.tail[index]);
            index = index + 1;
        }
        nodes
    }
}

impl<T: PegAstNode> PegAstNode for OneOrMore<T> {
    type Tree = (T::Tree, Seq<T::Tree>);

    open spec fn well_formed() -> bool {
        T::well_formed() && never_empty::<T>()
    }

    open spec fn tree(&self) -> (T::Tree, Seq<T::Tree>) {
        (self.head.tree(), trees_of::<T>(self.tail@))
    }

    open spec fn text(tree: (T::Tree, Seq<T::Tree>)) -> Seq<char> {
        T::text(tree.0) + joined::<T>(tree.1)
    }

    open spec fn spec_parse(stream: Seq<char>) -> Outcome<(T::Tree, Seq<T::Tree>)> {
        then(
            T::spec_parse(stream),
            |taken: nat|
                Outcome::Accepted {
                    tree: repeated::<T>(stream.skip(taken as int)).0,
                    length: repeated::<T>(stream.skip(taken as int)).1,
                },
        )
    }

    open spec fn spec_expecting() -> Seq<Seq<char>> {
        T::spec_expecting()
    }

    fn parse<I: Input>(input: &mut I) -> (result: Result<Self, ParseError>) {
        let ghost stream = input.remaining();
        let mut view = input.peek_only();
        let head = match T::parse(&mut view) {
            Ok(node) => node,
            Err(error) => {
                proof {
                    view.lemma_settled();
                }
                return Err(error);
            },
        };
        let ghost taken = T::spec_parse(stream)->length;
        let tail = match Vec::<T>::parse(&mut view) {
            Ok(nodes) => nodes,
            Err(error) => {
                proof {
                    view.lemma_settled();
                }
                return Err(error);
            },
        };
        let position = view.position();
        proof {
            view.lemma_settled();
            let more = repeated::<T>(stream.skip(taken as int)).1;
            assert(stream.skip(taken as int).skip(more as int) =~= stream.skip(
                (taken + more) as int,
            ));
        }
        input.advance_to(position);
        Ok(OneOrMore { head, tail })
    }

    fn parsed_string(&self) -> (text: Cow<'_, str>) {
        if self.tail.is_empty() {
            assert(trees_of::<T>(self.tail@) =~= Seq::<T::Tree>::empty());
            assert(T::text(self.head.tree()) + joined::<T>(Seq::<T::Tree>::empty()) =~= T::text(
                self.head.tree(),
            ));
            self.head.parsed_string()
        } else {
            let mut string = String::new();
            string.append(as_str(&self.head.parsed_string()));
            string.append(as_str(&self.tail.parsed_string()));
            assert(string@ =~= Self::text(self.tree()));
            Cow::Owned(string)
        }
    }

    fn expecting() -> (expected: Vec<String>) {
        T::expecting()
    }

    fn parsed_string_length(&self) -> (length: usize) {
        self.head.parsed_string_length() + self.tail.parsed_string_length()
    }
}

/// One or more nodes render what they consumed, head first.
pub proof fn lemma_one_or_more_faithful<T: PegAstNode>()
    requires
        faithful::<T>(),
    ensures
        faithful::<OneOrMore<T>>(),
{
    assert forall|stream: Seq<char>| #[trigger] faithful_on::<OneOrMore<T>>(stream) by {
        assert(faithful_on::<T>(stream));
        if let Outcome::Accepted { tree: head, length: taken } = T::spec_parse(stream) {
            let rest = stream.skip(taken as int);
            lemma_repeated_prefix::<T>(rest);
            assert(stream.take(taken as int) + rest.take(repeated::<T>(rest).1 as int)
                =~= stream.take((taken + repeated::<T>(rest).1) as int));
        }
    }
}

} // verus!
