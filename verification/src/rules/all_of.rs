use vstd::prelude::*;
use std::borrow::Cow;
use crate::input::Input;
use crate::text::as_str;
use crate::{faithful, faithful_on, Outcome, ParseError, PegAstNode};

verus! {

/// One rule after another: `first`, and where it accepted, what `second`
/// makes of the stream behind the characters that `first` consumed.
///
/// A failure of the second rule is reported where it was detected, so its
/// offset counts from the start of the first.
pub open spec fn then<X, Y>(first: Outcome<X>, second: spec_fn(nat) -> Outcome<Y>) -> Outcome<
    (X, Y),
> {
    match first {
        Outcome::Rejected { expected, offset } => Outcome::Rejected { expected, offset },
        Outcome::Accepted { tree: head, length: taken } => match second(taken) {
            Outcome::Rejected { expected, offset } => Outcome::Rejected {
                expected,
                offset: taken + offset,
            },
            Outcome::Accepted { tree: tail, length: more } => Outcome::Accepted {
                tree: (head, tail),
                length: taken + more,
            },
        },
    }
}

/// A sequence of one position.
impl<A: PegAstNode> PegAstNode for (A,) {
    type Tree = (A::Tree,);

    open spec fn well_formed() -> bool {
        A::well_formed()
    }

    open spec fn tree(&self) -> (A::Tree,) {
        (self.0.tree(),)
    }

    open spec fn text(tree: (A::Tree,)) -> Seq<char> {
        A::text(tree.0)
    }

    open spec fn spec_parse(stream: Seq<char>) -> Outcome<(A::Tree,)> {
        match A::spec_parse(stream) {
            Outcome::Accepted { tree, length } => Outcome::Accepted { tree: (tree,), length },
            Outcome::Rejected { expected, offset } => Outcome::Rejected { expected, offset },
        }
    }

    open spec fn spec_expecting() -> Seq<Seq<char>> {
        A::spec_expecting()
    }

    fn parse<I: Input>(input: &mut I) -> (result: Result<Self, ParseError>) {
        let mut view = input.peek_only();
        let a = match A::parse(&mut view) {
            Ok(node) => node,
            Err(error) => {
                proof {
                    view.lemma_settled();
                }
                return Err(error);
            },
        };
        let position = view.position();
        proof {
            view.lemma_settled();
        }
        input.advance_to(position);
        Ok((a,))
    }

    fn parsed_string(&self) -> (text: Cow<'_, str>) {
        let mut string = String::new();
        string.append(as_str(&self.0.parsed_string()));
        assert(string@ =~= A::text(self.0.tree()));
        Cow::Owned(string)
    }

    fn expecting() -> (expected: Vec<String>) {
        A::expecting()
    }
}

/// A sequence of two positions, parsed in order through one view.
impl<A: PegAstNode, B: PegAstNode> PegAstNode for (A, B) {
    type Tree = (A::Tree, B::Tree);

    open spec fn well_formed() -> bool {
        A::well_formed() && B::well_formed()
    }

    open spec fn tree(&self) -> (A::Tree, B::Tree) {
        (self.0.tree(), self.1.tree())
    }

    open spec fn text(tree: (A::Tree, B::Tree)) -> Seq<char> {
        A::text(tree.0) + B::text(tree.1)
    }

    open spec fn spec_parse(stream: Seq<char>) -> Outcome<(A::Tree, B::Tree)> {
        then(A::spec_parse(stream), |taken: nat| B::spec_parse(stream.skip(taken as int)))
    }

    open spec fn spec_expecting() -> Seq<Seq<char>> {
        A::spec_expecting()
    }

    fn parse<I: Input>(input: &mut I) -> (result: Result<Self, ParseError>) {
        let ghost stream = input.remaining();
        let mut view = input.peek_only();
        let a = match A::parse(&mut view) {
            Ok(node) => node,
            Err(error) => {
                proof {
                    view.lemma_settled();
                }
                return Err(error);
            },
        };
        let b = match B::parse(&mut view) {
            Ok(node) => node,
            Err(error) => {
                proof {
                    view.lemma_settled();
                }
                return Err(error);
            },
        };
        let position = view.position();
        proof {
            view.lemma_settled();
            let taken = A::spec_parse(stream)->length;
            let more = B::spec_parse(stream.skip(taken as int))->length;
            assert(stream.skip(taken as int).skip(more as int) =~= stream.skip(
                (taken + more) as int,
            ));
        }
        input.advance_to(position);
        Ok((a, b))
    }

    fn parsed_string(&self) -> (text: Cow<'_, str>) {
        let mut string = String::new();
        string.append(as_str(&self.0.parsed_string()));
        string.append(as_str(&self.1.parsed_string()));
        assert(string@ =~= A::text(self.0.tree()) + B::text(self.1.tree()));
        Cow::Owned(string)
    }

    fn expecting() -> (expected: Vec<String>) {
        A::expecting()
    }
}

/// A sequence of three positions, parsed in order through one view.
impl<A: PegAstNode, B: PegAstNode, C: PegAstNode> PegAstNode for (A, B, C) {
    type Tree = (A::Tree, B::Tree, C::Tree);

    open spec fn well_formed() -> bool {
        A::well_formed() && B::well_formed() && C::well_formed()
    }

    open spec fn tree(&self) -> (A::Tree, B::Tree, C::Tree) {
        (self.0.tree(), self.1.tree(), self.2.tree())
    }

    open spec fn text(tree: (A::Tree, B::Tree, C::Tree)) -> Seq<char> {
        <(A, B)>::text((tree.0, tree.1)) + C::text(tree.2)
    }

    open spec fn spec_parse(stream: Seq<char>) -> Outcome<(A::Tree, B::Tree, C::Tree)> {
        match then(
            <(A, B)>::spec_parse(stream),
            |taken: nat| C::spec_parse(stream.skip(taken as int)),
        ) {
            Outcome::Accepted { tree, length } => Outcome::Accepted {
                tree: (tree.0.0, tree.0.1, tree.1),
                length,
            },
            Outcome::Rejected { expected, offset } => Outcome::Rejected { expected, offset },
        }
    }

    open spec fn spec_expecting() -> Seq<Seq<char>> {
        A::spec_expecting()
    }

    fn parse<I: Input>(input: &mut I) -> (result: Result<Self, ParseError>) {
        let ghost stream = input.remaining();
        let mut view = input.peek_only();
        let a = match A::parse(&mut view) {
            Ok(node) => node,
            Err(error) => {
                proof {
                    view.lemma_settled();
                }
                return Err(error);
            },
        };
        let ghost taken_a = A::spec_parse(stream)->length;
        let b = match B::parse(&mut view) {
            Ok(node) => node,
            Err(error) => {
                proof {
                    view.lemma_settled();
                    assert(<(A, B)>::spec_parse(stream) is Rejected);
                    assert(<(A, B, C)>::spec_parse(stream) is Rejected);
                }
                return Err(error);
            },
        };
        let ghost taken_b = taken_a + B::spec_parse(stream.skip(taken_a as int))->length;
        assert(stream.skip(taken_a as int).skip((taken_b - taken_a) as int) =~= stream.skip(
            taken_b as int,
        ));
        assert(<(A, B)>::spec_parse(stream) == (Outcome::Accepted {
            tree: (a.tree(), b.tree()),
            length: taken_b,
        }));
        let c = match C::parse(&mut view) {
            Ok(node) => node,
            Err(error) => {
                proof {
                    view.lemma_settled();
                    assert(<(A, B, C)>::spec_parse(stream) is Rejected);
                }
                return Err(error);
            },
        };
        let ghost taken_c = taken_b + C::spec_parse(stream.skip(taken_b as int))->length;
        assert(stream.skip(taken_b as int).skip((taken_c - taken_b) as int) =~= stream.skip(
            taken_c as int,
        ));
        assert(<(A, B, C)>::spec_parse(stream) == (Outcome::Accepted {
            tree: (a.tree(), b.tree(), c.tree()),
            length: taken_c,
        }));
        let position = view.position();
        proof {
            view.lemma_settled();
        }
        input.advance_to(position);
        Ok((a, b, c))
    }

    fn parsed_string(&self) -> (text: Cow<'_, str>) {
        let mut string = String::new();
        string.append(as_str(&self.0.parsed_string()));
        string.append(as_str(&self.1.parsed_string()));
        string.append(as_str(&self.2.parsed_string()));
        assert(string@ =~= A::text(self.0.tree()) + B::text(self.1.tree()) + C::text(
            self.2.tree(),
        ));
        assert(string@ =~= Self::text(self.tree()));
        Cow::Owned(string)
    }

    fn expecting() -> (expected: Vec<String>) {
        A::expecting()
    }
}

/// A sequence of four positions, parsed in order through one view.
impl<A: PegAstNode, B: PegAstNode, C: PegAstNode, D: PegAstNode> PegAstNode for (A, B, C, D) {
    type Tree = (A::Tree, B::Tree, C::Tree, D::Tree);

    open spec fn well_formed() -> bool {
        A::well_formed() && B::well_formed() && C::well_formed() && D::well_formed()
    }

    open spec fn tree(&self) -> (A::Tree, B::Tree, C::Tree, D::Tree) {
        (self.0.tree(), self.1.tree(), self.2.tree(), self.3.tree())
    }

    open spec fn text(tree: (A::Tree, B::Tree, C::Tree, D::Tree)) -> Seq<char> {
        <(A, B, C)>::text((tree.0, tree.1, tree.2)) + D::text(tree.3)
    }

    open spec fn spec_parse(stream: Seq<char>) -> Outcome<(A::Tree, B::Tree, C::Tree, D::Tree)> {
        match then(
            <(A, B, C)>::spec_parse(stream),
            |taken: nat| D::spec_parse(stream.skip(taken as int)),
        ) {
            Outcome::Accepted { tree, length } => Outcome::Accepted {
                tree: (tree.0.0, tree.0.1, tree.0.2, tree.1),
                length,
            },
            Outcome::Rejected { expected, offset } => Outcome::Rejected { expected, offset },
        }
    }

    open spec fn spec_expecting() -> Seq<Seq<char>> {
        A::spec_expecting()
    }

    fn parse<I: Input>(input: &mut I) -> (result: Result<Self, ParseError>) {
        let ghost stream = input.remaining();
        let mut view = input.peek_only();
        let a = match A::parse(&mut view) {
            Ok(node) => node,
            Err(error) => {
                proof {
                    view.lemma_settled();
                }
                return Err(error);
            },
        };
        let ghost taken_a = A::spec_parse(stream)->length;
        let b = match B::parse(&mut view) {
            Ok(node) => node,
            Err(error) => {
                proof {
                    view.lemma_settled();
                    assert(<(A, B)>::spec_parse(stream) is Rejected);
                    assert(<(A, B, C)>::spec_parse(stream) is Rejected);
                    assert(<(A, B, C, D)>::spec_parse(stream) is Rejected);
                }
                return Err(error);
            },
        };
        let ghost taken_b = taken_a + B::spec_parse(stream.skip(taken_a as int))->length;
        assert(stream.skip(taken_a as int).skip((taken_b - taken_a) as int) =~= stream.skip(
            taken_b as int,
        ));
        assert(<(A, B)>::spec_parse(stream) == (Outcome::Accepted {
            tree: (a.tree(), b.tree()),
            length: taken_b,
        }));
        let c = match C::parse(&mut view) {
            Ok(node) => node,
            Err(error) => {
                proof {
                    view.lemma_settled();
                    assert(<(A, B, C)>::spec_parse(stream) is Rejected);
                    assert(<(A, B, C, D)>::spec_parse(stream) is Rejected);
                }
                return Err(error);
            },
        };
        let ghost taken_c = taken_b + C::spec_parse(stream.skip(taken_b as int))->length;
        assert(stream.skip(taken_b as int).skip((taken_c - taken_b) as int) =~= stream.skip(
            taken_c as int,
        ));
        assert(<(A, B, C)>::spec_parse(stream) == (Outcome::Accepted {
            tree: (a.tree(), b.tree(), c.tree()),
            length: taken_c,
        }));
        let d = match D::parse(&mut view) {
            Ok(node) => node,
            Err(error) => {
                proof {
                    view.lemma_settled();
                    assert(<(A, B, C, D)>::spec_parse(stream) is Rejected);
                }
                return Err(error);
            },
        };
        let ghost taken_d = taken_c + D::spec_parse(stream.skip(taken_c as int))->length;
        assert(stream.skip(taken_c as int).skip((taken_d - taken_c) as int) =~= stream.skip(
            taken_d as int,
        ));
        assert(<(A, B, C, D)>::spec_parse(stream) == (Outcome::Accepted {
            tree: (a.tree(), b.tree(), c.tree(), d.tree()),
            length: taken_d,
        }));
        let position = view.position();
        proof {
            view.lemma_settled();
        }
        input.advance_to(position);
        Ok((a, b, c, d))
    }

    fn parsed_string(&self) -> (text: Cow<'_, str>) {
        let mut string = String::new();
        string.append(as_str(&self.0.parsed_string()));
        string.append(as_str(&self.1.parsed_string()));
        string.append(as_str(&self.2.parsed_string()));
        string.append(as_str(&self.3.parsed_string()));
        assert(string@ =~= A::text(self.0.tree()) + B::text(self.1.tree()) + C::text(self.2.tree())
            + D::text(self.3.tree()));
        assert(string@ =~= Self::text(self.tree()));
        Cow::Owned(string)
    }

    fn expecting() -> (expected: Vec<String>) {
        A::expecting()
    }
}

/// A sequence of five positions, parsed in order through one view.
impl<A: PegAstNode, B: PegAstNode, C: PegAstNode, D: PegAstNode, E: PegAstNode> PegAstNode for (
    A,
    B,
    C,
    D,
    E,
) {
    type Tree = (A::Tree, B::Tree, C::Tree, D::Tree, E::Tree);

    open spec fn well_formed() -> bool {
        A::well_formed() && B::well_formed() && C::well_formed() && D::well_formed()
            && E::well_formed()
    }

    open spec fn tree(&self) -> (A::Tree, B::Tree, C::Tree, D::Tree, E::Tree) {
        (self.0.tree(), self.1.tree(), self.2.tree(), self.3.tree(), self.4.tree())
    }

    open spec fn text(tree: (A::Tree, B::Tree, C::Tree, D::Tree, E::Tree)) -> Seq<char> {
        <(A, B, C, D)>::text((tree.0, tree.1, tree.2, tree.3)) + E::text(tree.4)
    }

    open spec fn spec_parse(stream: Seq<char>) -> Outcome<
        (A::Tree, B::Tree, C::Tree, D::Tree, E::Tree),
    > {
        match then(
            <(A, B, C, D)>::spec_parse(stream),
            |taken: nat| E::spec_parse(stream.skip(taken as int)),
        ) {
            Outcome::Accepted { tree, length } => Outcome::Accepted {
                tree: (tree.0.0, tree.0.1, tree.0.2, tree.0.3, tree.1),
                length,
            },
            Outcome::Rejected { expected, offset } => Outcome::Rejected { expected, offset },
        }
    }

    open spec fn spec_expecting() -> Seq<Seq<char>> {
        A::spec_expecting()
    }

    fn parse<I: Input>(input: &mut I) -> (result: Result<Self, ParseError>) {
        let ghost stream = input.remaining();
        let mut view = input.peek_only();
        let a = match A::parse(&mut view) {
            Ok(node) => node,
            Err(error) => {
                proof {
                    view.lemma_settled();
                }
                return Err(error);
            },
        };
        let ghost taken_a = A::spec_parse(stream)->length;
        let b = match B::parse(&mut view) {
            Ok(node) => node,
            Err(error) => {
                proof {
                    view.lemma_settled();
                    assert(<(A, B)>::spec_parse(stream) is Rejected);
                    assert(<(A, B, C)>::spec_parse(stream) is Rejected);
                    assert(<(A, B, C, D)>::spec_parse(stream) is Rejected);
                    assert(<(A, B, C, D, E)>::spec_parse(stream) is Rejected);
                }
                return Err(error);
            },
        };
        let ghost taken_b = taken_a + B::spec_parse(stream.skip(taken_a as int))->length;
        assert(stream.skip(taken_a as int).skip((taken_b - taken_a) as int) =~= stream.skip(
            taken_b as int,
        ));
        assert(<(A, B)>::spec_parse(stream) == (Outcome::Accepted {
            tree: (a.tree(), b.tree()),
            length: taken_b,
        }));
        let c = match C::parse(&mut view) {
            Ok(node) => node,
            Err(error) => {
                proof {
                    view.lemma_settled();
                    assert(<(A, B, C)>::spec_parse(stream) is Rejected);
                    assert(<(A, B, C, D)>::spec_parse(stream) is Rejected);
                    assert(<(A, B, C, D, E)>::spec_parse(stream) is Rejected);
                }
                return Err(error);
            },
        };
        let ghost taken_c = taken_b + C::spec_parse(stream.skip(taken_b as int))->length;
        assert(stream.skip(taken_b as int).skip((taken_c - taken_b) as int) =~= stream.skip(
            taken_c as int,
        ));
        assert(<(A, B, C)>::spec_parse(stream) == (Outcome::Accepted {
            tree: (a.tree(), b.tree(), c.tree()),
            length: taken_c,
        }));
        let d = match D::parse(&mut view) {
            Ok(node) => node,
            Err(error) => {
                proof {
                    view.lemma_settled();
                    assert(<(A, B, C, D)>::spec_parse(stream) is Rejected);
                    assert(<(A, B, C, D, E)>::spec_parse(stream) is Rejected);
                }
                return Err(error);
            },
        };
        let ghost taken_d = taken_c + D::spec_parse(stream.skip(taken_c as int))->length;
        assert(stream.skip(taken_c as int).skip((taken_d - taken_c) as int) =~= stream.skip(
            taken_d as int,
        ));
        assert(<(A, B, C, D)>::spec_parse(stream) == (Outcome::Accepted {
            tree: (a.tree(), b.tree(), c.tree(), d.tree()),
            length: taken_d,
        }));
        let e = match E::parse(&mut view) {
            Ok(node) => node,
            Err(error) => {
                proof {
                    view.lemma_settled();
                    assert(<(A, B, C, D, E)>::spec_parse(stream) is Rejected);
                }
                return Err(error);
            },
        };
        let ghost taken_e = taken_d + E::spec_parse(stream.skip(taken_d as int))->length;
        assert(stream.skip(taken_d as int).skip((taken_e - taken_d) as int) =~= stream.skip(
            taken_e as int,
        ));
        assert(<(A, B, C, D, E)>::spec_parse(stream) == (Outcome::Accepted {
            tree: (a.tree(), b.tree(), c.tree(), d.tree(), e.tree()),
            length: taken_e,
        }));
        let position = view.position();
        proof {
            view.lemma_settled();
        }
        input.advance_to(position);
        Ok((a, b, c, d, e))
    }

    fn parsed_string(&self) -> (text: Cow<'_, str>) {
        let mut string = String::new();
        string.append(as_str(&self.0.parsed_string()));
        string.append(as_str(&self.1.parsed_string()));
        string.append(as_str(&self.2.parsed_string()));
        string.append(as_str(&self.3.parsed_string()));
        string.append(as_str(&self.4.parsed_string()));
        assert(string@ =~= A::text(self.0.tree()) + B::text(self.1.tree()) + C::text(self.2.tree())
            + D::text(self.3.tree()) + E::text(self.4.tree()));
        assert(string@ =~= Self::text(self.tree()));
        Cow::Owned(string)
    }

    fn expecting() -> (expected: Vec<String>) {
        A::expecting()
    }
}

/// A sequence of one position renders what its position consumed.
pub proof fn lemma_single_faithful<A: PegAstNode>()
    requires
        faithful::<A>(),
    ensures
        faithful::<(A,)>(),
{
    assert forall|stream: Seq<char>| #[trigger] faithful_on::<(A,)>(stream) by {
        assert(faithful_on::<A>(stream));
    }
}

/// A sequence of two positions renders what its positions consumed, in order.
pub proof fn lemma_pair_faithful<A: PegAstNode, B: PegAstNode>()
    requires
        faithful::<A>(),
        faithful::<B>(),
    ensures
        faithful::<(A, B)>(),
{
    assert forall|stream: Seq<char>| #[trigger] faithful_on::<(A, B)>(stream) by {
        assert(faithful_on::<A>(stream));
        if let Outcome::Accepted { tree: head, length: taken } = A::spec_parse(stream) {
            let rest = stream.skip(taken as int);
            assert(faithful_on::<B>(rest));
            if let Outcome::Accepted { tree: tail, length: more } = B::spec_parse(rest) {
                assert(stream.take(taken as int) + rest.take(more as int) =~= stream.take(
                    (taken + more) as int,
                ));
            }
        }
    }
}

/// A sequence of three positions renders what its positions consumed, in order.
pub proof fn lemma_sequence_of_three_faithful<A: PegAstNode, B: PegAstNode, C: PegAstNode>()
    requires
        faithful::<A>(),
        faithful::<B>(),
        faithful::<C>(),
    ensures
        faithful::<(A, B, C)>(),
{
    assert forall|stream: Seq<char>| #[trigger] faithful_on::<(A, B, C)>(stream) by {
        lemma_pair_faithful::<A, B>();
        assert(faithful_on::<(A, B)>(stream));
        if let Outcome::Accepted { tree: head, length: taken } = <(A, B)>::spec_parse(stream) {
            let rest = stream.skip(taken as int);
            assert(faithful_on::<C>(rest));
            if let Outcome::Accepted { tree: tail, length: more } = C::spec_parse(rest) {
                assert(stream.take(taken as int) + rest.take(more as int) =~= stream.take(
                    (taken + more) as int,
                ));
            }
        }
    }
}

/// A sequence of four positions renders what its positions consumed, in order.
pub proof fn lemma_sequence_of_four_faithful<
    A: PegAstNode,
    B: PegAstNode,
    C: PegAstNode,
    D: PegAstNode,
>()
    requires
        faithful::<A>(),
        faithful::<B>(),
        faithful::<C>(),
        faithful::<D>(),
    ensures
        faithful::<(A, B, C, D)>(),
{
    assert forall|stream: Seq<char>| #[trigger] faithful_on::<(A, B, C, D)>(stream) by {
        lemma_sequence_of_three_faithful::<A, B, C>();
        assert(faithful_on::<(A, B, C)>(stream));
        if let Outcome::Accepted { tree: head, length: taken } = <(A, B, C)>::spec_parse(stream) {
            let rest = stream.skip(taken as int);
            assert(faithful_on::<D>(rest));
            if let Outcome::Accepted { tree: tail, length: more } = D::spec_parse(rest) {
                assert(stream.take(taken as int) + rest.take(more as int) =~= stream.take(
                    (taken + more) as int,
                ));
            }
        }
    }
}

/// A sequence of five positions renders what its positions consumed, in order.
pub proof fn lemma_sequence_of_five_faithful<
    A: PegAstNode,
    B: PegAstNode,
    C: PegAstNode,
    D: PegAstNode,
    E: PegAstNode,
>()
    requires
        faithful::<A>(),
        faithful::<B>(),
        faithful::<C>(),
        faithful::<D>(),
        faithful::<E>(),
    ensures
        faithful::<(A, B, C, D, E)>(),
{
    assert forall|stream: Seq<char>| #[trigger] faithful_on::<(A, B, C, D, E)>(stream) by {
        lemma_sequence_of_four_faithful::<A, B, C, D>();
        assert(faithful_on::<(A, B, C, D)>(stream));
        if let Outcome::Accepted { tree: head, length: taken } = <(A, B, C, D)>::spec_parse(stream) {
            let rest = stream.skip(taken as int);
            assert(faithful_on::<E>(rest));
            if let Outcome::Accepted { tree: tail, length: more } = E::spec_parse(rest) {
                assert(stream.take(taken as int) + rest.take(more as int) =~= stream.take(
                    (taken + more) as int,
                ));
            }
        }
    }
}

} // verus!
