use vstd::prelude::*;
use std::borrow::Cow;
use crate::input::Input;
use crate::text::as_str;
use crate::{faithful, faithful_on, Outcome, ParseError, PegAstNode};

verus! {

/// `R` consumes at least one character whenever it succeeds.
///
/// A repetition of a rule that can succeed on nothing would never end, so
/// the repetition rules are well formed only over rules of this kind.
pub open spec fn never_empty<R: PegAstNode>() -> bool {
    forall|stream: Seq<char>|
        (#[trigger] R::spec_parse(stream)) is Accepted ==> R::spec_parse(stream)->length > 0
}

/// `R` applied again and again from the start of `stream` until it fails:
/// the trees in order, and the number of characters consumed in all.
pub open spec fn repeated<R: PegAstNode>(stream: Seq<char>) -> (Seq<R::Tree>, nat)
    decreases stream.len(),
{
    match R::spec_parse(stream) {
        Outcome::Accepted { tree, length } => {
            if 0 < length <= stream.len() {
                let rest = repeated::<R>(stream.skip(length as int));
                (seq![tree] + rest.0, length + rest.1)
            } else {
                (Seq::empty(), 0)
            }
        },
        Outcome::Rejected { .. } => (Seq::empty(), 0),
    }
}

/// The texts of `trees`, one after the other.
pub open spec fn joined<R: PegAstNode>(trees: Seq<R::Tree>) -> Seq<char>
    decreases trees.len(),
{
    if trees.len() == 0 {
        Seq::empty()
    } else {
        R::text(trees.first()) + joined::<R>(trees.drop_first())
    }
}

/// The trees of `nodes`, in order.
pub open spec fn trees_of<R: PegAstNode>(nodes: Seq<R>) -> Seq<R::Tree> {
    Seq::new(nodes.len(), |i: int| nodes[i].tree())
}

/// Joining distributes over concatenation.
pub proof fn lemma_joined_concat<R: PegAstNode>(front: Seq<R::Tree>, back: Seq<R::Tree>)
    ensures
        joined::<R>(front + back) == joined::<R>(front) + joined::<R>(back),
    decreases front.len(),
{
    if front.len() == 0 {
        assert(front + back =~= back);
        assert(joined::<R>(front) + joined::<R>(back) =~= joined::<R>(back));
    } else {
        lemma_joined_concat::<R>(front.drop_first(), back);
        assert((front + back).drop_first() =~= front.drop_first() + back);
        assert((front + back).first() == front.first());
        assert(joined::<R>(front + back) =~= joined::<R>(front) + joined::<R>(back));
    }
}

/// One tree joins to its own text.
pub proof fn lemma_joined_single<R: PegAstNode>(tree: R::Tree)
    ensures
        joined::<R>(seq![tree]) == R::text(tree),
{
    let single = seq![tree];
    assert(single.drop_first() =~= Seq::<R::Tree>::empty());
    assert(joined::<R>(single.drop_first()) =~= Seq::<char>::empty());
    assert(joined::<R>(single) =~= R::text(single.first()) + joined::<R>(single.drop_first()));
    assert(R::text(tree) + Seq::<char>::empty() =~= R::text(tree));
}

/// Joining one more tree appends its text.
pub proof fn lemma_joined_push<R: PegAstNode>(trees: Seq<R::Tree>, tree: R::Tree)
    ensures
        joined::<R>(trees.push(tree)) == joined::<R>(trees) + R::text(tree),
{
    lemma_joined_concat::<R>(trees, seq![tree]);
    assert(trees.push(tree) =~= trees + seq![tree]);
    lemma_joined_single::<R>(tree);
}

/// A part of a joined text is no longer than the whole.
pub proof fn lemma_joined_take<R: PegAstNode>(trees: Seq<R::Tree>, count: int)
    requires
        0 <= count < trees.len(),
    ensures
        joined::<R>(trees.take(count)).len() + R::text(trees[count]).len() <= joined::<R>(
            trees,
        ).len(),
        joined::<R>(trees.take(count + 1)) == joined::<R>(trees.take(count)) + R::text(
            trees[count],
        ),
{
    assert(trees.take(count + 1) =~= trees.take(count).push(trees[count]));
    lemma_joined_push::<R>(trees.take(count), trees[count]);
    assert(trees =~= trees.take(count + 1) + trees.skip(count + 1));
    lemma_joined_concat::<R>(trees.take(count + 1), trees.skip(count + 1));
}

/// A repetition consumes a prefix of the stream, and its trees render
/// exactly that prefix.
pub proof fn lemma_repeated_prefix<R: PegAstNode>(stream: Seq<char>)
    requires
        faithful::<R>(),
    ensures
        repeated::<R>(stream).1 <= stream.len(),
        joined::<R>(repeated::<R>(stream).0) == stream.take(repeated::<R>(stream).1 as int),
    decreases stream.len(),
{
    assert(faithful_on::<R>(stream));
    match R::spec_parse(stream) {
        Outcome::Accepted { tree, length } => {
            if 0 < length <= stream.len() {
                let rest = repeated::<R>(stream.skip(length as int));
                lemma_repeated_prefix::<R>(stream.skip(length as int));
                lemma_joined_concat::<R>(seq![tree], rest.0);
                lemma_joined_single::<R>(tree);
                assert(stream.take(length as int) + stream.skip(length as int).take(rest.1 as int)
                    =~= stream.take((length + rest.1) as int));
            } else {
                assert(stream.take(0) =~= Seq::<char>::empty());
            }
        },
        Outcome::Rejected { .. } => {
            assert(stream.take(0) =~= Seq::<char>::empty());
        },
    }
}

/// Zero or more `R`: the rule applies `R` until it fails and always
/// succeeds.
impl<R: PegAstNode> PegAstNode for Vec<R> {
    type Tree = Seq<R::Tree>;

    open spec fn well_formed() -> bool {
        R::well_formed() && never_empty::<R>()
    }

    open spec fn tree(&self) -> Seq<R::Tree> {
        trees_of::<R>(self@)
    }

    open spec fn text(tree: Seq<R::Tree>) -> Seq<char> {
        joined::<R>(tree)
    }

    open spec fn spec_parse(stream: Seq<char>) -> Outcome<Seq<R::Tree>> {
        Outcome::Accepted { tree: repeated::<R>(stream).0, length: repeated::<R>(stream).1 }
    }

    open spec fn spec_expecting() -> Seq<Seq<char>> {
        R::spec_expecting().push("or nothing"@)
    }

    fn parse<I: Input>(input: &mut I) -> (result: Result<Self, ParseError>) {
        let ghost start = input.remaining();
        let ghost mut consumed: nat = 0;
        let mut nodes: Vec<R> = Vec::new();
        let mut more = true;
        assert(start.skip(0) =~= start);
        assert(trees_of::<R>(nodes@) + repeated::<R>(start).0 =~= repeated::<R>(start).0);
        while more
            invariant
                R::well_formed(),
                never_empty::<R>(),
                input.wf(),
                consumed <= start.len(),
                input.remaining() == start.skip(consumed as int),
                input.spec_position() == old(input).spec_position() + consumed,
                input.backing().remaining() == old(input).backing().remaining(),
                *final(input.backing()) == *final(old(input).backing()),
                repeated::<R>(start).0 == trees_of::<R>(nodes@) + repeated::<R>(
                    input.remaining(),
                ).0,
                repeated::<R>(start).1 == consumed + repeated::<R>(input.remaining()).1,
                !more ==> repeated::<R>(input.remaining()) == (Seq::<R::Tree>::empty(), 0nat),
            decreases
                    input.remaining().len(),
                    (if more {
                        1nat
                    } else {
                        0nat
                    }),
        {
            let ghost current = input.remaining();
            let ghost before = trees_of::<R>(nodes@);
            match R::parse(input) {
                Ok(node) => {
                    nodes.push(node);
                    proof {
                        let length = R::spec_parse(current)->length;
                        let rest = repeated::<R>(current.skip(length as int));
                        assert(current.skip(length as int) =~= start.skip(
                            (consumed + length) as int,
                        ));
                        assert(trees_of::<R>(nodes@) =~= before.push(node.tree()));
                        assert(before.push(node.tree()) + rest.0 =~= before + (seq![node.tree()]
                            + rest.0));
                        consumed = consumed + length;
                    }
                },
                Err(_) => {
                    more = false;
                },
            }
        }
        assert(trees_of::<R>(nodes@) + Seq::<R::Tree>::empty() =~= trees_of::<R>(nodes@));
        Ok(nodes)
    }

    fn parsed_string(&self) -> (text: Cow<'_, str>) {
        let ghost trees = self.tree();
        let mut string = String::new();
        let mut index: usize = 0;
        assert(trees.take(0) =~= Seq::<R::Tree>::empty());
        while index < self.len()
            invariant
                index <= self.len(),
                trees == trees_of::<R>(self@),
                string@ == joined::<R>(trees.take(index as int)),
            decreases self.len() - index,
        {
            let part = self[index].parsed_string();
            proof {
                lemma_joined_take::<R>(trees, index as int);
            }
            string.append(as_str(&part));
            index = index + 1;
        }
        assert(trees.take(self.len() as int) =~= trees);
        Cow::Owned(string)
    }

    fn expecting() -> (expected: Vec<String>) {
        let mut expected = R::expecting();
        let ghost inner = expected.deep_view();
        expected.push("or nothing".to_owned());
        assert(expected.deep_view() =~= inner.push("or nothing"@));
        expected
    }

    fn parsed_string_length(&self) -> (length: usize) {
        let ghost trees = self.tree();
        let mut length: usize = 0;
        let mut index: usize = 0;
        assert(trees.take(0) =~= Seq::<R::Tree>::empty());
        while index < self.len()
            invariant
                index <= self.len(),
                trees == trees_of::<R>(self@),
                joined::<R>(trees).len() <= usize::MAX,
                length == joined::<R>(trees.take(index as int)).len(),
            decreases self.len() - index,
        {
            proof {
                lemma_joined_take::<R>(trees, index as int);
            }
            length = length + self[index].parsed_string_length();
            index = index + 1;
        }
        assert(trees.take(self.len() as int) =~= trees);
        length
    }
}

/// A repetition renders what its nodes consumed, in order.
pub proof fn lemma_zero_or_more_faithful<R: PegAstNode>()
    requires
        faithful::<R>(),
    ensures
        faithful::<Vec<R>>(),
{
    assert forall|stream: Seq<char>| #[trigger] faithful_on::<Vec<R>>(stream) by {
        lemma_repeated_prefix::<R>(stream);
    }
}

} // verus!
