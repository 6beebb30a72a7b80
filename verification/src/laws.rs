//! What holds of the rules in general: parsing again what a node renders,
//! repeatable lookahead, the policy of alternations, the bounds that a set
//! keeps, and the lemmas from which a grammar's well-formedness is put
//! together.

use vstd::prelude::*;
use crate::input::buffered_iterator::{leading, BufferedIterator};
use crate::input::source::CharSource;
use crate::rules::any::Any;
use crate::rules::delimitted::Delimitted;
use crate::rules::either::Either;
use crate::rules::literal::{Literal, LiteralValue};
use crate::rules::one_or_more::OneOrMore;
use crate::rules::range::{Range, RangeValue};
use crate::rules::sets::delimitted_set_of::{scanned_delimitted, DelimittedSetOf};
use crate::rules::sets::set_entries::{
    capped,
    lemma_occurrences_push,
    meets_minimums,
    under_cap,
    within_maximums,
    SetEntries,
};
use crate::rules::sets::set_of::{scanned, SetOf};
use crate::rules::zero_or_more::never_empty;
use crate::{faithful, faithful_on, Outcome, PegAstNode};

verus! {

/// Parsing again what a node renders gives the node back.
///
/// Where a faithful rule accepts a stream, and accepts it in the same way
/// when the stream is cut off behind the match, the text of the tree is the
/// consumed prefix, and the rule accepts that text from its start to its
/// end with the same tree.
///
/// The second condition leaves out the streams on which a rule decides by
/// what lies behind its match, as a lookahead does, or an optional part
/// that fails on the longer stream and succeeds on the shorter one.
pub proof fn lemma_round_trip<N: PegAstNode>(stream: Seq<char>)
    requires
        faithful::<N>(),
        N::spec_parse(stream) is Accepted,
        N::spec_parse(stream.take(N::spec_parse(stream)->length as int)) == N::spec_parse(stream),
    ensures
        N::text(N::spec_parse(stream)->tree) == stream.take(N::spec_parse(stream)->length as int),
        N::spec_parse(N::text(N::spec_parse(stream)->tree)) == (Outcome::Accepted {
            tree: N::spec_parse(stream)->tree,
            length: N::text(N::spec_parse(stream)->tree).len(),
        }),
{
    assert(faithful_on::<N>(stream));
}

/// A parse that consumes the whole stream always round-trips: the text of
/// the tree is the stream, and parsing it again gives the same tree.
pub proof fn lemma_round_trip_of_whole_stream<N: PegAstNode>(stream: Seq<char>)
    requires
        faithful::<N>(),
        N::spec_parse(stream) is Accepted,
        N::spec_parse(stream)->length == stream.len(),
    ensures
        N::text(N::spec_parse(stream)->tree) == stream,
        N::spec_parse(N::text(N::spec_parse(stream)->tree)) == N::spec_parse(stream),
{
    assert(faithful_on::<N>(stream));
    assert(stream.take(stream.len() as int) =~= stream);
}

/// The rule `N` does not look behind its match: it accepts a stream in the
/// same way when the stream is cut off anywhere behind what it consumed.
pub open spec fn settled<N: PegAstNode>() -> bool {
    forall|stream: Seq<char>, cut: int|
        (#[trigger] N::spec_parse(stream.take(cut))) == N::spec_parse(stream) <== (N::spec_parse(
            stream,
        ) matches Outcome::Accepted { length, .. } && length <= cut <= stream.len())
}

/// A faithful rule that does not look behind its match round-trips on
/// every stream that it accepts.
pub proof fn lemma_round_trip_of_settled<N: PegAstNode>(stream: Seq<char>)
    requires
        faithful::<N>(),
        settled::<N>(),
        N::spec_parse(stream) is Accepted,
    ensures
        N::text(N::spec_parse(stream)->tree) == stream.take(N::spec_parse(stream)->length as int),
        N::spec_parse(N::text(N::spec_parse(stream)->tree)) == (Outcome::Accepted {
            tree: N::spec_parse(stream)->tree,
            length: N::text(N::spec_parse(stream)->tree).len(),
        }),
{
    assert(faithful_on::<N>(stream));
    let length = N::spec_parse(stream)->length;
    assert(N::spec_parse(stream.take(length as int)) == N::spec_parse(stream));
    lemma_round_trip::<N>(stream);
}

/// Looking ahead is repeatable: a cursor that has the same stream ahead
/// as before, which is how `peek` leaves it, shows the same items to the
/// next look.
pub proof fn lemma_peek_is_repeatable<T: CharSource>(
    before: BufferedIterator<T>,
    after: BufferedIterator<T>,
    count: nat,
)
    requires
        after.remaining() == before.remaining(),
    ensures
        leading(after.remaining(), count) == leading(before.remaining(), count),
        leading(leading(before.remaining(), count), count) == leading(before.remaining(), count),
{
    let shown = leading(before.remaining(), count);
    assert(leading(shown, count) =~= shown);
}

/// In an alternation the alternative declared first wins: where it
/// matches, the alternation gives its tree, whatever the second
/// alternative would make of the same stream.
pub proof fn lemma_first_match_wins<A: PegAstNode, B: PegAstNode>(stream: Seq<char>)
    requires
        A::spec_parse(stream) is Accepted,
    ensures
        Either::<A, B>::spec_parse(stream) == (Outcome::Accepted {
            tree: Either::<A::Tree, B::Tree>::Left(A::spec_parse(stream)->tree),
            length: A::spec_parse(stream)->length,
        }),
{
}

/// The second alternative is tried only where the first fails, and where
/// both fail the alternation fails at its start, expecting what either
/// expects.
pub proof fn lemma_alternation_falls_through<A: PegAstNode, B: PegAstNode>(stream: Seq<char>)
    requires
        A::spec_parse(stream) is Rejected,
    ensures
        B::spec_parse(stream) matches Outcome::Accepted { tree, length } ==> Either::<
            A,
            B,
        >::spec_parse(stream) == (Outcome::Accepted {
            tree: Either::<A::Tree, B::Tree>::Right(tree),
            length,
        }),
        B::spec_parse(stream) is Rejected ==> Either::<A, B>::spec_parse(stream) == (
        Outcome::Rejected::<Either<A::Tree, B::Tree>> {
            expected: A::spec_expecting() + B::spec_expecting(),
            offset: 0,
        }),
{
}

/// A greedy scan never takes an entry beyond its greatest number of
/// occurrences: where the entries seen so far are within their maximums,
/// so are they together with what the scan accepts.
pub proof fn lemma_scan_keeps_maximums<S: SetEntries>(stream: Seq<char>, seen: Seq<S::Tree>)
    requires
        within_maximums::<S>(seen),
    ensures
        within_maximums::<S>(seen + scanned::<S>(stream, seen).0),
    decreases stream.len(),
{
    assert(seen + Seq::<S::Tree>::empty() =~= seen);
    if let Outcome::Accepted { tree, length } = S::spec_parse(stream) {
        if !capped::<S>(seen, S::spec_entry_id(tree)) && 0 < length <= stream.len() {
            let rest = scanned::<S>(stream.skip(length as int), seen.push(tree));
            assert forall|entry_id: S::EntryId| #[trigger]
                under_cap::<S>(seen.push(tree), entry_id) by {
                lemma_occurrences_push::<S>(seen, tree, entry_id);
                assert(under_cap::<S>(seen, entry_id));
            }
            lemma_scan_keeps_maximums::<S>(stream.skip(length as int), seen.push(tree));
            assert(seen.push(tree) + rest.0 =~= seen + (seq![tree] + rest.0));
        }
    }
}

/// A greedy scan stops only where it must: what lies behind the scan
/// either is no entry at all, or is an entry that has reached its greatest
/// number of occurrences. That entry is left in the stream.
pub proof fn lemma_scan_stops_at_a_cap<S: SetEntries>(stream: Seq<char>, seen: Seq<S::Tree>)
    requires
        faithful::<S>(),
        never_empty::<S>(),
    ensures
        ({
            let scan = scanned::<S>(stream, seen);
            scan.1 <= stream.len() && (S::spec_parse(stream.skip(scan.1 as int)) matches Outcome::Accepted {
                tree,
                ..
            } ==> capped::<S>(seen + scan.0, S::spec_entry_id(tree)))
        }),
    decreases stream.len(),
{
    assert(faithful_on::<S>(stream));
    assert(seen + Seq::<S::Tree>::empty() =~= seen);
    assert(stream.skip(0) =~= stream);
    if let Outcome::Accepted { tree, length } = S::spec_parse(stream) {
        if !capped::<S>(seen, S::spec_entry_id(tree)) {
            let behind = stream.skip(length as int);
            let rest = scanned::<S>(behind, seen.push(tree));
            lemma_scan_stops_at_a_cap::<S>(behind, seen.push(tree));
            assert(behind.skip(rest.1 as int) =~= stream.skip((length + rest.1) as int));
            assert(seen.push(tree) + rest.0 =~= seen + (seq![tree] + rest.0));
        }
    }
}

/// A set keeps every entry within its bounds: in the tree of an accepted
/// set no entry occurs more often than it may, and every listed entry
/// occurs as often as it must.
pub proof fn lemma_set_is_within_bounds<S: SetEntries>(stream: Seq<char>)
    requires
        SetOf::<S>::spec_parse(stream) is Accepted,
    ensures
        within_maximums::<S>(SetOf::<S>::spec_parse(stream)->tree),
        meets_minimums::<S>(SetOf::<S>::spec_parse(stream)->tree),
{
    let nothing = Seq::<S::Tree>::empty();
    assert forall|entry_id: S::EntryId| #[trigger] under_cap::<S>(nothing, entry_id) by {}
    lemma_scan_keeps_maximums::<S>(stream, nothing);
    assert(nothing + scanned::<S>(stream, nothing).0 =~= scanned::<S>(stream, nothing).0);
}

/// A set that misses a minimum fails behind the entries that the scan
/// accepted, not at its start: the offset of the failure is the number of
/// characters that the scan consumed.
pub proof fn lemma_set_fails_behind_the_scan<S: SetEntries>(stream: Seq<char>)
    requires
        !meets_minimums::<S>(scanned::<S>(stream, Seq::empty()).0),
    ensures
        SetOf::<S>::spec_parse(stream) == (Outcome::Rejected::<Seq<S::Tree>> {
            expected: S::spec_expecting(),
            offset: scanned::<S>(stream, Seq::empty()).1,
        }),
{
}

/// A scan of delimited entries never takes an entry beyond its greatest
/// number of occurrences.
pub proof fn lemma_delimitted_scan_keeps_maximums<S: SetEntries, D: PegAstNode>(
    stream: Seq<char>,
    seen: Seq<S::Tree>,
)
    requires
        within_maximums::<S>(seen),
    ensures
        within_maximums::<S>(seen + scanned_delimitted::<S, D>(stream, seen).items),
    decreases stream.len(),
{
    assert(seen + Seq::<S::Tree>::empty() =~= seen);
    if let Outcome::Accepted { tree, length } = S::spec_parse(stream) {
        if !capped::<S>(seen, S::spec_entry_id(tree)) && 0 < length <= stream.len() {
            assert forall|entry_id: S::EntryId| #[trigger]
                under_cap::<S>(seen.push(tree), entry_id) by {
                lemma_occurrences_push::<S>(seen, tree, entry_id);
                assert(under_cap::<S>(seen, entry_id));
            }
            assert(seen + seq![tree] =~= seen.push(tree));
            if let Outcome::Accepted { tree: delimitter, length: width } = D::spec_parse(
                stream.skip(length as int),
            ) {
                if length + width <= stream.len() {
                    let further = stream.skip((length + width) as int);
                    let rest = scanned_delimitted::<S, D>(further, seen.push(tree));
                    lemma_delimitted_scan_keeps_maximums::<S, D>(further, seen.push(tree));
                    assert(seen.push(tree) + rest.items =~= seen + (seq![tree] + rest.items));
                }
            }
        }
    }
}

/// A delimited set keeps every entry within its bounds.
pub proof fn lemma_delimitted_set_is_within_bounds<S: SetEntries, D: PegAstNode>(
    stream: Seq<char>,
)
    requires
        DelimittedSetOf::<S, D>::spec_parse(stream) is Accepted,
    ensures
        within_maximums::<S>(DelimittedSetOf::<S, D>::spec_parse(stream)->tree.0),
        meets_minimums::<S>(DelimittedSetOf::<S, D>::spec_parse(stream)->tree.0),
{
    let nothing = Seq::<S::Tree>::empty();
    assert forall|entry_id: S::EntryId| #[trigger] under_cap::<S>(nothing, entry_id) by {}
    lemma_delimitted_scan_keeps_maximums::<S, D>(stream, nothing);
    assert(nothing + scanned_delimitted::<S, D>(stream, nothing).items =~= scanned_delimitted::<
        S,
        D,
    >(stream, nothing).items);
}

/// A delimited set that misses a minimum fails at the place that the scan
/// reached, behind the last delimiter that it consumed.
pub proof fn lemma_delimitted_set_fails_where_the_scan_stopped<S: SetEntries, D: PegAstNode>(
    stream: Seq<char>,
)
    requires
        !meets_minimums::<S>(scanned_delimitted::<S, D>(stream, Seq::empty()).items),
    ensures
        DelimittedSetOf::<S, D>::spec_parse(stream) == (Outcome::Rejected::<
            (Seq<S::Tree>, Seq<D::Tree>),
        > {
            expected: S::spec_expecting(),
            offset: scanned_delimitted::<S, D>(stream, Seq::empty()).reach,
        }),
{
}

/// `Any` does not look behind the character that it consumes.
pub proof fn lemma_any_settled()
    ensures
        settled::<Any>(),
{
    assert forall|stream: Seq<char>, cut: int|
        (Any::spec_parse(stream) matches Outcome::Accepted { length, .. } && length <= cut
            <= stream.len()) implies (#[trigger] Any::spec_parse(stream.take(cut)))
        == Any::spec_parse(stream) by {
        assert(stream.take(cut)[0] == stream[0]);
    }
}

/// A range does not look behind the character that it consumes.
pub proof fn lemma_range_settled<V: RangeValue>()
    ensures
        settled::<Range<V>>(),
{
    assert forall|stream: Seq<char>, cut: int|
        (Range::<V>::spec_parse(stream) matches Outcome::Accepted { length, .. } && length <= cut
            <= stream.len()) implies (#[trigger] Range::<V>::spec_parse(stream.take(cut)))
        == Range::<V>::spec_parse(stream) by {
        assert(stream.take(cut)[0] == stream[0]);
    }
}

/// A literal does not look behind its own text.
pub proof fn lemma_literal_settled<V: LiteralValue>()
    ensures
        settled::<Literal<V>>(),
{
    assert forall|stream: Seq<char>, cut: int|
        (Literal::<V>::spec_parse(stream) matches Outcome::Accepted { length, .. } && length
            <= cut <= stream.len()) implies (#[trigger] Literal::<V>::spec_parse(
        stream.take(cut),
    )) == Literal::<V>::spec_parse(stream) by {
        let text = V::LITERAL@;
        assert(text.is_prefix_of(stream));
        assert(text =~= stream.take(cut).subrange(0, text.len() as int));
        assert(text.is_prefix_of(stream.take(cut)));
    }
}

/// A sequence of two rules that do not look behind their matches does not
/// look behind its own.
pub proof fn lemma_pair_settled<A: PegAstNode, B: PegAstNode>()
    requires
        settled::<A>(),
        settled::<B>(),
    ensures
        settled::<(A, B)>(),
{
    assert forall|stream: Seq<char>, cut: int|
        (<(A, B)>::spec_parse(stream) matches Outcome::Accepted { length, .. } && length <= cut
            <= stream.len()) implies (#[trigger] <(A, B)>::spec_parse(stream.take(cut))) == <(
        A,
        B,
    )>::spec_parse(stream) by {
        let taken = A::spec_parse(stream)->length;
        let rest = stream.skip(taken as int);
        assert(A::spec_parse(stream.take(cut)) == A::spec_parse(stream));
        assert(stream.take(cut).skip(taken as int) =~= rest.take(cut - taken));
        assert(B::spec_parse(rest.take(cut - taken)) == B::spec_parse(rest));
    }
}

/// A sequence of one position looks behind its match no more than the
/// position does.
pub proof fn lemma_single_settled<A: PegAstNode>()
    requires
        settled::<A>(),
    ensures
        settled::<(A,)>(),
{
    assert forall|stream: Seq<char>, cut: int|
        (<(A,)>::spec_parse(stream) matches Outcome::Accepted { length, .. } && length <= cut
            <= stream.len()) implies (#[trigger] <(A,)>::spec_parse(stream.take(cut))) == <(
        A,
    )>::spec_parse(stream) by {
        assert(A::spec_parse(stream.take(cut)) == A::spec_parse(stream));
    }
}

/// A boxed rule looks behind its match no more than the rule in the box.
pub proof fn lemma_boxed_settled<T: PegAstNode>()
    requires
        settled::<T>(),
    ensures
        settled::<Box<T>>(),
{
    assert forall|stream: Seq<char>, cut: int|
        (Box::<T>::spec_parse(stream) matches Outcome::Accepted { length, .. } && length <= cut
            <= stream.len()) implies (#[trigger] Box::<T>::spec_parse(stream.take(cut)))
        == Box::<T>::spec_parse(stream) by {
        assert(T::spec_parse(stream.take(cut)) == T::spec_parse(stream));
    }
}

/// A sequence of three rules that do not look behind their matches does
/// not look behind its own.
pub proof fn lemma_sequence_of_three_settled<A: PegAstNode, B: PegAstNode, C: PegAstNode>()
    requires
        settled::<A>(),
        settled::<B>(),
        settled::<C>(),
    ensures
        settled::<(A, B, C)>(),
{
    lemma_pair_settled::<A, B>();
    assert forall|stream: Seq<char>, cut: int|
        (<(A, B, C)>::spec_parse(stream) matches Outcome::Accepted { length, .. } && length
            <= cut <= stream.len()) implies (#[trigger] <(A, B, C)>::spec_parse(
        stream.take(cut),
    )) == <(A, B, C)>::spec_parse(stream) by {
        let taken = <(A, B)>::spec_parse(stream)->length;
        let rest = stream.skip(taken as int);
        assert(<(A, B)>::spec_parse(stream.take(cut)) == <(A, B)>::spec_parse(stream));
        assert(stream.take(cut).skip(taken as int) =~= rest.take(cut - taken));
        assert(C::spec_parse(rest.take(cut - taken)) == C::spec_parse(rest));
    }
}

/// A sequence of four rules that do not look behind their matches does
/// not look behind its own.
pub proof fn lemma_sequence_of_four_settled<
    A: PegAstNode,
    B: PegAstNode,
    C: PegAstNode,
    D: PegAstNode,
>()
    requires
        settled::<A>(),
        settled::<B>(),
        settled::<C>(),
        settled::<D>(),
    ensures
        settled::<(A, B, C, D)>(),
{
    lemma_sequence_of_three_settled::<A, B, C>();
    assert forall|stream: Seq<char>, cut: int|
        (<(A, B, C, D)>::spec_parse(stream) matches Outcome::Accepted { length, .. } && length
            <= cut <= stream.len()) implies (#[trigger] <(A, B, C, D)>::spec_parse(
        stream.take(cut),
    )) == <(A, B, C, D)>::spec_parse(stream) by {
        let taken = <(A, B, C)>::spec_parse(stream)->length;
        let rest = stream.skip(taken as int);
        assert(<(A, B, C)>::spec_parse(stream.take(cut)) == <(A, B, C)>::spec_parse(stream));
        assert(stream.take(cut).skip(taken as int) =~= rest.take(cut - taken));
        assert(D::spec_parse(rest.take(cut - taken)) == D::spec_parse(rest));
    }
}

/// A sequence of five rules that do not look behind their matches does
/// not look behind its own.
pub proof fn lemma_sequence_of_five_settled<
    A: PegAstNode,
    B: PegAstNode,
    C: PegAstNode,
    D: PegAstNode,
    E: PegAstNode,
>()
    requires
        settled::<A>(),
        settled::<B>(),
        settled::<C>(),
        settled::<D>(),
        settled::<E>(),
    ensures
        settled::<(A, B, C, D, E)>(),
{
    lemma_sequence_of_four_settled::<A, B, C, D>();
    assert forall|stream: Seq<char>, cut: int|
        (<(A, B, C, D, E)>::spec_parse(stream) matches Outcome::Accepted { length, .. } && length
            <= cut <= stream.len()) implies (#[trigger] <(A, B, C, D, E)>::spec_parse(
        stream.take(cut),
    )) == <(A, B, C, D, E)>::spec_parse(stream) by {
        let taken = <(A, B, C, D)>::spec_parse(stream)->length;
        let rest = stream.skip(taken as int);
        assert(<(A, B, C, D)>::spec_parse(stream.take(cut)) == <(A, B, C, D)>::spec_parse(stream));
        assert(stream.take(cut).skip(taken as int) =~= rest.take(cut - taken));
        assert(E::spec_parse(rest.take(cut - taken)) == E::spec_parse(rest));
    }
}

/// `Any` consumes a character whenever it succeeds.
pub proof fn lemma_any_never_empty()
    ensures
        never_empty::<Any>(),
{
}

/// A range consumes a character whenever it succeeds.
pub proof fn lemma_range_never_empty<V: RangeValue>()
    ensures
        never_empty::<Range<V>>(),
{
}

/// A literal whose text is not empty consumes at least one character
/// whenever it succeeds.
pub proof fn lemma_literal_never_empty<V: LiteralValue>()
    requires
        V::LITERAL@.len() > 0,
    ensures
        never_empty::<Literal<V>>(),
{
}

/// A sequence of two rules consumes at least one character whenever it
/// succeeds, as soon as one of the two does.
pub proof fn lemma_pair_never_empty<A: PegAstNode, B: PegAstNode>()
    requires
        never_empty::<A>() || never_empty::<B>(),
    ensures
        never_empty::<(A, B)>(),
{
    assert forall|stream: Seq<char>| (#[trigger] <(A, B)>::spec_parse(stream)) is Accepted implies <(
        A,
        B,
    )>::spec_parse(stream)->length > 0 by {
        let taken = A::spec_parse(stream)->length;
        assert(B::spec_parse(stream.skip(taken as int)) is Accepted);
    }
}

/// An alternation consumes at least one character whenever it succeeds,
/// where both alternatives do.
pub proof fn lemma_either_never_empty<A: PegAstNode, B: PegAstNode>()
    requires
        never_empty::<A>(),
        never_empty::<B>(),
    ensures
        never_empty::<Either<A, B>>(),
{
    assert forall|stream: Seq<char>|
        (#[trigger] Either::<A, B>::spec_parse(stream)) is Accepted implies Either::<
            A,
            B,
        >::spec_parse(stream)->length > 0 by {
        assert(A::spec_parse(stream) is Accepted || B::spec_parse(stream) is Accepted);
    }
}

/// A sequence of one position consumes at least one character whenever it
/// succeeds, where its position does.
pub proof fn lemma_single_never_empty<A: PegAstNode>()
    requires
        never_empty::<A>(),
    ensures
        never_empty::<(A,)>(),
{
    assert forall|stream: Seq<char>| (#[trigger] <(A,)>::spec_parse(stream)) is Accepted implies <(
        A,
    )>::spec_parse(stream)->length > 0 by {
        assert(A::spec_parse(stream) is Accepted);
    }
}

/// A boxed rule consumes at least one character whenever it succeeds,
/// where the rule in the box does.
pub proof fn lemma_boxed_never_empty<T: PegAstNode>()
    requires
        never_empty::<T>(),
    ensures
        never_empty::<Box<T>>(),
{
    assert forall|stream: Seq<char>|
        (#[trigger] Box::<T>::spec_parse(stream)) is Accepted implies Box::<T>::spec_parse(
        stream,
    )->length > 0 by {
        assert(T::spec_parse(stream) is Accepted);
    }
}

/// One or more nodes consume at least one character, where a single node
/// does.
pub proof fn lemma_one_or_more_never_empty<T: PegAstNode>()
    requires
        never_empty::<T>(),
    ensures
        never_empty::<OneOrMore<T>>(),
{
    assert forall|stream: Seq<char>|
        (#[trigger] OneOrMore::<T>::spec_parse(stream)) is Accepted implies OneOrMore::<
            T,
        >::spec_parse(stream)->length > 0 by {
        assert(T::spec_parse(stream) is Accepted);
    }
}

/// A delimited sequence consumes at least one character, where an item
/// does.
pub proof fn lemma_delimitted_never_empty<T: PegAstNode, D: PegAstNode>()
    requires
        never_empty::<T>(),
    ensures
        never_empty::<Delimitted<T, D>>(),
{
    assert forall|stream: Seq<char>|
        (#[trigger] Delimitted::<T, D>::spec_parse(stream)) is Accepted implies Delimitted::<
            T,
            D,
        >::spec_parse(stream)->length > 0 by {
        assert(T::spec_parse(stream) is Accepted);
    }
}

/// A sequence of three rules consumes at least one character whenever it
/// succeeds, as soon as its last rule does or the rules before it do.
pub proof fn lemma_sequence_of_three_never_empty<
    A: PegAstNode,
    B: PegAstNode,
    C: PegAstNode,
>()
    requires
        never_empty::<(A, B)>() || never_empty::<C>(),
    ensures
        never_empty::<(A, B, C)>(),
{
    assert forall|stream: Seq<char>|
        (#[trigger] <(A, B, C)>::spec_parse(stream)) is Accepted implies <(A, B, C)>::spec_parse(
        stream,
    )->length > 0 by {
        let taken = <(A, B)>::spec_parse(stream)->length;
        assert(<(A, B)>::spec_parse(stream) is Accepted);
        assert(C::spec_parse(stream.skip(taken as int)) is Accepted);
    }
}

/// A sequence of four rules consumes at least one character whenever it
/// succeeds, as soon as its last rule does or the rules before it do.
pub proof fn lemma_sequence_of_four_never_empty<
    A: PegAstNode,
    B: PegAstNode,
    C: PegAstNode,
    D: PegAstNode,
>()
    requires
        never_empty::<(A, B, C)>() || never_empty::<D>(),
    ensures
        never_empty::<(A, B, C, D)>(),
{
    assert forall|stream: Seq<char>|
        (#[trigger] <(A, B, C, D)>::spec_parse(stream)) is Accepted implies <(A, B, C, D)>::spec_parse(
        stream,
    )->length > 0 by {
        let taken = <(A, B, C)>::spec_parse(stream)->length;
        assert(<(A, B, C)>::spec_parse(stream) is Accepted);
        assert(D::spec_parse(stream.skip(taken as int)) is Accepted);
    }
}

/// A sequence of five rules consumes at least one character whenever it
/// succeeds, as soon as its last rule does or the rules before it do.
pub proof fn lemma_sequence_of_five_never_empty<
    A: PegAstNode,
    B: PegAstNode,
    C: PegAstNode,
    D: PegAstNode,
    E: PegAstNode,
>()
    requires
        never_empty::<(A, B, C, D)>() || never_empty::<E>(),
    ensures
        never_empty::<(A, B, C, D, E)>(),
{
    assert forall|stream: Seq<char>|
        (#[trigger] <(A, B, C, D, E)>::spec_parse(stream)) is Accepted implies <(A, B, C, D, E)>::spec_parse(
        stream,
    )->length > 0 by {
        let taken = <(A, B, C, D)>::spec_parse(stream)->length;
        assert(<(A, B, C, D)>::spec_parse(stream) is Accepted);
        assert(E::spec_parse(stream.skip(taken as int)) is Accepted);
    }
}

} // verus!
