use vstd::prelude::*;
use std::hash::Hash;
use crate::rules::zero_or_more::never_empty;
use crate::{Outcome, PegAstNode};

verus! {

/// A closed alternation whose alternatives are counted when it is parsed
/// repeatedly as a set.
///
/// Every alternative has an entry id, shared by all the nodes that it
/// produces, a least number of occurrences and, optionally, a greatest one.
pub trait SetEntries: PegAstNode {
    type EntryId: Clone + Copy + Eq + Hash + PartialEq + 'static;

    /// The entry ids of all the alternatives.
    open spec fn spec_all_entry_ids() -> Seq<Self::EntryId> {
        arbitrary()
    }

    /// The entry id of the alternative that a tree belongs to.
    open spec fn spec_entry_id(tree: Self::Tree) -> Self::EntryId {
        arbitrary()
    }

    /// How often an alternative must occur at least.
    open spec fn spec_min_repetitions(entry_id: Self::EntryId) -> usize {
        arbitrary()
    }

    /// How often an alternative may occur at most; `None` where it is not
    /// bounded.
    open spec fn spec_max_repetitions(entry_id: Self::EntryId) -> Option<usize> {
        arbitrary()
    }

    fn all_entry_ids() -> (entry_ids: &'static [Self::EntryId])
        ensures
            entry_ids@ == Self::spec_all_entry_ids(),
    ;

    fn entry_id(&self) -> (entry_id: Self::EntryId)
        ensures
            entry_id == Self::spec_entry_id(self.tree()),
    ;

    fn min_repetitions(entry_id: Self::EntryId) -> (least: usize)
        ensures
            least == Self::spec_min_repetitions(entry_id),
    ;

    fn max_repetitions(entry_id: Self::EntryId) -> (most: Option<usize>)
        ensures
            most == Self::spec_max_repetitions(entry_id),
    ;
}

/// What a set rule asks of its entries: the alternation is well formed and
/// never succeeds on nothing, every node it produces has one of the listed
/// entry ids, and entry ids can key a hash map.
pub open spec fn countable<S: SetEntries>() -> bool {
    &&& S::well_formed()
    &&& never_empty::<S>()
    &&& vstd::std_specs::hash::obeys_key_model::<S::EntryId>()
    &&& forall|stream: Seq<char>|
        (#[trigger] S::spec_parse(stream)) is Accepted ==> S::spec_all_entry_ids().contains(
            S::spec_entry_id(S::spec_parse(stream)->tree),
        )
}

/// How many of `trees` have the entry id `entry_id`.
pub open spec fn occurrences<S: SetEntries>(trees: Seq<S::Tree>, entry_id: S::EntryId) -> nat
    decreases trees.len(),
{
    if trees.len() == 0 {
        0
    } else {
        occurrences::<S>(trees.drop_last(), entry_id) + if S::spec_entry_id(trees.last())
            == entry_id {
            1nat
        } else {
            0nat
        }
    }
}

/// The entry `entry_id` has a greatest number of occurrences, and `trees`
/// holds that many already.
pub open spec fn capped<S: SetEntries>(trees: Seq<S::Tree>, entry_id: S::EntryId) -> bool {
    S::spec_max_repetitions(entry_id) matches Some(most) && occurrences::<S>(trees, entry_id)
        >= most
}

/// Every listed entry occurs in `trees` at least as often as it must.
pub open spec fn meets_minimums<S: SetEntries>(trees: Seq<S::Tree>) -> bool {
    forall|i: int|
        0 <= i < S::spec_all_entry_ids().len() ==> occurrences::<S>(
            trees,
            #[trigger] S::spec_all_entry_ids()[i],
        ) >= S::spec_min_repetitions(S::spec_all_entry_ids()[i])
}

/// The entry `entry_id` occurs in `trees` no more often than it may.
pub open spec fn under_cap<S: SetEntries>(trees: Seq<S::Tree>, entry_id: S::EntryId) -> bool {
    S::spec_max_repetitions(entry_id) matches Some(most) ==> occurrences::<S>(trees, entry_id)
        <= most
}

/// No entry occurs in `trees` more often than it may.
pub open spec fn within_maximums<S: SetEntries>(trees: Seq<S::Tree>) -> bool {
    forall|entry_id: S::EntryId| #[trigger] under_cap::<S>(trees, entry_id)
}

/// An entry occurs at most as often as there are trees.
pub proof fn lemma_occurrences_bound<S: SetEntries>(trees: Seq<S::Tree>, entry_id: S::EntryId)
    ensures
        occurrences::<S>(trees, entry_id) <= trees.len(),
    decreases trees.len(),
{
    if trees.len() > 0 {
        lemma_occurrences_bound::<S>(trees.drop_last(), entry_id);
    }
}

/// One more tree adds one occurrence of its own entry and none of any
/// other.
pub proof fn lemma_occurrences_push<S: SetEntries>(
    trees: Seq<S::Tree>,
    tree: S::Tree,
    entry_id: S::EntryId,
)
    ensures
        occurrences::<S>(trees.push(tree), entry_id) == occurrences::<S>(trees, entry_id) + if S::spec_entry_id(
            tree,
        ) == entry_id {
            1nat
        } else {
            0nat
        },
{
    assert(trees.push(tree).drop_last() =~= trees);
    assert(trees.push(tree).last() == tree);
}

} // verus!
