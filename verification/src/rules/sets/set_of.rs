use vstd::prelude::*;
use std::borrow::Cow;
use std::collections::HashMap;
use crate::input::Input;
use crate::rules::sets::set_entries::{
    capped,
    countable,
    lemma_occurrences_bound,
    lemma_occurrences_push,
    meets_minimums,
    occurrences,
    SetEntries,
};
use crate::rules::zero_or_more::{joined, lemma_joined_concat, lemma_joined_single, trees_of};
use crate::{faithful, faithful_on, Outcome, ParseError, PegAstNode};

verus! {

broadcast use vstd::std_specs::hash::group_hash_axioms;

/// The greedy scan: `S` applied again and again from the start of `stream`,
/// after the entries `seen`, until it fails or produces an entry that has
/// reached its greatest number of occurrences. That last match is not
/// counted and not consumed.
///
/// The result holds the trees accepted after `seen`, in order, and the
/// number of characters they consumed.
pub open spec fn scanned<S: SetEntries>(stream: Seq<char>, seen: Seq<S::Tree>) -> (
    Seq<S::Tree>,
    nat,
)
    decreases stream.len(),
{
    match S::spec_parse(stream) {
        Outcome::Accepted { tree, length } => {
            if capped::<S>(seen, S::spec_entry_id(tree)) || !(0 < length <= stream.len()) {
                (Seq::empty(), 0)
            } else {
                let rest = scanned::<S>(stream.skip(length as int), seen.push(tree));
                (seq![tree] + rest.0, length + rest.1)
            }
        },
        Outcome::Rejected { .. } => (Seq::empty(), 0),
    }
}

/// A scan consumes a prefix of the stream, and its trees render exactly
/// that prefix.
pub proof fn lemma_scanned_prefix<S: SetEntries>(stream: Seq<char>, seen: Seq<S::Tree>)
    requires
        faithful::<S>(),
    ensures
        scanned::<S>(stream, seen).1 <= stream.len(),
        joined::<S>(scanned::<S>(stream, seen).0) == stream.take(
            scanned::<S>(stream, seen).1 as int,
        ),
    decreases stream.len(),
{
    assert(faithful_on::<S>(stream));
    assert(stream.take(0) =~= Seq::<char>::empty());
    if let Outcome::Accepted { tree, length } = S::spec_parse(stream) {
        if !capped::<S>(seen, S::spec_entry_id(tree)) && 0 < length <= stream.len() {
            let rest = scanned::<S>(stream.skip(length as int), seen.push(tree));
            lemma_scanned_prefix::<S>(stream.skip(length as int), seen.push(tree));
            lemma_joined_concat::<S>(seq![tree], rest.0);
            lemma_joined_single::<S>(tree);
            assert(stream.take(length as int) + stream.skip(length as int).take(rest.1 as int)
                =~= stream.take((length + rest.1) as int));
        }
    }
}

/// The occurrence counts of `trees`, one for each listed entry.
pub open spec fn counted<S: SetEntries>(counts: Map<S::EntryId, usize>, trees: Seq<S::Tree>) -> bool {
    forall|i: int|
        0 <= i < S::spec_all_entry_ids().len() ==> counts.contains_key(
            #[trigger] S::spec_all_entry_ids()[i],
        ) && counts[S::spec_all_entry_ids()[i]] == occurrences::<S>(
            trees,
            S::spec_all_entry_ids()[i],
        )
}

/// A map that counts nothing yet: every listed entry is at zero.
pub(crate) fn no_counts<S: SetEntries>() -> (counts: HashMap<S::EntryId, usize>)
    requires
        vstd::std_specs::hash::obeys_key_model::<S::EntryId>(),
    ensures
        counted::<S>(counts@, Seq::<S::Tree>::empty()),
{
    let entry_ids = S::all_entry_ids();
    let mut counts: HashMap<S::EntryId, usize> = HashMap::new();
    let mut index: usize = 0;
    while index < entry_ids.len()
        invariant
            vstd::std_specs::hash::obeys_key_model::<S::EntryId>(),
            entry_ids@ == S::spec_all_entry_ids(),
            index <= entry_ids.len(),
            forall|i: int|
                0 <= i < index ==> counts@.contains_key(#[trigger] entry_ids@[i])
                    && counts@[entry_ids@[i]] == 0,
        decreases entry_ids.len() - index,
    {
        counts.insert(entry_ids[index], 0);
        index = index + 1;
    }
    counts
}

/// Whether every listed entry has been counted at least as often as it
/// must occur.
pub(crate) fn minimums_met<S: SetEntries>(counts: &HashMap<S::EntryId, usize>, Ghost(trees): Ghost<
    Seq<S::Tree>,
>) -> (met: bool)
    requires
        vstd::std_specs::hash::obeys_key_model::<S::EntryId>(),
        counted::<S>(counts@, trees),
    ensures
        met == meets_minimums::<S>(trees),
{
    let entry_ids = S::all_entry_ids();
    let mut index: usize = 0;
    while index < entry_ids.len()
        invariant
            vstd::std_specs::hash::obeys_key_model::<S::EntryId>(),
            entry_ids@ == S::spec_all_entry_ids(),
            counted::<S>(counts@, trees),
            index <= entry_ids.len(),
            forall|i: int|
                0 <= i < index ==> occurrences::<S>(trees, #[trigger] entry_ids@[i])
                    >= S::spec_min_repetitions(entry_ids@[i]),
        decreases entry_ids.len() - index,
    {
        let entry_id = entry_ids[index];
        assert(entry_id == S::spec_all_entry_ids()[index as int]);
        let count = match counts.get(&entry_id) {
            Some(count) => *count,
            None => 0,
        };
        if count < S::min_repetitions(entry_id) {
            return false;
        }
        index = index + 1;
    }
    true
}

/// Counts one more occurrence of the entry of `tree`, which is listed and
/// has been counted fewer than `usize::MAX` times.
pub(crate) fn count_one<S: SetEntries>(
    counts: &mut HashMap<S::EntryId, usize>,
    entry_id: S::EntryId,
    count: usize,
    Ghost(trees): Ghost<Seq<S::Tree>>,
    Ghost(tree): Ghost<S::Tree>,
)
    requires
        vstd::std_specs::hash::obeys_key_model::<S::EntryId>(),
        counted::<S>(old(counts)@, trees),
        entry_id == S::spec_entry_id(tree),
        count == occurrences::<S>(trees, entry_id),
        count < usize::MAX,
    ensures
        counted::<S>(final(counts)@, trees.push(tree)),
{
    counts.insert(entry_id, count + 1);
    assert forall|i: int| 0 <= i < S::spec_all_entry_ids().len() implies counts@.contains_key(
        #[trigger] S::spec_all_entry_ids()[i],
    ) && counts@[S::spec_all_entry_ids()[i]] == occurrences::<S>(
        trees.push(tree),
        S::spec_all_entry_ids()[i],
    ) by {
        lemma_occurrences_push::<S>(trees, tree, S::spec_all_entry_ids()[i]);
    }
}

/// A set of entries in whatever order they appear in the input, each
/// alternative within its bounds.
#[derive(Clone, Debug, Eq, PartialEq)]
pub struct SetOf<S: SetEntries>(Vec<S>);

impl<S: SetEntries> SetOf<S> {
    /// The entries in the order in which they were parsed.
    pub closed spec fn entries(&self) -> Seq<S> {
        self.0@
    }
}

impl<S: SetEntries> std::ops::Deref for SetOf<S> {
    type Target = Vec<S>;

    fn deref(&self) -> (entries: &Vec<S>)
        ensures
            entries@ == self.entries(),
    {
        &self.0
    }
}

impl<S: SetEntries> std::ops::DerefMut for SetOf<S> {
    fn deref_mut(&mut self) -> (entries: &mut Vec<S>)
        ensures
            entries@ == old(self).entries(),
            final(self).entries() == final(entries)@,
    {
        &mut self.0
    }
}

impl<S: SetEntries> PegAstNode for SetOf<S> {
    type Tree = Seq<S::Tree>;

    open spec fn well_formed() -> bool {
        countable::<S>()
    }

    open spec fn tree(&self) -> Seq<S::Tree> {
        trees_of::<S>(self.entries())
    }

    open spec fn text(tree: Seq<S::Tree>) -> Seq<char> {
        joined::<S>(tree)
    }

    open spec fn spec_parse(stream: Seq<char>) -> Outcome<Seq<S::Tree>> {
        let scan = scanned::<S>(stream, Seq::empty());
        if meets_minimums::<S>(scan.0) {
            Outcome::Accepted { tree: scan.0, length: scan.1 }
        } else {
            Outcome::Rejected { expected: Self::spec_expecting(), offset: scan.1 }
        }
    }

    open spec fn spec_expecting() -> Seq<Seq<char>> {
        S::spec_expecting()
    }

    fn parse<I: Input>(input: &mut I) -> (result: Result<Self, ParseError>) {
        let ghost start = input.remaining();
        let ghost mut consumed: nat = 0;
        let mut nodes: Vec<S> = Vec::new();
        let mut counts = no_counts::<S>();
        let mut view = input.peek_only();
        let ghost opened = view;
        let mut more = true;
        assert(start.skip(0) =~= start);
        assert(trees_of::<S>(nodes@) =~= Seq::<S::Tree>::empty());
        assert(trees_of::<S>(nodes@) + scanned::<S>(start, trees_of::<S>(nodes@)).0 =~= scanned::<S>(
            start,
            Seq::empty(),
        ).0);
        while more
            invariant
                countable::<S>(),
                view.wf(),
                consumed <= start.len(),
                nodes@.len() <= consumed,
                view.remaining() == start.skip(consumed as int),
                view.spec_position() == opened.spec_position() + consumed,
                view.backing().remaining() == opened.backing().remaining(),
                *final(view.backing()) == *final(opened.backing()),
                counted::<S>(counts@, trees_of::<S>(nodes@)),
                scanned::<S>(start, Seq::empty()).0 == trees_of::<S>(nodes@) + scanned::<S>(
                    view.remaining(),
                    trees_of::<S>(nodes@),
                ).0,
                scanned::<S>(start, Seq::empty()).1 == consumed + scanned::<S>(
                    view.remaining(),
                    trees_of::<S>(nodes@),
                ).1,
                !more ==> scanned::<S>(view.remaining(), trees_of::<S>(nodes@)) == (
                    Seq::<S::Tree>::empty(),
                    0nat,
                ),
            decreases
                    view.remaining().len(),
                    (if more {
                        1nat
                    } else {
                        0nat
                    }),
        {
            let ghost current = view.remaining();
            let ghost seen = trees_of::<S>(nodes@);
            let attempt = {
                let mut inner = view.peek_only();
                let attempt = S::parse(&mut inner);
                let position = inner.position();
                proof {
                    inner.lemma_settled();
                }
                (attempt, position)
            };
            match attempt.0 {
                Ok(node) => {
                    let entry_id = node.entry_id();
                    let ghost tree = node.tree();
                    let ghost length = S::spec_parse(current)->length;
                    proof {
                        let i = choose|i: int|
                            0 <= i < S::spec_all_entry_ids().len() && S::spec_all_entry_ids()[i]
                                == entry_id;
                        assert(counts@.contains_key(S::spec_all_entry_ids()[i]));
                        lemma_occurrences_bound::<S>(seen, entry_id);
                    }
                    let count = match counts.get(&entry_id) {
                        Some(count) => *count,
                        None => 0,
                    };
                    let full = match S::max_repetitions(entry_id) {
                        Some(most) => count >= most,
                        None => false,
                    };
                    if full {
                        more = false;
                    } else {
                        count_one::<S>(&mut counts, entry_id, count, Ghost(seen), Ghost(tree));
                        nodes.push(node);
                        view.advance_to(attempt.1);
                        proof {
                            let rest = scanned::<S>(current.skip(length as int), seen.push(tree));
                            assert(current.skip(length as int) =~= start.skip(
                                (consumed + length) as int,
                            ));
                            assert(trees_of::<S>(nodes@) =~= seen.push(tree));
                            assert(seen.push(tree) + rest.0 =~= seen + (seq![tree] + rest.0));
                            consumed = consumed + length;
                        }
                    }
                },
                Err(_) => {
                    more = false;
                },
            }
        }
        assert(trees_of::<S>(nodes@) + Seq::<S::Tree>::empty() =~= trees_of::<S>(nodes@));
        if !minimums_met::<S>(&counts, Ghost(trees_of::<S>(nodes@))) {
            let position = view.position();
            proof {
                view.lemma_settled();
            }
            return Err(ParseError { expected: Self::expecting(), position });
        }
        let position = view.position();
        proof {
            view.lemma_settled();
        }
        input.advance_to(position);
        Ok(SetOf(nodes))
    }

    fn parsed_string(&self) -> (text: Cow<'_, str>) {
        self.0.parsed_string()
    }

    fn expecting() -> (expected: Vec<String>) {
        S::expecting()
    }

    fn parsed_string_length(&self) -> (length: usize) {
        self.0.parsed_string_length()
    }
}

/// A set renders what its entries consumed, in the order in which they were
/// parsed.
pub proof fn lemma_set_of_faithful<S: SetEntries>()
    requires
        faithful::<S>(),
    ensures
        faithful::<SetOf<S>>(),
{
    assert forall|stream: Seq<char>| #[trigger] faithful_on::<SetOf<S>>(stream) by {
        lemma_scanned_prefix::<S>(stream, Seq::empty());
    }
}

} // verus!
