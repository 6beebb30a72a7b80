use vstd::prelude::*;
use std::borrow::Cow;
use crate::input::Input;
use crate::rules::sets::set_entries::{
    capped,
    countable,
    lemma_occurrences_bound,
    meets_minimums,
    SetEntries,
};
use crate::rules::sets::set_of::{count_one, counted, minimums_met, no_counts};
use crate::rules::zero_or_more::trees_of;
use crate::text::as_str;
use crate::{faithful, faithful_on, Outcome, ParseError, PegAstNode};

verus! {

broadcast use vstd::std_specs::hash::group_hash_axioms;

/// What a greedy scan of delimited entries found.
///
/// `length` counts the characters up to the end of the last item, `reach`
/// those up to the place where the scan stopped, which lies behind a
/// delimiter that no item followed.
pub struct Survey<X, Y> {
    pub items: Seq<X>,
    pub delimitters: Seq<Y>,
    pub length: nat,
    pub reach: nat,
}

/// A scan that found nothing.
pub open spec fn nothing_found<X, Y>() -> Survey<X, Y> {
    Survey { items: Seq::empty(), delimitters: Seq::empty(), length: 0, reach: 0 }
}

/// The greedy scan of delimited entries: an item of `S`, then a delimiter
/// of `D` and the next item, for as long as both can be parsed.
///
/// The scan stops before an item that fails, before an item whose entry has
/// reached its greatest number of occurrences given the entries `seen`, and
/// behind an item that no delimiter follows. A delimiter that no item
/// follows is left out of the result.
pub open spec fn scanned_delimitted<S: SetEntries, D: PegAstNode>(
    stream: Seq<char>,
    seen: Seq<S::Tree>,
) -> Survey<S::Tree, D::Tree>
    decreases stream.len(),
{
    match S::spec_parse(stream) {
        Outcome::Accepted { tree, length } => {
            if capped::<S>(seen, S::spec_entry_id(tree)) || !(0 < length <= stream.len()) {
                nothing_found()
            } else {
                match D::spec_parse(stream.skip(length as int)) {
                    Outcome::Accepted { tree: delimitter, length: width } => {
                        if length + width <= stream.len() {
                            let rest = scanned_delimitted::<S, D>(
                                stream.skip((length + width) as int),
                                seen.push(tree),
                            );
                            if rest.items.len() == 0 {
                                Survey {
                                    items: seq![tree],
                                    delimitters: Seq::empty(),
                                    length,
                                    reach: length + width,
                                }
                            } else {
                                Survey {
                                    items: seq![tree] + rest.items,
                                    delimitters: seq![delimitter] + rest.delimitters,
                                    length: length + width + rest.length,
                                    reach: length + width + rest.reach,
                                }
                            }
                        } else {
                            Survey {
                                items: seq![tree],
                                delimitters: Seq::empty(),
                                length,
                                reach: length,
                            }
                        }
                    },
                    Outcome::Rejected { .. } => Survey {
                        items: seq![tree],
                        delimitters: Seq::empty(),
                        length,
                        reach: length,
                    },
                }
            }
        },
        Outcome::Rejected { .. } => nothing_found(),
    }
}

/// The texts of the first `count` items, each followed by the text of its
/// delimiter.
pub open spec fn paired<S: PegAstNode, D: PegAstNode>(
    items: Seq<S::Tree>,
    delimitters: Seq<D::Tree>,
    count: nat,
) -> Seq<char>
    decreases count,
{
    if count == 0 {
        Seq::empty()
    } else {
        paired::<S, D>(items, delimitters, (count - 1) as nat) + S::text(items[count - 1])
            + D::text(delimitters[count - 1])
    }
}

/// How many items have a delimiter of their own.
pub open spec fn pairs(items: nat, delimitters: nat) -> nat {
    if items <= delimitters {
        items
    } else {
        delimitters
    }
}

/// The text of a delimited set: each item with the delimiter that follows
/// it, then the last item.
pub open spec fn interleaved<S: PegAstNode, D: PegAstNode>(
    items: Seq<S::Tree>,
    delimitters: Seq<D::Tree>,
) -> Seq<char> {
    paired::<S, D>(items, delimitters, pairs(items.len(), delimitters.len())) + if items.len()
        > 0 {
        S::text(items.last())
    } else {
        Seq::empty()
    }
}

/// Pairing with one more item and delimiter in front.
pub proof fn lemma_paired_front<S: PegAstNode, D: PegAstNode>(
    item: S::Tree,
    delimitter: D::Tree,
    items: Seq<S::Tree>,
    delimitters: Seq<D::Tree>,
    count: nat,
)
    requires
        count <= items.len(),
        count <= delimitters.len(),
    ensures
        paired::<S, D>(seq![item] + items, seq![delimitter] + delimitters, count + 1) == S::text(
            item,
        ) + D::text(delimitter) + paired::<S, D>(items, delimitters, count),
    decreases count,
{
    let longer = seq![item] + items;
    let marks = seq![delimitter] + delimitters;
    if count == 0 {
        assert(paired::<S, D>(longer, marks, 0) =~= Seq::<char>::empty());
        assert(paired::<S, D>(longer, marks, 1) =~= paired::<S, D>(longer, marks, 0) + S::text(
            longer[0],
        ) + D::text(marks[0]));
        assert(paired::<S, D>(longer, marks, 1) =~= S::text(item) + D::text(delimitter)
            + paired::<S, D>(items, delimitters, 0));
    } else {
        lemma_paired_front::<S, D>(item, delimitter, items, delimitters, (count - 1) as nat);
        assert(longer[count as int] == items[count - 1]);
        assert(marks[count as int] == delimitters[count - 1]);
        assert(paired::<S, D>(longer, marks, count + 1) =~= S::text(item) + D::text(delimitter)
            + paired::<S, D>(items, delimitters, count));
    }
}

/// The shape of a scan of delimited entries: it lies within the stream,
/// and there is one delimiter fewer than there are items.
pub proof fn lemma_scanned_delimitted_shape<S: SetEntries, D: PegAstNode>(
    stream: Seq<char>,
    seen: Seq<S::Tree>,
)
    ensures
        ({
            let scan = scanned_delimitted::<S, D>(stream, seen);
            &&& scan.length <= scan.reach <= stream.len()
            &&& scan.items.len() == 0 ==> scan.delimitters.len() == 0 && scan.length == 0
                && scan.reach == 0
            &&& scan.items.len() > 0 ==> scan.delimitters.len() + 1 == scan.items.len()
        }),
    decreases stream.len(),
{
    if let Outcome::Accepted { tree, length } = S::spec_parse(stream) {
        if !capped::<S>(seen, S::spec_entry_id(tree)) && 0 < length <= stream.len() {
            let behind = stream.skip(length as int);
            if let Outcome::Accepted { tree: delimitter, length: width } = D::spec_parse(behind) {
                if length + width <= stream.len() {
                    lemma_scanned_delimitted_shape::<S, D>(
                        stream.skip((length + width) as int),
                        seen.push(tree),
                    );
                }
            }
        }
    }
}

/// What a scan of delimited entries found renders exactly the prefix of
/// the stream up to the end of the last item.
pub proof fn lemma_scanned_delimitted_prefix<S: SetEntries, D: PegAstNode>(
    stream: Seq<char>,
    seen: Seq<S::Tree>,
)
    requires
        faithful::<S>(),
        faithful::<D>(),
    ensures
        ({
            let scan = scanned_delimitted::<S, D>(stream, seen);
            &&& scan.length <= stream.len()
            &&& interleaved::<S, D>(scan.items, scan.delimitters) == stream.take(
                scan.length as int,
            )
        }),
    decreases stream.len(),
{
    assert(faithful_on::<S>(stream));
    lemma_scanned_delimitted_shape::<S, D>(stream, seen);
    assert(stream.take(0) =~= Seq::<char>::empty());
    let empty_items = Seq::<S::Tree>::empty();
    let empty_marks = Seq::<D::Tree>::empty();
    assert(interleaved::<S, D>(empty_items, empty_marks) =~= Seq::<char>::empty());
    if let Outcome::Accepted { tree, length } = S::spec_parse(stream) {
        if !capped::<S>(seen, S::spec_entry_id(tree)) && 0 < length <= stream.len() {
            let behind = stream.skip(length as int);
            assert(faithful_on::<D>(behind));
            let alone = seq![tree];
            assert(interleaved::<S, D>(alone, empty_marks) =~= S::text(tree));
            if let Outcome::Accepted { tree: delimitter, length: width } = D::spec_parse(behind) {
                if length + width <= stream.len() {
                    let further = stream.skip((length + width) as int);
                    let rest = scanned_delimitted::<S, D>(further, seen.push(tree));
                    lemma_scanned_delimitted_prefix::<S, D>(further, seen.push(tree));
                    lemma_scanned_delimitted_shape::<S, D>(further, seen.push(tree));
                    if rest.items.len() > 0 {
                        let items = seq![tree] + rest.items;
                        let marks = seq![delimitter] + rest.delimitters;
                        lemma_paired_front::<S, D>(
                            tree,
                            delimitter,
                            rest.items,
                            rest.delimitters,
                            rest.delimitters.len(),
                        );
                        assert(items.last() == rest.items.last());
                        assert(behind.take(width as int) =~= stream.skip(length as int).take(
                            width as int,
                        ));
                        assert(stream.take(length as int) + behind.take(width as int)
                            + further.take(rest.length as int) =~= stream.take(
                            (length + width + rest.length) as int,
                        ));
                        assert(interleaved::<S, D>(items, marks) =~= S::text(tree) + D::text(
                            delimitter,
                        ) + interleaved::<S, D>(rest.items, rest.delimitters));
                    }
                }
            }
        }
    }
}

/// What the whole scan found, told from a scan in progress: the entries and
/// delimiters parsed so far, the end of the last item, the place of the
/// scan, and what the rest of the scan finds from there.
pub open spec fn resumed<X, Y>(
    items: Seq<X>,
    delimitters: Seq<Y>,
    length: nat,
    reach: nat,
    rest: Survey<X, Y>,
) -> Survey<X, Y> {
    if rest.items.len() == 0 {
        Survey {
            items,
            delimitters: if delimitters.len() > 0 {
                delimitters.drop_last()
            } else {
                delimitters
            },
            length,
            reach,
        }
    } else {
        Survey {
            items: items + rest.items,
            delimitters: delimitters + rest.delimitters,
            length: reach + rest.length,
            reach: reach + rest.reach,
        }
    }
}

/// One round of a scan in progress: behind an item that the scan accepts,
/// either a delimiter follows and the scan goes on behind it, or none does
/// and the scan ends behind the item.
pub proof fn lemma_scan_goes_on<S: SetEntries, D: PegAstNode>(
    current: Seq<char>,
    seen: Seq<S::Tree>,
    marks: Seq<D::Tree>,
    length: nat,
    reach: nat,
)
    requires
        S::spec_parse(current) is Accepted,
        !capped::<S>(seen, S::spec_entry_id(S::spec_parse(current)->tree)),
        0 < S::spec_parse(current)->length <= current.len(),
    ensures
        ({
            let tree = S::spec_parse(current)->tree;
            let taken = S::spec_parse(current)->length;
            let told = resumed(
                seen,
                marks,
                length,
                reach,
                scanned_delimitted::<S, D>(current, seen),
            );
            match D::spec_parse(current.skip(taken as int)) {
                Outcome::Accepted { tree: mark, length: width } => {
                    if taken + width <= current.len() {
                        told == resumed(
                            seen.push(tree),
                            marks.push(mark),
                            reach + taken,
                            reach + taken + width,
                            scanned_delimitted::<S, D>(
                                current.skip((taken + width) as int),
                                seen.push(tree),
                            ),
                        )
                    } else {
                        told == (Survey {
                            items: seen.push(tree),
                            delimitters: marks,
                            length: reach + taken,
                            reach: reach + taken,
                        })
                    }
                },
                Outcome::Rejected { .. } => told == (Survey {
                    items: seen.push(tree),
                    delimitters: marks,
                    length: reach + taken,
                    reach: reach + taken,
                }),
            }
        }),
{
    let tree = S::spec_parse(current)->tree;
    let taken = S::spec_parse(current)->length;
    let told = resumed(seen, marks, length, reach, scanned_delimitted::<S, D>(current, seen));
    assert(seen + seq![tree] =~= seen.push(tree));
    assert(marks + Seq::<D::Tree>::empty() =~= marks);
    if let Outcome::Accepted { tree: mark, length: width } = D::spec_parse(
        current.skip(taken as int),
    ) {
        if taken + width <= current.len() {
            let rest = scanned_delimitted::<S, D>(
                current.skip((taken + width) as int),
                seen.push(tree),
            );
            let next = resumed(
                seen.push(tree),
                marks.push(mark),
                reach + taken,
                reach + taken + width,
                rest,
            );
            assert(marks.push(mark).drop_last() =~= marks);
            assert(seen.push(tree) + rest.items =~= seen + (seq![tree] + rest.items));
            assert(marks.push(mark) + rest.delimitters =~= marks + (seq![mark]
                + rest.delimitters));
            assert(told.items =~= next.items);
            assert(told.delimitters =~= next.delimitters);
        }
    }
}

/// A set of entries separated by delimiters, in whatever order the entries
/// appear in the input, each alternative within its bounds.
#[derive(Clone, Debug, Eq, PartialEq)]
pub struct DelimittedSetOf<S: SetEntries, D: PegAstNode> {
    items: Vec<S>,
    delimitters: Vec<D>,
}

impl<S: SetEntries, D: PegAstNode> DelimittedSetOf<S, D> {
    /// The entries in the order in which they were parsed.
    pub closed spec fn entries(&self) -> Seq<S> {
        self.items@
    }

    /// The delimiters in the order in which they were parsed.
    pub closed spec fn separators(&self) -> Seq<D> {
        self.delimitters@
    }

    /// The entries in the order in which they were parsed.
    pub fn items(&self) -> (items: Vec<&S>)
        ensures
            items@.len() == self.entries().len(),
            forall|i: int| 0 <= i < items@.len() ==> *#[trigger] items@[i] == self.entries()[i],
    {
        let mut items: Vec<&S> = Vec::new();
        let mut index: usize = 0;
        while index < self.items.len()
            invariant
                index <= self.items.len(),
                items@.len() == index,
                forall|i: int| 0 <= i < index ==> *#[trigger] items@[i] == self.items@[i],
            decreases self.items.len() - index,
        {
            items.push(&self.items[index]);
            index = index + 1;
        }
        items
    }

    /// The delimiters in the order in which they were parsed.
    pub fn delimitters(&self) -> (delimitters: Vec<&D>)
        ensures
            delimitters@.len() == self.separators().len(),
            forall|i: int|
                0 <= i < delimitters@.len() ==> *#[trigger] delimitters@[i] == self.separators()[i],
    {
        let mut delimitters: Vec<&D> = Vec::new();
        let mut index: usize = 0;
        while index < self.delimitters.len()
            invariant
                index <= self.delimitters.len(),
                delimitters@.len() == index,
                forall|i: int|
                    0 <= i < index ==> *#[trigger] delimitters@[i] == self.delimitters@[i],
            decreases self.delimitters.len() - index,
        {
            delimitters.push(&self.delimitters[index]);
            index = index + 1;
        }
        delimitters
    }
}

impl<S: SetEntries, D: PegAstNode> DelimittedSetOf<S, D> {
    /// The entries in order, each open to change. The delimiters stay as they are.
    pub fn items_mut(&mut self) -> (items: Vec<&mut S>)
        ensures
            items@.len() == old(self).entries().len(),
            forall|i: int|
                0 <= i < items@.len() ==> *#[trigger] items@[i] == old(self).entries()[i],
            final(self).entries().len() == items@.len(),
            forall|i: int|
                0 <= i < items@.len() ==> #[trigger] final(self).entries()[i] == *final(items@[i]),
            final(self).separators() == old(self).separators(),
    {
        let mut items: Vec<&mut S> = Vec::new();
        let mut rest: &mut [S] = self.items.as_mut_slice();
        let ghost whole = rest;
        let ghost start = rest@;
        assert(Seq::new(items@.len(), |i: int| *final(items@[i])) + final(rest)@ =~= final(whole)@);
        while rest.len() > 0
            invariant
                items@.len() + rest@.len() == start.len(),
                forall|i: int| 0 <= i < items@.len() ==> *#[trigger] items@[i] == start[i],
                forall|i: int|
                    0 <= i < rest@.len() ==> #[trigger] rest@[i] == start[items@.len() + i],
                final(whole)@ == Seq::new(items@.len(), |i: int| *final(items@[i])) + final(rest)@,
            decreases rest@.len(),
        {
            let ghost before = items@;
            let (first, others) = rest.split_at_mut(1);
            let ghost head = first;
            match first.first_mut() {
                Some(node) => {
                    let ghost taken = node;
                    items.push(node);
                    proof {
                        assert(final(head)@ =~= seq![*final(taken)]);
                        assert(Seq::new(items@.len(), |i: int| *final(items@[i])) =~= Seq::new(
                            before.len(),
                            |i: int| *final(before[i]),
                        ) + seq![*final(taken)]);
                    }
                },
                None => {},
            }
            rest = others;
            assert(final(whole)@ =~= Seq::new(items@.len(), |i: int| *final(items@[i]))
                + final(rest)@);
        }
        assert(final(rest)@ =~= Seq::<S>::empty());
        items
    }

    /// The delimiters in order, each open to change. The entries stay as they are.
    pub fn delimitters_mut(&mut self) -> (delimitters: Vec<&mut D>)
        ensures
            delimitters@.len() == old(self).separators().len(),
            forall|i: int|
                0 <= i < delimitters@.len() ==> *#[trigger] delimitters@[i] == old(self).separators()[i],
            final(self).separators().len() == delimitters@.len(),
            forall|i: int|
                0 <= i < delimitters@.len() ==> #[trigger] final(self).separators()[i] == *final(delimitters@[i]),
            final(self).entries() == old(self).entries(),
    {
        let mut delimitters: Vec<&mut D> = Vec::new();
        let mut rest: &mut [D] = self.delimitters.as_mut_slice();
        let ghost whole = rest;
        let ghost start = rest@;
        assert(Seq::new(delimitters@.len(), |i: int| *final(delimitters@[i])) + final(rest)@ =~= final(whole)@);
        while rest.len() > 0
            invariant
                delimitters@.len() + rest@.len() == start.len(),
                forall|i: int| 0 <= i < delimitters@.len() ==> *#[trigger] delimitters@[i] == start[i],
                forall|i: int|
                    0 <= i < rest@.len() ==> #[trigger] rest@[i] == start[delimitters@.len() + i],
                final(whole)@ == Seq::new(delimitters@.len(), |i: int| *final(delimitters@[i])) + final(rest)@,
            decreases rest@.len(),
        {
            let ghost before = delimitters@;
            let (first, others) = rest.split_at_mut(1);
            let ghost head = first;
            match first.first_mut() {
                Some(node) => {
                    let ghost taken = node;
                    delimitters.push(node);
                    proof {
                        assert(final(head)@ =~= seq![*final(taken)]);
                        assert(Seq::new(delimitters@.len(), |i: int| *final(delimitters@[i])) =~= Seq::new(
                            before.len(),
                            |i: int| *final(before[i]),
                        ) + seq![*final(taken)]);
                    }
                },
                None => {},
            }
            rest = others;
            assert(final(whole)@ =~= Seq::new(delimitters@.len(), |i: int| *final(delimitters@[i]))
                + final(rest)@);
        }
        assert(final(rest)@ =~= Seq::<D>::empty());
        delimitters
    }
}

impl<S: SetEntries, D: PegAstNode> PegAstNode for DelimittedSetOf<S, D> {
    type Tree = (Seq<S::Tree>, Seq<D::Tree>);

    open spec fn well_formed() -> bool {
        countable::<S>() && D::well_formed()
    }

    open spec fn tree(&self) -> (Seq<S::Tree>, Seq<D::Tree>) {
        (trees_of::<S>(self.entries()), trees_of::<D>(self.separators()))
    }

    open spec fn text(tree: (Seq<S::Tree>, Seq<D::Tree>)) -> Seq<char> {
        interleaved::<S, D>(tree.0, tree.1)
    }

    open spec fn spec_parse(stream: Seq<char>) -> Outcome<(Seq<S::Tree>, Seq<D::Tree>)> {
        let scan = scanned_delimitted::<S, D>(stream, Seq::empty());
        if meets_minimums::<S>(scan.items) {
            Outcome::Accepted { tree: (scan.items, scan.delimitters), length: scan.length }
        } else {
            Outcome::Rejected { expected: Self::spec_expecting(), offset: scan.reach }
        }
    }

    open spec fn spec_expecting() -> Seq<Seq<char>> {
        S::spec_expecting()
    }

    fn parse<I: Input>(input: &mut I) -> (result: Result<Self, ParseError>) {
        let ghost start = input.remaining();
        let ghost total = scanned_delimitted::<S, D>(start, Seq::empty());
        let ghost mut length: nat = 0;
        let ghost mut reach: nat = 0;
        let mut items: Vec<S> = Vec::new();
        let mut delimitters: Vec<D> = Vec::new();
        let mut counts = no_counts::<S>();
        let mut view = input.peek_only();
        let ghost opened = view;
        let mut position = view.position();
        let mut ending_with_delimitter = false;
        let mut more = true;
        assert(start.skip(0) =~= start);
        assert(trees_of::<S>(items@) =~= Seq::<S::Tree>::empty());
        assert(trees_of::<D>(delimitters@) =~= Seq::<D::Tree>::empty());
        proof {
            let rest = scanned_delimitted::<S, D>(start, Seq::empty());
            let told = resumed(
                Seq::<S::Tree>::empty(),
                Seq::<D::Tree>::empty(),
                0,
                0,
                rest,
            );
            lemma_scanned_delimitted_shape::<S, D>(start, Seq::empty());
            assert(Seq::<S::Tree>::empty() + rest.items =~= rest.items);
            assert(Seq::<D::Tree>::empty() + rest.delimitters =~= rest.delimitters);
            assert(told.items == total.items);
            assert(told.delimitters =~= total.delimitters);
            assert(told == total);
        }
        while more
            invariant
                countable::<S>(),
                D::well_formed(),
                view.wf(),
                total == scanned_delimitted::<S, D>(start, Seq::empty()),
                length <= reach <= start.len(),
                items@.len() <= reach,
                view.remaining() == start.skip(reach as int),
                view.spec_position() == opened.spec_position() + reach,
                position == opened.spec_position() + length,
                view.backing().remaining() == opened.backing().remaining(),
                *final(view.backing()) == *final(opened.backing()),
                counted::<S>(counts@, trees_of::<S>(items@)),
                more ==> delimitters@.len() == items@.len(),
                more ==> ending_with_delimitter == (items@.len() > 0),
                more ==> total == resumed(
                    trees_of::<S>(items@),
                    trees_of::<D>(delimitters@),
                    length,
                    reach,
                    scanned_delimitted::<S, D>(view.remaining(), trees_of::<S>(items@)),
                ),
                !more ==> total.items == trees_of::<S>(items@),
                !more ==> total.length == length && total.reach == reach,
                !more && ending_with_delimitter ==> delimitters@.len() > 0 && total.delimitters
                    == trees_of::<D>(delimitters@).drop_last(),
                !more && !ending_with_delimitter ==> total.delimitters == trees_of::<D>(
                    delimitters@,
                ),
            decreases
                    view.remaining().len(),
                    (if more {
                        1nat
                    } else {
                        0nat
                    }),
        {
            let ghost current = view.remaining();
            let ghost seen = trees_of::<S>(items@);
            let ghost marks = trees_of::<D>(delimitters@);
            let attempt = {
                let mut inner = view.peek_only();
                let attempt = S::parse(&mut inner);
                let position = inner.position();
                proof {
                    inner.lemma_settled();
                }
                (attempt, position)
            };
            match attempt.0 {
                Ok(node) => {
                    let entry_id = node.entry_id();
                    let ghost tree = node.tree();
                    let ghost taken = S::spec_parse(current)->length;
                    proof {
                        let i = choose|i: int|
                            0 <= i < S::spec_all_entry_ids().len() && S::spec_all_entry_ids()[i]
                                == entry_id;
                        assert(counts@.contains_key(S::spec_all_entry_ids()[i]));
                        lemma_occurrences_bound::<S>(seen, entry_id);
                    }
                    let count = match counts.get(&entry_id) {
                        Some(count) => *count,
                        None => 0,
                    };
                    let full = match S::max_repetitions(entry_id) {
                        Some(most) => count >= most,
                        None => false,
                    };
                    if full {
                        more = false;
                    } else {
                        count_one::<S>(&mut counts, entry_id, count, Ghost(seen), Ghost(tree));
                        items.push(node);
                        view.advance_to(attempt.1);
                        position = attempt.1;
                        ending_with_delimitter = false;
                        let ghost behind = current.skip(taken as int);
                        proof {
                            lemma_scan_goes_on::<S, D>(current, seen, marks, length, reach);
                            assert(behind =~= start.skip((reach + taken) as int));
                            assert(trees_of::<S>(items@) =~= seen.push(tree));
                        }
                        match D::parse(&mut view) {
                            Ok(delimitter) => {
                                let ghost width = D::spec_parse(behind)->length;
                                let ghost mark = delimitter.tree();
                                delimitters.push(delimitter);
                                ending_with_delimitter = true;
                                proof {
                                    let further = current.skip((taken + width) as int);
                                    assert(behind.skip(width as int) =~= further);
                                    assert(further =~= start.skip((reach + taken + width) as int));
                                    assert(trees_of::<D>(delimitters@) =~= marks.push(mark));
                                    length = reach + taken;
                                    reach = reach + taken + width;
                                }
                            },
                            Err(_) => {
                                more = false;
                                proof {
                                    length = reach + taken;
                                    reach = reach + taken;
                                }
                            },
                        }
                    }
                },
                Err(_) => {
                    more = false;
                },
            }
        }
        if !minimums_met::<S>(&counts, Ghost(trees_of::<S>(items@))) {
            let position = view.position();
            proof {
                view.lemma_settled();
            }
            return Err(ParseError { expected: Self::expecting(), position });
        }
        proof {
            view.lemma_settled();
        }
        if ending_with_delimitter {
            let ghost marks = trees_of::<D>(delimitters@);
            let _ = delimitters.pop();
            assert(trees_of::<D>(delimitters@) =~= marks.drop_last());
        }
        input.advance_to(position);
        Ok(DelimittedSetOf { items, delimitters })
    }

    fn parsed_string(&self) -> (text: Cow<'_, str>) {
        let ghost items = trees_of::<S>(self.items@);
        let ghost marks = trees_of::<D>(self.delimitters@);
        let mut string = String::new();
        let mut index: usize = 0;
        while index < self.items.len() && index < self.delimitters.len()
            invariant
                index <= self.items.len(),
                index <= self.delimitters.len(),
                items == trees_of::<S>(self.items@),
                marks == trees_of::<D>(self.delimitters@),
                string@ == paired::<S, D>(items, marks, index as nat),
            decreases self.items.len() - index,
        {
            string.append(as_str(&self.items[index].parsed_string()));
            string.append(as_str(&self.delimitters[index].parsed_string()));
            index = index + 1;
            assert(string@ =~= paired::<S, D>(items, marks, index as nat));
        }
        if self.items.len() > 0 {
            let last = self.items.len() - 1;
            string.append(as_str(&self.items[last].parsed_string()));
        }
        assert(string@ =~= interleaved::<S, D>(items, marks));
        Cow::Owned(string)
    }

    fn expecting() -> (expected: Vec<String>) {
        S::expecting()
    }
}

/// A delimited set renders what it consumed: each entry with the delimiter
/// behind it, then the last entry.
pub proof fn lemma_delimitted_set_of_faithful<S: SetEntries, D: PegAstNode>()
    requires
        faithful::<S>(),
        faithful::<D>(),
    ensures
        faithful::<DelimittedSetOf<S, D>>(),
{
    assert forall|stream: Seq<char>| #[trigger] faithful_on::<DelimittedSetOf<S, D>>(stream) by {
        lemma_scanned_delimitted_prefix::<S, D>(stream, Seq::empty());
        lemma_scanned_delimitted_shape::<S, D>(stream, Seq::empty());
    }
}

} // verus!
