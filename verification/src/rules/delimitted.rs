use vstd::prelude::*;
use std::borrow::Cow;
use crate::input::Input;
use crate::rules::all_of::{lemma_pair_faithful, then};
use crate::rules::zero_or_more::{joined, lemma_repeated_prefix, never_empty, repeated, trees_of};
use crate::text::as_str;
use crate::{faithful, faithful_on, Outcome, ParseError, PegAstNode};

verus! {

/// One element of a delimited sequence read in order: an item or a
/// delimiter.
#[derive(Clone, Debug, Eq, PartialEq)]
pub enum ItemOrDelimitter<T, D> {
    Item(T),
    Delimitter(D),
}

/// Items of `T` with a delimiter of `D` between each two: a head, then as
/// many pairs of a delimiter and an item as can be parsed.
#[derive(Clone, Debug, Eq, PartialEq)]
pub struct Delimitted<T, D> {
    pub head: T,
    pub tail: Vec<(D, T)>,
}

impl<T, D> Delimitted<T, D> {
    /// The items in order: the head, then the item of each pair.
    pub fn items(&self) -> (items: Vec<&T>)
        ensures
            items@.len() == self.tail@.len() + 1,
            *items@[0] == self.head,
            forall|i: int| 0 <= i < self.tail@.len() ==> *#[trigger] items@[i + 1] == self.tail@[i].1,
    {
        let mut items: Vec<&T> = Vec::new();
        items.push(&self.head);
        let mut index: usize = 0;
        while index < self.tail.len()
            invariant
                index <= self.tail.len(),
                items@.len() == index + 1,
                *items@[0] == self.head,
                forall|i: int| 0 <= i < index ==> *#[trigger] items@[i + 1] == self.tail@[i].1,
            decreases self.tail.len() - index,
        {
            items.push(&self.tail[index].1);
            index = index + 1;
        }
        items
    }

    /// The delimiters in order.
    pub fn delimitters(&self) -> (delimitters: Vec<&D>)
        ensures
            delimitters@.len() == self.tail@.len(),
            forall|i: int| 0 <= i < self.tail@.len() ==> *#[trigger] delimitters@[i] == self.tail@[i].0,
    {
        let mut delimitters: Vec<&D> = Vec::new();
        let mut index: usize = 0;
        while index < self.tail.len()
            invariant
                index <= self.tail.len(),
                delimitters@.len() == index,
                forall|i: int| 0 <= i < index ==> *#[trigger] delimitters@[i] == self.tail@[i].0,
            decreases self.tail.len() - index,
        {
            delimitters.push(&self.tail[index].0);
            index = index + 1;
        }
        delimitters
    }

    /// Items and delimiters as they alternate in the text: the head, then
    /// for each pair its delimiter and its item.
    pub fn items_and_delimitters(&self) -> (parts: Vec<ItemOrDelimitter<&T, &D>>)
        ensures
            parts@.len() == 2 * self.tail@.len() + 1,
            parts@[0] == ItemOrDelimitter::<&T, &D>::Item(&self.head),
            forall|i: int|
                0 <= i < self.tail@.len() ==> #[trigger] parts@[2 * i + 1] == ItemOrDelimitter::<
                    &T,
                    &D,
                >::Delimitter(&self.tail@[i].0),
            forall|i: int|
                0 <= i < self.tail@.len() ==> #[trigger] parts@[2 * i + 2] == ItemOrDelimitter::<
                    &T,
                    &D,
                >::Item(&self.tail@[i].1),
    {
        let mut parts: Vec<ItemOrDelimitter<&T, &D>> = Vec::new();
        parts.push(ItemOrDelimitter::Item(&self.head));
        let mut index: usize = 0;
        while index < self.tail.len()
            invariant
                index <= self.tail.len(),
                parts@.len() == 2 * index + 1,
                parts@[0] == ItemOrDelimitter::<&T, &D>::Item(&self.head),
                forall|i: int|
                    0 <= i < index ==> #[trigger] parts@[2 * i + 1] == ItemOrDelimitter::<
                        &T,
                        &D,
                    >::Delimitter(&self.tail@[i].0),
                forall|i: int|
                    0 <= i < index ==> #[trigger] parts@[2 * i + 2] == ItemOrDelimitter::<
                        &T,
                        &D,
                    >::Item(&self.tail@[i].1),
            decreases self.tail.len() - index,
        {
            parts.push(ItemOrDelimitter::Delimitter(&self.tail[index].0));
            parts.push(ItemOrDelimitter::Item(&self.tail[index].1));
            index = index + 1;
        }
        parts
    }
}

impl<T, D> Delimitted<T, D> {
    /// The items in order, each open to change: the head, then the item of
    /// each pair. The delimiters stay as they are.
    pub fn items_mut(&mut self) -> (items: Vec<&mut T>)
        ensures
            items@.len() == old(self).tail@.len() + 1,
            *items@[0] == old(self).head,
            forall|i: int|
                0 <= i < old(self).tail@.len() ==> *#[trigger] items@[i + 1] == old(self).tail@[i].1,
            final(self).head == *final(items@[0]),
            final(self).tail@.len() == old(self).tail@.len(),
            forall|i: int|
                0 <= i < old(self).tail@.len() ==> #[trigger] final(self).tail@[i] == (
                    old(self).tail@[i].0,
                    *final(items@[i + 1]),
                ),
    {
        let mut items: Vec<&mut T> = Vec::new();
        let lead = &mut self.head;
        let ghost first_item = lead;
        items.push(lead);
        let mut rest: &mut [(D, T)] = self.tail.as_mut_slice();
        let ghost whole = rest;
        let ghost start = rest@;
        assert(Seq::new((items@.len() - 1) as nat, |i: int| (start[i].0, *final(items@[i + 1])))
            + final(rest)@ =~= final(whole)@);
        while rest.len() > 0
            invariant
                items@.len() >= 1,
                items@.len() - 1 + rest@.len() == start.len(),
                *items@[0] == old(self).head,
                *final(items@[0]) == *final(first_item),
                forall|i: int| 0 <= i < items@.len() - 1 ==> *#[trigger] items@[i + 1] == start[i].1,
                forall|i: int|
                    0 <= i < rest@.len() ==> #[trigger] rest@[i] == start[items@.len() - 1 + i],
                final(whole)@ == Seq::new(
                    (items@.len() - 1) as nat,
                    |i: int| (start[i].0, *final(items@[i + 1])),
                ) + final(rest)@,
            decreases rest@.len(),
        {
            let ghost before = items@;
            let (first, others) = rest.split_at_mut(1);
            let ghost head = first;
            match first.first_mut() {
                Some(pair) => {
                    let ghost whole_pair = pair;
                    let item = &mut pair.1;
                    let ghost taken = item;
                    items.push(item);
                    proof {
                        assert(*final(whole_pair) == (whole_pair.0, *final(taken)));
                        assert(final(head)@ =~= seq![*final(whole_pair)]);
                        assert(Seq::new(
                            (items@.len() - 1) as nat,
                            |i: int| (start[i].0, *final(items@[i + 1])),
                        ) =~= Seq::new(
                            (before.len() - 1) as nat,
                            |i: int| (start[i].0, *final(before[i + 1])),
                        ) + seq![*final(whole_pair)]);
                    }
                },
                None => {},
            }
            rest = others;
            assert(final(whole)@ =~= Seq::new(
                (items@.len() - 1) as nat,
                |i: int| (start[i].0, *final(items@[i + 1])),
            ) + final(rest)@);
        }
        assert(final(rest)@ =~= Seq::<(D, T)>::empty());
        items
    }
}

impl<T, D> Delimitted<T, D> {
    /// The delimiters in order, each open to change. The items stay as they
    /// are.
    pub fn delimitters_mut(&mut self) -> (delimitters: Vec<&mut D>)
        ensures
            delimitters@.len() == old(self).tail@.len(),
            forall|i: int|
                0 <= i < old(self).tail@.len() ==> *#[trigger] delimitters@[i] == old(self).tail@[i].0,
            final(self).head == old(self).head,
            final(self).tail@.len() == old(self).tail@.len(),
            forall|i: int|
                0 <= i < old(self).tail@.len() ==> #[trigger] final(self).tail@[i] == (
                    *final(delimitters@[i]),
                    old(self).tail@[i].1,
                ),
    {
        let mut delimitters: Vec<&mut D> = Vec::new();
        let mut rest: &mut [(D, T)] = self.tail.as_mut_slice();
        let ghost whole = rest;
        let ghost start = rest@;
        assert(Seq::new(delimitters@.len(), |i: int| (*final(delimitters@[i]), start[i].1))
            + final(rest)@ =~= final(whole)@);
        while rest.len() > 0
            invariant
                delimitters@.len() + rest@.len() == start.len(),
                forall|i: int|
                    0 <= i < delimitters@.len() ==> *#[trigger] delimitters@[i] == start[i].0,
                forall|i: int|
                    0 <= i < rest@.len() ==> #[trigger] rest@[i] == start[delimitters@.len() + i],
                final(whole)@ == Seq::new(
                    delimitters@.len(),
                    |i: int| (*final(delimitters@[i]), start[i].1),
                ) + final(rest)@,
            decreases rest@.len(),
        {
            let ghost before = delimitters@;
            let (first, others) = rest.split_at_mut(1);
            let ghost head = first;
            match first.first_mut() {
                Some(pair) => {
                    let ghost whole_pair = pair;
                    let delimitter = &mut pair.0;
                    let ghost taken = delimitter;
                    delimitters.push(delimitter);
                    proof {
                        assert(*final(whole_pair) == (*final(taken), whole_pair.1));
                        assert(final(head)@ =~= seq![*final(whole_pair)]);
                        assert(Seq::new(
                            delimitters@.len(),
                            |i: int| (*final(delimitters@[i]), start[i].1),
                        ) =~= Seq::new(before.len(), |i: int| (*final(before[i]), start[i].1))
                            + seq![*final(whole_pair)]);
                    }
                },
                None => {},
            }
            rest = others;
            assert(final(whole)@ =~= Seq::new(
                delimitters@.len(),
                |i: int| (*final(delimitters@[i]), start[i].1),
            ) + final(rest)@);
        }
        assert(final(rest)@ =~= Seq::<(D, T)>::empty());
        delimitters
    }

    /// Items and delimiters as they alternate in the text, each open to
    /// change: the head, then for each pair its delimiter and its item.
    pub fn items_and_delimitters_mut(&mut self) -> (parts: Vec<ItemOrDelimitter<&mut T, &mut D>>)
        ensures
            parts@.len() == 2 * old(self).tail@.len() + 1,
            parts@[0] is Item,
            *held_item(parts@[0]) == old(self).head,
            final(self).head == *final(held_item(parts@[0])),
            final(self).tail@.len() == old(self).tail@.len(),
            forall|i: int|
                0 <= i < old(self).tail@.len() ==> (#[trigger] parts@[2 * i + 1]) is Delimitter
                    && *held_delimitter(parts@[2 * i + 1]) == old(self).tail@[i].0
                    && final(self).tail@[i].0 == *final(held_delimitter(parts@[2 * i + 1])),
            forall|i: int|
                0 <= i < old(self).tail@.len() ==> (#[trigger] parts@[2 * i + 2]) is Item
                    && *held_item(parts@[2 * i + 2]) == old(self).tail@[i].1
                    && final(self).tail@[i].1 == *final(held_item(parts@[2 * i + 2])),
    {
        let mut parts: Vec<ItemOrDelimitter<&mut T, &mut D>> = Vec::new();
        let lead = &mut self.head;
        let ghost first_item = lead;
        parts.push(ItemOrDelimitter::Item(lead));
        let mut rest: &mut [(D, T)] = self.tail.as_mut_slice();
        let ghost whole = rest;
        let ghost start = rest@;
        let ghost mut done: nat = 0;
        assert(Seq::new(
            done,
            |i: int|
                (
                    *final(held_delimitter(parts@[2 * i + 1])),
                    *final(held_item(parts@[2 * i + 2])),
                ),
        ) + final(rest)@ =~= final(whole)@);
        while rest.len() > 0
            invariant
                parts@.len() == 2 * done + 1,
                done + rest@.len() == start.len(),
                parts@[0] is Item,
                *held_item(parts@[0]) == old(self).head,
                *final(held_item(parts@[0])) == *final(first_item),
                forall|i: int|
                    0 <= i < done ==> (#[trigger] parts@[2 * i + 1]) is Delimitter
                        && *held_delimitter(parts@[2 * i + 1]) == start[i].0,
                forall|i: int|
                    0 <= i < done ==> (#[trigger] parts@[2 * i + 2]) is Item && *held_item(
                        parts@[2 * i + 2],
                    ) == start[i].1,
                forall|i: int| 0 <= i < rest@.len() ==> #[trigger] rest@[i] == start[done + i],
                final(whole)@ == Seq::new(
                    done,
                    |i: int|
                        (
                            *final(held_delimitter(parts@[2 * i + 1])),
                            *final(held_item(parts@[2 * i + 2])),
                        ),
                ) + final(rest)@,
            decreases rest@.len(),
        {
            let ghost before = parts@;
            let (first, others) = rest.split_at_mut(1);
            let ghost head = first;
            match first.first_mut() {
                Some(pair) => {
                    let ghost whole_pair = pair;
                    let delimitter = &mut pair.0;
                    let item = &mut pair.1;
                    let ghost mark = delimitter;
                    let ghost taken = item;
                    parts.push(ItemOrDelimitter::Delimitter(delimitter));
                    parts.push(ItemOrDelimitter::Item(item));
                    proof {
                        assert(*final(whole_pair) == (*final(mark), *final(taken)));
                        assert(final(head)@ =~= seq![*final(whole_pair)]);
                        assert(Seq::new(
                            done + 1,
                            |i: int|
                                (
                                    *final(held_delimitter(parts@[2 * i + 1])),
                                    *final(held_item(parts@[2 * i + 2])),
                                ),
                        ) =~= Seq::new(
                            done,
                            |i: int|
                                (
                                    *final(held_delimitter(before[2 * i + 1])),
                                    *final(held_item(before[2 * i + 2])),
                                ),
                        ) + seq![*final(whole_pair)]);
                        done = done + 1;
                    }
                },
                None => {},
            }
            rest = others;
            assert(final(whole)@ =~= Seq::new(
                done,
                |i: int|
                    (
                        *final(held_delimitter(parts@[2 * i + 1])),
                        *final(held_item(parts@[2 * i + 2])),
                    ),
            ) + final(rest)@);
        }
        assert(final(rest)@ =~= Seq::<(D, T)>::empty());
        parts
    }
}

/// The item that `part` holds a reference to.
pub open spec fn held_item<'a, T, D>(part: ItemOrDelimitter<&'a mut T, &'a mut D>) -> &'a mut T {
    match part {
        ItemOrDelimitter::Item(item) => item,
        ItemOrDelimitter::Delimitter(_) => arbitrary(),
    }
}

/// The delimiter that `part` holds a reference to.
pub open spec fn held_delimitter<'a, T, D>(
    part: ItemOrDelimitter<&'a mut T, &'a mut D>,
) -> &'a mut D {
    match part {
        ItemOrDelimitter::Item(_) => arbitrary(),
        ItemOrDelimitter::Delimitter(delimitter) => delimitter,
    }
}

impl<T: PegAstNode, D: PegAstNode> PegAstNode for Delimitted<T, D> {
    type Tree = (T::Tree, Seq<(D::Tree, T::Tree)>);

    open spec fn well_formed() -> bool {
        T::well_formed() && D::well_formed() && never_empty::<(D, T)>()
    }

    open spec fn tree(&self) -> (T::Tree, Seq<(D::Tree, T::Tree)>) {
        (self.head.tree(), trees_of::<(D, T)>(self.tail@))
    }

    open spec fn text(tree: (T::Tree, Seq<(D::Tree, T::Tree)>)) -> Seq<char> {
        T::text(tree.0) + joined::<(D, T)>(tree.1)
    }

    open spec fn spec_parse(stream: Seq<char>) -> Outcome<(T::Tree, Seq<(D::Tree, T::Tree)>)> {
        then(
            T::spec_parse(stream),
            |taken: nat|
                Outcome::Accepted {
                    tree: repeated::<(D, T)>(stream.skip(taken as int)).0,
                    length: repeated::<(D, T)>(stream.skip(taken as int)).1,
                },
        )
    }

    open spec fn spec_expecting() -> Seq<Seq<char>> {
        T::spec_expecting()
    }

    fn parse<I: Input>(input: &mut I) -> (result: Result<Self, ParseError>) {
        let ghost stream = input.remaining();
        let mut view = input.peek_only();
        let head = match T::parse(&mut view) {
            Ok(node) => node,
            Err(error) => {
                proof {
                    view.lemma_settled();
                }
                return Err(error);
            },
        };
        let ghost taken = T::spec_parse(stream)->length;
        let tail = match Vec::<(D, T)>::parse(&mut view) {
            Ok(nodes) => nodes,
            Err(error) => {
                proof {
                    view.lemma_settled();
                }
                return Err(error);
            },
        };
        let position = view.position();
        proof {
            view.lemma_settled();
            let more = repeated::<(D, T)>(stream.skip(taken as int)).1;
            assert(stream.skip(taken as int).skip(more as int) =~= stream.skip(
                (taken + more) as int,
            ));
        }
        input.advance_to(position);
        Ok(Delimitted { head, tail })
    }

    fn parsed_string(&self) -> (text: Cow<'_, str>) {
        if self.tail.is_empty() {
            assert(trees_of::<(D, T)>(self.tail@) =~= Seq::<(D::Tree, T::Tree)>::empty());
            assert(T::text(self.head.tree()) + joined::<(D, T)>(
                Seq::<(D::Tree, T::Tree)>::empty(),
            ) =~= T::text(self.head.tree()));
            self.head.parsed_string()
        } else {
            let mut string = String::new();
            string.append(as_str(&self.head.parsed_string()));
            string.append(as_str(&self.tail.parsed_string()));
            assert(string@ =~= Self::text(self.tree()));
            Cow::Owned(string)
        }
    }

    fn expecting() -> (expected: Vec<String>) {
        T::expecting()
    }

    fn parsed_string_length(&self) -> (length: usize) {
        self.head.parsed_string_length() + self.tail.parsed_string_length()
    }
}

/// A delimited sequence renders what it consumed: the head, then each
/// delimiter and item.
pub proof fn lemma_delimitted_faithful<T: PegAstNode, D: PegAstNode>()
    requires
        faithful::<T>(),
        faithful::<D>(),
    ensures
        faithful::<Delimitted<T, D>>(),
{
    assert forall|stream: Seq<char>| #[trigger] faithful_on::<Delimitted<T, D>>(stream) by {
        assert(faithful_on::<T>(stream));
        if let Outcome::Accepted { tree: head, length: taken } = T::spec_parse(stream) {
            let rest = stream.skip(taken as int);
            lemma_pair_faithful::<D, T>();
            lemma_repeated_prefix::<(D, T)>(rest);
            assert(stream.take(taken as int) + rest.take(repeated::<(D, T)>(rest).1 as int)
                =~= stream.take((taken + repeated::<(D, T)>(rest).1) as int));
        }
    }
}

} // verus!
