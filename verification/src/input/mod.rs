//! Inputs: the cursor that consumes a stream of characters, and the
//! speculative views through which rules look ahead and give up without
//! consuming anything.

pub mod buffered_iterator;
pub mod source;

use vstd::prelude::*;
use self::buffered_iterator::{beyond, leading, BufferedIterator, PeekingIntoBufferedIterator};
use self::source::CharSource;
use crate::text::chars_of;

verus! {

/// What every input offers to a grammar rule: a place in the stream, ways to
/// look at what follows and to move over it, and speculative views.
///
/// An input is described by `spec_position`, the number of characters before
/// its place, and `remaining`, the characters from its place to the end of
/// the stream. `backing` names the cursor that a speculative view borrows, so
/// that contracts can say that an operation leaves the borrow in place; an
/// input that owns its cursor gives a fixed value.
pub trait Input: Sized {
    type Source: CharSource;

    /// The input's invariant; it implies that every place up to the end of
    /// the stream fits in `usize`.
    spec fn wf(&self) -> bool;

    /// The number of characters of the stream that lie before the input.
    spec fn spec_position(&self) -> nat;

    /// The characters from the input's place to the end of the stream.
    spec fn remaining(&self) -> Seq<char>;

    /// The cursor that the input borrows, where it is a speculative view.
    spec fn backing(&self) -> &mut BufferedIterator<Self::Source>;

    /// The input's place in the stream.
    fn position(&self) -> (position: usize)
        requires
            self.wf(),
        ensures
            position == self.spec_position(),
    ;

    /// Moves `amount` characters on. An input that consumes stops at the end
    /// of the stream; a view goes as far as it is told.
    fn advance(&mut self, amount: usize)
        requires
            old(self).wf(),
            old(self).spec_position() + amount <= usize::MAX,
        ensures
            final(self).wf(),
            final(self).remaining() == beyond(old(self).remaining(), amount as nat),
            amount <= old(self).remaining().len() ==> final(self).spec_position()
                == old(self).spec_position() + amount,
            old(self).spec_position() + leading(old(self).remaining(), amount as nat).len()
                <= final(self).spec_position() <= old(self).spec_position() + amount,
            final(self).backing().remaining() == old(self).backing().remaining(),
            *final(final(self).backing()) == *final(old(self).backing()),
    ;

    /// Moves forward to `position`, which must not lie behind the input.
    fn advance_to(&mut self, position: usize)
        requires
            old(self).wf(),
            position >= old(self).spec_position(),
        ensures
            final(self).wf(),
            final(self).remaining() == beyond(
                old(self).remaining(),
                (position - old(self).spec_position()) as nat,
            ),
            position - old(self).spec_position() <= old(self).remaining().len()
                ==> final(self).spec_position() == position,
            old(self).spec_position() <= final(self).spec_position() <= position,
            final(self).backing().remaining() == old(self).backing().remaining(),
            *final(final(self).backing()) == *final(old(self).backing()),
    ;

    /// Whether the stream continues with `string`. Nothing is consumed.
    fn check(&mut self, string: &str) -> (found: bool)
        requires
            old(self).wf(),
        ensures
            found == string@.is_prefix_of(old(self).remaining()),
            final(self).wf(),
            final(self).spec_position() == old(self).spec_position(),
            final(self).remaining() == old(self).remaining(),
            final(self).backing().remaining() == old(self).backing().remaining(),
            *final(final(self).backing()) == *final(old(self).backing()),
    ;

    /// Moves over `string` where the stream continues with it, and stays
    /// where it does not.
    fn consume(&mut self, string: &str) -> (found: bool)
        requires
            old(self).wf(),
        ensures
            found == string@.is_prefix_of(old(self).remaining()),
            final(self).wf(),
            final(self).spec_position() == old(self).spec_position() + if found {
                string@.len()
            } else {
                0
            },
            final(self).remaining() == if found {
                old(self).remaining().skip(string@.len() as int)
            } else {
                old(self).remaining()
            },
            final(self).backing().remaining() == old(self).backing().remaining(),
            *final(final(self).backing()) == *final(old(self).backing()),
    ;

    /// The next character, which the input then moves past; `None` at the
    /// end of the stream.
    fn next(&mut self) -> (item: Option<char>)
        requires
            old(self).wf(),
        ensures
            final(self).wf(),
            old(self).remaining().len() == 0 ==> item is None && final(self).spec_position()
                == old(self).spec_position() && final(self).remaining() == old(self).remaining(),
            old(self).remaining().len() > 0 ==> item == Some(old(self).remaining()[0])
                && final(self).spec_position() == old(self).spec_position() + 1
                && final(self).remaining() == old(self).remaining().skip(1),
            final(self).backing().remaining() == old(self).backing().remaining(),
            *final(final(self).backing()) == *final(old(self).backing()),
    ;

    /// The next character, not consumed; `None` at the end of the stream.
    fn peek(&mut self) -> (item: Option<char>)
        requires
            old(self).wf(),
        ensures
            old(self).remaining().len() == 0 ==> item is None,
            old(self).remaining().len() > 0 ==> item == Some(old(self).remaining()[0]),
            final(self).wf(),
            final(self).spec_position() == old(self).spec_position(),
            final(self).remaining() == old(self).remaining(),
            final(self).backing().remaining() == old(self).backing().remaining(),
            *final(final(self).backing()) == *final(old(self).backing()),
    ;

    /// Opens a speculative view at the input's place.
    ///
    /// The input itself does not move. Whatever is done through the view,
    /// the stream that remains at the input is the same once the view is
    /// dropped: the last clause says so in terms of the cursor that the view
    /// borrows, whose stream no operation of a view changes.
    fn peek_only<'a>(&'a mut self) -> (view: PeekingInput<'a, Self::Source>)
        requires
            old(self).wf(),
        ensures
            view.valid(),
            view.place() == old(self).spec_position(),
            view.ahead() == old(self).remaining(),
            final(self).spec_position() == old(self).spec_position(),
            *final(final(self).backing()) == *final(old(self).backing()),
            final(view.target()).remaining() == view.target().remaining() ==> {
                &&& final(self).wf()
                &&& final(self).remaining() == old(self).remaining()
                &&& final(self).backing().remaining() == old(self).backing().remaining()
            },
    ;
}

/// `after` is the input `before`, not moved: same place, same stream ahead.
pub open spec fn unmoved<I: Input>(before: &I, after: &I) -> bool {
    &&& after.wf()
    &&& after.spec_position() == before.spec_position()
    &&& after.remaining() == before.remaining()
    &&& after.backing().remaining() == before.backing().remaining()
}

/// `after` is the input `before`, moved over the next `count` characters.
pub open spec fn moved<I: Input>(before: &I, after: &I, count: nat) -> bool {
    &&& count <= before.remaining().len()
    &&& after.wf()
    &&& after.spec_position() == before.spec_position() + count
    &&& after.remaining() == before.remaining().skip(count as int)
    &&& after.backing().remaining() == before.backing().remaining()
}

/// The real cursor: it owns the buffered stream, and moving it consumes
/// input for good.
pub struct ConsumingInput<T: CharSource> {
    position: usize,
    iterator: BufferedIterator<T>,
}

impl<T: CharSource> ConsumingInput<T> {
    /// The characters consumed so far.
    pub closed spec fn consumed(&self) -> nat {
        self.position as nat
    }

    /// The stream from the cursor on.
    pub closed spec fn stream(&self) -> Seq<char> {
        self.iterator.remaining()
    }

    /// The end of the stream lies within `usize`.
    pub open spec fn bounded(&self) -> bool {
        self.consumed() + self.stream().len() <= usize::MAX
    }

    /// An input at the start of the stream that `source` will hand out. It
    /// is well formed where the stream is no longer than `usize` can count.
    pub fn new(source: T) -> (input: Self)
        ensures
            input.spec_position() == 0,
            input.remaining() == source.pending(),
            source.pending().len() <= usize::MAX ==> input.wf(),
    {
        ConsumingInput { position: 0, iterator: BufferedIterator::new(source) }
    }
}

impl<T: CharSource> Input for ConsumingInput<T> {
    type Source = T;

    open spec fn wf(&self) -> bool {
        self.bounded()
    }

    open spec fn spec_position(&self) -> nat {
        self.consumed()
    }

    open spec fn remaining(&self) -> Seq<char> {
        self.stream()
    }

    closed spec fn backing(&self) -> &mut BufferedIterator<T> {
        arbitrary()
    }

    fn position(&self) -> (position: usize) {
        self.position
    }

    fn advance(&mut self, amount: usize)
        ensures
            final(self).spec_position() == old(self).spec_position() + leading(
                old(self).remaining(),
                amount as nat,
            ).len(),
    {
        let dropped = self.iterator.advance(amount);
        self.position = self.position + dropped;
    }

    fn advance_to(&mut self, position: usize)
        ensures
            final(self).spec_position() == old(self).spec_position() + leading(
                old(self).remaining(),
                (position - old(self).spec_position()) as nat,
            ).len(),
    {
        let amount = position - self.position;
        self.advance(amount);
    }

    fn check(&mut self, string: &str) -> (found: bool) {
        let wanted = chars_of(string);
        let items = self.iterator.peek(wanted.len());
        same_characters(&items, &wanted)
    }

    fn consume(&mut self, string: &str) -> (found: bool) {
        let wanted = chars_of(string);
        let items = self.iterator.peek(wanted.len());
        if same_characters(&items, &wanted) {
            self.advance(wanted.len());
            true
        } else {
            false
        }
    }

    fn next(&mut self) -> (item: Option<char>) {
        let item = self.iterator.next();
        if item.is_some() {
            self.position = self.position + 1;
        }
        item
    }

    fn peek(&mut self) -> (item: Option<char>) {
        let items = self.iterator.peek(1);
        if items.len() > 0 {
            Some(items[0])
        } else {
            None
        }
    }

    fn peek_only<'a>(&'a mut self) -> (view: PeekingInput<'a, T>) {
        PeekingInput::new(self.position, &mut self.iterator)
    }
}

/// Whether `items` and `wanted` hold the same characters.
fn same_characters(items: &Vec<char>, wanted: &Vec<char>) -> (same: bool)
    ensures
        same == (items@ == wanted@),
{
    if items.len() != wanted.len() {
        return false;
    }
    let mut index: usize = 0;
    while index < wanted.len()
        invariant
            index <= wanted.len(),
            items@.len() == wanted@.len(),
            items@.take(index as int) == wanted@.take(index as int),
        decreases wanted.len() - index,
    {
        if items[index] != wanted[index] {
            return false;
        }
        assert(items@.take(index + 1) =~= items@.take(index as int).push(items@[index as int]));
        assert(wanted@.take(index + 1) =~= wanted@.take(index as int).push(
            wanted@[index as int],
        ));
        index = index + 1;
    }
    assert(items@.take(wanted.len() as int) =~= items@);
    assert(wanted@.take(wanted.len() as int) =~= wanted@);
    true
}

/// A speculative view as an input: a place in the stream that can move
/// ahead without the cursor following.
pub struct PeekingInput<'a, T: CharSource> {
    start_position: usize,
    iterator: PeekingIntoBufferedIterator<'a, T>,
}

impl<'a, T: CharSource> PeekingInput<'a, T> {
    /// The cursor that the view borrows.
    pub closed spec fn target(&self) -> &mut BufferedIterator<T> {
        self.iterator.target()
    }

    /// The place of the cursor that the view was opened on.
    pub closed spec fn origin(&self) -> nat {
        self.start_position as nat
    }

    /// How far the view has moved from the cursor.
    pub closed spec fn offset(&self) -> nat {
        self.iterator.offset()
    }

    /// The view's place: the cursor's place plus the view's offset.
    pub open spec fn place(&self) -> nat {
        self.origin() + self.offset()
    }

    /// The stream from the view's place on.
    pub open spec fn ahead(&self) -> Seq<char> {
        beyond(self.target().remaining(), self.offset())
    }

    /// Both the view's place and the end of the stream lie within `usize`.
    pub open spec fn valid(&self) -> bool {
        &&& self.origin() + self.offset() <= usize::MAX
        &&& self.origin() + self.target().remaining().len() <= usize::MAX
    }

    /// Once a view is no longer used, the cursor it borrowed is as the view
    /// left it.
    pub proof fn lemma_settled(&self)
        requires
            has_resolved(*self),
        ensures
            *final(self.target()) == *self.target(),
    {
        self.iterator.lemma_settled();
    }

    /// A view on `target`, whose place in the stream is `start_position`.
    pub fn new(start_position: usize, target: &'a mut BufferedIterator<T>) -> (view: Self)
        ensures
            view.origin() == start_position,
            view.offset() == 0,
            *view.target() == *old(target),
            *final(target) == *final(view.target()),
    {
        PeekingInput { start_position, iterator: PeekingIntoBufferedIterator::new(target) }
    }
}

impl<'a, T: CharSource> Input for PeekingInput<'a, T> {
    type Source = T;

    open spec fn wf(&self) -> bool {
        self.valid()
    }

    open spec fn spec_position(&self) -> nat {
        self.place()
    }

    open spec fn remaining(&self) -> Seq<char> {
        self.ahead()
    }

    open spec fn backing(&self) -> &mut BufferedIterator<T> {
        self.target()
    }

    fn position(&self) -> (position: usize) {
        self.start_position + self.iterator.position()
    }

    fn advance(&mut self, amount: usize)
        ensures
            final(self).spec_position() == old(self).spec_position() + amount,
    {
        self.iterator.advance(amount);
    }

    fn advance_to(&mut self, position: usize)
        ensures
            final(self).spec_position() == position,
    {
        let amount = position - self.position();
        self.iterator.advance(amount);
    }

    fn check(&mut self, string: &str) -> (found: bool) {
        let wanted = chars_of(string);
        let room = usize::MAX - self.position();
        if wanted.len() > room {
            return false;
        }
        let items = self.iterator.peek(wanted.len());
        same_characters(&items, &wanted)
    }

    fn consume(&mut self, string: &str) -> (found: bool) {
        let wanted = chars_of(string);
        let room = usize::MAX - self.position();
        if wanted.len() > room {
            return false;
        }
        let items = self.iterator.peek(wanted.len());
        if same_characters(&items, &wanted) {
            assert(string@.len() <= self.ahead().len());
            self.iterator.advance(wanted.len());
            assert(self.ahead() =~= old(self).ahead().skip(wanted.len() as int));
            true
        } else {
            false
        }
    }

    fn next(&mut self) -> (item: Option<char>) {
        if self.position() == usize::MAX {
            return None;
        }
        let item = self.iterator.next();
        assert(item is Some ==> self.ahead() =~= old(self).ahead().skip(1));
        item
    }

    fn peek(&mut self) -> (item: Option<char>) {
        if self.position() == usize::MAX {
            return None;
        }
        let items = self.iterator.peek(1);
        if items.len() > 0 {
            Some(items[0])
        } else {
            None
        }
    }

    fn peek_only<'b>(&'b mut self) -> (view: PeekingInput<'b, T>) {
        PeekingInput { start_position: self.start_position, iterator: self.iterator.peek_into() }
    }
}

/// An input in a box is the input.
impl<T: Input> Input for Box<T> {
    type Source = T::Source;

    open spec fn wf(&self) -> bool {
        (**self).wf()
    }

    open spec fn spec_position(&self) -> nat {
        (**self).spec_position()
    }

    open spec fn remaining(&self) -> Seq<char> {
        (**self).remaining()
    }

    open spec fn backing(&self) -> &mut BufferedIterator<T::Source> {
        (**self).backing()
    }

    fn position(&self) -> (position: usize) {
        (**self).position()
    }

    fn advance(&mut self, amount: usize) {
        (**self).advance(amount)
    }

    fn advance_to(&mut self, position: usize) {
        (**self).advance_to(position)
    }

    fn check(&mut self, string: &str) -> (found: bool) {
        (**self).check(string)
    }

    fn consume(&mut self, string: &str) -> (found: bool) {
        (**self).consume(string)
    }

    fn next(&mut self) -> (item: Option<char>) {
        (**self).next()
    }

    fn peek(&mut self) -> (item: Option<char>) {
        (**self).peek()
    }

    fn peek_only<'a>(&'a mut self) -> (view: PeekingInput<'a, T::Source>) {
        (**self).peek_only()
    }
}

} // verus!
