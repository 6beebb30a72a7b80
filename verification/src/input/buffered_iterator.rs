//! The buffered cursor and its views, on which the inputs are built.

use vstd::prelude::*;
use std::collections::VecDeque;
use super::source::CharSource;

verus! {

/// The first `count` items of `items`, or all of them where there are fewer.
pub open spec fn leading(items: Seq<char>, count: nat) -> Seq<char> {
    if count <= items.len() {
        items.take(count as int)
    } else {
        items
    }
}

/// What follows the first `count` items of `items`; nothing where there are
/// fewer.
pub open spec fn beyond(items: Seq<char>, count: nat) -> Seq<char> {
    if count <= items.len() {
        items.skip(count as int)
    } else {
        Seq::empty()
    }
}

/// The larger of two counts.
pub open spec fn larger(a: nat, b: nat) -> nat {
    if a >= b {
        a
    } else {
        b
    }
}

/// A character source with a queue in front of it.
///
/// Looking ahead moves characters from the source into the queue; advancing
/// drops them from the queue. A character leaves the source exactly once.
pub struct BufferedIterator<T: CharSource> {
    buffer: VecDeque<char>,
    source: T,
}

impl<T: CharSource> BufferedIterator<T> {
    /// The characters pulled from the source and not yet dropped.
    pub closed spec fn buffered(&self) -> Seq<char> {
        self.buffer@
    }

    /// The characters still in the source.
    pub closed spec fn unread(&self) -> Seq<char> {
        self.source.pending()
    }

    /// Everything between the cursor and the end of the stream.
    pub open spec fn remaining(&self) -> Seq<char> {
        self.buffered() + self.unread()
    }

    /// A cursor at the start of what `source` will hand out, with nothing
    /// buffered yet.
    pub fn new(source: T) -> (cursor: Self)
        ensures
            cursor.buffered() == Seq::<char>::empty(),
            cursor.unread() == source.pending(),
            cursor.remaining() == source.pending(),
    {
        let cursor = BufferedIterator { buffer: VecDeque::new(), source };
        assert(cursor.buffer@ + cursor.source.pending() =~= source.pending());
        cursor
    }

    /// Pulls from the source until `count` items are buffered or the source is
    /// exhausted.
    fn fill(&mut self, count: usize)
        ensures
            final(self).remaining() == old(self).remaining(),
            final(self).buffered() == leading(
                old(self).remaining(),
                larger(count as nat, old(self).buffered().len()),
            ),
    {
        let ghost stream = self.remaining();
        let ghost start = self.buffer@.len();
        assert(self.buffer@ =~= stream.take(start as int));
        while self.buffer.len() < count
            invariant
                self.buffer@ + self.source.pending() == stream,
                start <= self.buffer@.len(),
                self.buffer@.len() <= start || self.buffer@.len() <= count,
                self.buffer@ == stream.take(self.buffer@.len() as int),
            ensures
                self.buffer@ + self.source.pending() == stream,
                self.buffer@ == leading(stream, larger(count as nat, start)),
            decreases count - self.buffer.len(),
        {
            let ghost before = self.buffer@;
            let ghost pending = self.source.pending();
            match self.source.next() {
                Some(item) => {
                    self.buffer.push_back(item);
                    assert(self.buffer@ + self.source.pending() =~= before + pending);
                    assert(self.buffer@ =~= stream.take(self.buffer@.len() as int));
                },
                None => {
                    assert(before + pending =~= before);
                    break ;
                },
            }
        }
    }

    /// Up to `count` items from the cursor on, none of them consumed. Only
    /// what is missing from the queue is pulled from the source.
    pub fn peek(&mut self, count: usize) -> (items: Vec<char>)
        ensures
            items@ == leading(old(self).remaining(), count as nat),
            final(self).remaining() == old(self).remaining(),
            final(self).buffered() == leading(
                old(self).remaining(),
                larger(count as nat, old(self).buffered().len()),
            ),
    {
        self.fill(count);
        let available = self.buffer.len();
        let wanted = if count < available {
            count
        } else {
            available
        };
        let mut items: Vec<char> = Vec::new();
        let mut index: usize = 0;
        while index < wanted
            invariant
                index <= wanted,
                wanted <= self.buffer@.len(),
                items@ == self.buffer@.take(index as int),
            decreases wanted - index,
        {
            let item = self.buffer[index];
            items.push(item);
            assert(self.buffer@.take(index + 1) =~= self.buffer@.take(index as int).push(item));
            index = index + 1;
        }
        assert(items@ =~= leading(old(self).remaining(), count as nat));
        items
    }

    /// Drops up to `count` items: first from the queue, then straight from
    /// the source. Returns how many were dropped.
    pub fn advance(&mut self, count: usize) -> (dropped: usize)
        ensures
            dropped == leading(old(self).remaining(), count as nat).len(),
            final(self).remaining() == beyond(old(self).remaining(), count as nat),
            final(self).buffered() == beyond(old(self).buffered(), count as nat),
    {
        let ghost stream = self.remaining();
        let ghost queue = self.buffer@;
        let mut dropped: usize = 0;
        while dropped < count && self.buffer.len() > 0
            invariant
                dropped <= count,
                dropped <= queue.len(),
                self.buffer@ == queue.skip(dropped as int),
                self.source.pending() == old(self).source.pending(),
            decreases count - dropped,
        {
            let _ = self.buffer.pop_front();
            dropped = dropped + 1;
            assert(self.buffer@ =~= queue.skip(dropped as int));
        }
        assert(self.buffer@ =~= beyond(queue, count as nat));
        assert(self.buffer@ + self.source.pending() =~= stream.skip(dropped as int));
        while dropped < count
            invariant
                dropped <= count,
                dropped <= stream.len(),
                self.buffer@ == beyond(queue, count as nat),
                dropped < count ==> self.buffer@.len() == 0,
                self.buffer@ + self.source.pending() == stream.skip(dropped as int),
            ensures
                dropped <= count,
                dropped <= stream.len(),
                dropped < count ==> dropped == stream.len(),
                self.buffer@ == beyond(queue, count as nat),
                self.buffer@ + self.source.pending() == stream.skip(dropped as int),
            decreases count - dropped,
        {
            let ghost pending = self.source.pending();
            assert(pending =~= stream.skip(dropped as int));
            match self.source.next() {
                Some(_) => {
                    dropped = dropped + 1;
                    assert(self.buffer@ + self.source.pending() =~= stream.skip(dropped as int));
                },
                None => {
                    break ;
                },
            }
        }
        assert(self.remaining() =~= beyond(stream, count as nat));
        dropped
    }

    /// Consumes one item: the front of the queue, or a fresh one from the
    /// source where the queue is empty.
    pub fn next(&mut self) -> (item: Option<char>)
        ensures
            old(self).remaining().len() == 0 ==> item is None && final(self).remaining()
                == old(self).remaining(),
            old(self).remaining().len() > 0 ==> item == Some(old(self).remaining()[0])
                && final(self).remaining() == old(self).remaining().drop_first(),
            final(self).buffered() == beyond(old(self).buffered(), 1),
    {
        if self.buffer.len() > 0 {
            let item = self.buffer.pop_front();
            assert(self.remaining() =~= old(self).remaining().drop_first());
            assert(self.buffer@ =~= beyond(old(self).buffer@, 1));
            item
        } else {
            let item = self.source.next();
            assert(old(self).remaining() =~= old(self).source.pending());
            assert(self.remaining() =~= self.source.pending());
            assert(self.buffer@ =~= beyond(old(self).buffer@, 1));
            item
        }
    }

    /// Opens a speculative view at the cursor. The view borrows the cursor
    /// and gives it back, with nothing consumed, when it is dropped.
    pub fn peek_into<'a>(&'a mut self) -> (view: PeekingIntoBufferedIterator<'a, T>)
        ensures
            view.offset() == 0,
            *view.target() == *old(self),
            *final(self) == *final(view.target()),
    {
        PeekingIntoBufferedIterator::new(self)
    }
}

/// A speculative view: an offset into a borrowed [`BufferedIterator`].
///
/// Moving the view only changes the offset. Looking ahead may move
/// characters from the source into the cursor's queue, but never drops any,
/// so what remains at the cursor is the same before and after the view.
pub struct PeekingIntoBufferedIterator<'a, T: CharSource> {
    inner: &'a mut BufferedIterator<T>,
    position: usize,
}

impl<'a, T: CharSource> PeekingIntoBufferedIterator<'a, T> {
    /// The borrowed cursor.
    pub closed spec fn target(&self) -> &mut BufferedIterator<T> {
        self.inner
    }

    /// How far the view has moved from the cursor.
    pub closed spec fn offset(&self) -> nat {
        self.position as nat
    }

    /// Everything between the view's place and the end of the stream.
    pub open spec fn remaining(&self) -> Seq<char> {
        beyond(self.target().remaining(), self.offset())
    }

    /// Once a view is no longer used, the cursor it borrowed is as the view
    /// left it.
    pub proof fn lemma_settled(&self)
        requires
            has_resolved(*self),
        ensures
            *final(self.target()) == *self.target(),
    {
    }

    /// A view at the place of the cursor `target`.
    pub fn new(target: &'a mut BufferedIterator<T>) -> (view: Self)
        ensures
            view.offset() == 0,
            *view.target() == *old(target),
            *final(target) == *final(view.target()),
    {
        PeekingIntoBufferedIterator { inner: target, position: 0 }
    }

    /// How far the view has moved from the cursor.
    pub fn position(&self) -> (position: usize)
        ensures
            position == self.offset(),
    {
        self.position
    }

    /// Up to `count` items from the view's place on. Neither the view nor the
    /// cursor moves.
    pub fn peek(&mut self, count: usize) -> (items: Vec<char>)
        requires
            old(self).offset() + count <= usize::MAX,
        ensures
            items@ == leading(old(self).remaining(), count as nat),
            final(self).offset() == old(self).offset(),
            final(self).target().remaining() == old(self).target().remaining(),
            final(self).target().buffered() == leading(
                old(self).target().remaining(),
                larger((old(self).offset() + count) as nat, old(self).target().buffered().len()),
            ),
            *final(final(self).target()) == *final(old(self).target()),
    {
        let ghost stream = self.inner.remaining();
        self.inner.fill(count + self.position);
        let available = self.inner.buffer.len();
        let mut items: Vec<char> = Vec::new();
        let mut index: usize = self.position;
        while index < available && items.len() < count
            invariant
                available == self.inner.buffer@.len(),
                self.position <= index,
                items@.len() == index - self.position,
                items@.len() <= count,
                index <= available || items@.len() == 0,
                forall|i: int|
                    0 <= i < items@.len() ==> items@[i] == self.inner.buffer@[self.position + i],
            decreases available - index,
        {
            items.push(self.inner.buffer[index]);
            index = index + 1;
        }
        assert(items@ =~= leading(beyond(stream, self.position as nat), count as nat));
        items
    }

    /// Opens a view on this view, starting at its place. The outer view does
    /// not move, whatever the inner one does.
    pub fn peek_into<'b>(&'b mut self) -> (view: PeekingIntoBufferedIterator<'b, T>)
        ensures
            view.offset() == old(self).offset(),
            *view.target() == *old(self).target(),
            final(self).offset() == old(self).offset(),
            *final(self).target() == *final(view.target()),
            *final(final(self).target()) == *final(old(self).target()),
    {
        PeekingIntoBufferedIterator { inner: &mut *self.inner, position: self.position }
    }

    /// Moves the view `count` items on; the cursor is not touched.
    pub fn advance(&mut self, count: usize)
        requires
            old(self).offset() + count <= usize::MAX,
        ensures
            final(self).offset() == old(self).offset() + count,
            *final(self).target() == *old(self).target(),
            *final(final(self).target()) == *final(old(self).target()),
    {
        self.position = self.position + count;
    }

    /// The item at the view's place, which the view then moves past; `None`
    /// at the end of the stream, where the view stays.
    pub fn next(&mut self) -> (item: Option<char>)
        requires
            old(self).offset() < usize::MAX,
        ensures
            old(self).remaining().len() == 0 ==> item is None && final(self).offset()
                == old(self).offset(),
            old(self).remaining().len() > 0 ==> item == Some(old(self).remaining()[0])
                && final(self).offset() == old(self).offset() + 1,
            final(self).target().remaining() == old(self).target().remaining(),
            final(self).target().buffered() == leading(
                old(self).target().remaining(),
                larger(old(self).offset() + 1, old(self).target().buffered().len()),
            ),
            *final(final(self).target()) == *final(old(self).target()),
    {
        self.inner.fill(self.position + 1);
        if self.position < self.inner.buffer.len() {
            let item = self.inner.buffer[self.position];
            self.position = self.position + 1;
            Some(item)
        } else {
            None
        }
    }
}

} // verus!
