//! Where the characters come from.

use vstd::prelude::*;
use crate::text::chars_of;

verus! {

/// A forward-only supply of characters.
///
/// `pending` is everything the source has yet to hand out, in order. A source
/// is finite: once `pending` is empty, `next` keeps answering `None`.
pub trait CharSource {
    /// The characters that the source has yet to hand out.
    open spec fn pending(&self) -> Seq<char> {
        arbitrary()
    }

    /// Hands out the first pending character, or `None` once the source is
    /// exhausted.
    fn next(&mut self) -> (item: Option<char>)
        ensures
            old(self).pending().len() == 0 ==> item is None && final(self).pending()
                == old(self).pending(),
            old(self).pending().len() > 0 ==> item == Some(old(self).pending()[0])
                && final(self).pending() == old(self).pending().drop_first(),
    ;
}

/// A character source backed by a vector that is read front to back.
pub struct Characters {
    items: Vec<char>,
    taken: usize,
}

impl Characters {
    #[verifier::type_invariant]
    spec fn in_bounds(&self) -> bool {
        self.taken <= self.items.len()
    }

    /// The characters that were handed to the source, read or not.
    pub closed spec fn all(&self) -> Seq<char> {
        self.items@
    }

    /// How many characters have been read.
    pub closed spec fn read(&self) -> nat {
        self.taken as nat
    }

    /// A source that will hand out `items` from the first to the last.
    pub fn new(items: Vec<char>) -> (source: Self)
        ensures
            source.pending() == items@,
            source.pending().len() <= usize::MAX,
            source.all() == items@,
            source.read() == 0,
    {
        let length = items.len();
        let source = Characters { items, taken: 0 };
        assert(source.items@.skip(0) =~= source.items@);
        source
    }

    /// A source that will hand out the characters of `text`.
    pub fn from_str(text: &str) -> (source: Self)
        ensures
            source.pending() == text@,
            source.pending().len() <= usize::MAX,
            source.all() == text@,
            source.read() == 0,
    {
        let items = chars_of(text);
        Characters::new(items)
    }
}

impl CharSource for Characters {
    closed spec fn pending(&self) -> Seq<char> {
        self.items@.skip(self.taken as int)
    }

    fn next(&mut self) -> (item: Option<char>) {
        proof {
            use_type_invariant(&*self);
        }
        if self.taken < self.items.len() {
            let item = self.items[self.taken];
            self.taken = self.taken + 1;
            assert(self.pending() =~= old(self).pending().drop_first());
            Some(item)
        } else {
            None
        }
    }
}

} // verus!
