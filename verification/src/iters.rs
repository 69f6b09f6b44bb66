//! Two small iteration helpers: a lookahead queue and a queue that
//! withholds the last few elements.  Both own their elements and hand
//! them out front to back.

use vstd::prelude::*;

verus! {

/// A queue with one-element lookahead: `peek` shows the element that the
/// next `next` will return.
pub struct PeekIterator<T> {
    pub items: Vec<T>,
}

impl<T> PeekIterator<T> {
    /// Wraps the elements still to be handed out.
    pub fn new(items: Vec<T>) -> (r: PeekIterator<T>)
        ensures
            r.items@ == items@,
    {
        PeekIterator { items }
    }

    /// The element the next call of `next` will return, if any is left.
    pub fn peek(&self) -> (r: Option<&T>)
        ensures
            match r {
                Some(x) => self.items@.len() > 0 && *x == self.items@[0],
                None => self.items@.len() == 0,
            },
    {
        if self.items.len() == 0 {
            None
        } else {
            Some(&self.items[0])
        }
    }

    /// Removes and returns the front element.
    pub fn next(&mut self) -> (r: Option<T>)
        ensures
            match r {
                Some(x) => old(self).items@.len() > 0 && x == old(self).items@[0]
                    && final(self).items@ == old(self).items@.drop_first(),
                None => old(self).items@.len() == 0 && final(self).items@ == old(self).items@,
            },
    {
        if self.items.len() == 0 {
            None
        } else {
            let x = self.items.remove(0);
            proof {
                assert(self.items@ =~= old(self).items@.drop_first());
            }
            Some(x)
        }
    }
}

/// A queue that keeps its last `count` elements back: `next` hands out
/// elements front to back but stops once only `count` are left.
pub struct SkipLastIterator<T> {
    pub items: Vec<T>,
    pub count: usize,
}

impl<T> SkipLastIterator<T> {
    /// Wraps the elements, of which the last `count` stay unseen.
    pub fn new(items: Vec<T>, count: usize) -> (r: SkipLastIterator<T>)
        ensures
            r.items@ == items@,
            r.count == count,
    {
        SkipLastIterator { items, count }
    }

    /// Removes and returns the front element, unless only the withheld
    /// tail is left.
    pub fn next(&mut self) -> (r: Option<T>)
        ensures
            final(self).count == old(self).count,
            match r {
                Some(x) => old(self).items@.len() > old(self).count && x == old(self).items@[0]
                    && final(self).items@ == old(self).items@.drop_first(),
                None => old(self).items@.len() <= old(self).count
                    && final(self).items@ == old(self).items@,
            },
    {
        if self.items.len() <= self.count {
            None
        } else {
            let x = self.items.remove(0);
            proof {
                assert(self.items@ =~= old(self).items@.drop_first());
            }
            Some(x)
        }
    }
}

} // verus!
