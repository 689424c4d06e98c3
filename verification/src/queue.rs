//! A FIFO queue: a thin wrapper over the indexable-sequence capability of
//! [`ArrayList`]. Enqueue adds at the tail, dequeue removes from the head,
//! peek reads the head without consuming it.

use vstd::prelude::*;

use crate::array_list::ArrayList;

verus! {

/// A FIFO queue. The view is the sequence of queued elements, the next
/// one out at index 0.
pub struct Queue<T> {
    size: usize,
    list: ArrayList<T>,
}

impl<T> View for Queue<T> {
    type V = Seq<T>;

    closed spec fn view(&self) -> Seq<T> {
        self.list@
    }
}

impl<T> Queue<T> {
    /// Well-formed: the running size agrees with the underlying list.
    pub closed spec fn wf(&self) -> bool {
        &&& self.list.wf()
        &&& self.size == self.list@.len()
    }

    /// Number of slots the underlying list has reserved.
    pub closed spec fn spec_capacity(&self) -> nat {
        self.list.spec_capacity()
    }

    /// An empty queue.
    pub fn new() -> (q: Self)
        ensures
            q.wf(),
            q@ == Seq::<T>::empty(),
    {
        Queue { size: 0, list: ArrayList::new() }
    }

    /// Number of queued elements.
    pub fn size(&self) -> (n: usize)
        requires
            self.wf(),
        ensures
            n == self@.len(),
    {
        self.size
    }

    /// Adds `item` at the tail of the queue.
    pub fn queue(&mut self, item: T)
        requires
            old(self).wf(),
            old(self).spec_capacity() <= usize::MAX / 2,
        ensures
            final(self).wf(),
            final(self)@ == old(self)@.push(item),
    {
        proof {
            old(self).list.lemma_capacity_invariant();
        }
        self.list.append(item);
        self.size = self.size + 1;
    }

    /// Removes and returns the head of the queue; `None` on an empty
    /// queue, which is left untouched.
    pub fn deque(&mut self) -> (r: Option<T>)
        requires
            old(self).wf(),
        ensures
            final(self).wf(),
            old(self)@.len() == 0 ==> r is None && *final(self) == *old(self),
            old(self)@.len() > 0 ==> r == Some(old(self)@[0]) && final(self)@ == old(
                self,
            )@.skip(1),
    {
        if self.size != 0 {
            self.size = self.size - 1;
        }
        let r = self.list.remove_at(0);
        proof {
            if old(self)@.len() > 0 {
                assert(old(self)@.remove(0) =~= old(self)@.skip(1));
            }
        }
        r
    }

    /// Reads the head of the queue without consuming it; the result is a
    /// clone of the head element.
    pub fn peek(&self) -> (r: Option<T>) where T: Clone
        requires
            self.wf(),
        ensures
            r is Some <==> self@.len() > 0,
            r matches Some(x) ==> cloned(self@[0], x),
    {
        self.list.get(0).cloned()
    }
}

} // verus!
