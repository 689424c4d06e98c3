//! A LIFO stack over a [`RawBuf`]: push and pop at one end only, with the
//! same doubling-growth discipline as the growable array and no indexed
//! access.

use vstd::prelude::*;

use crate::raw_buf::{RawBuf, grown_capacity, is_power_of_two, lemma_grown_capacity_power_of_two};

verus! {

/// A LIFO stack.
///
/// The slots `[0, len)` of the backing buffer hold the elements, oldest
/// first; the top of the stack is the last one. The view is the sequence of
/// live elements, so the top is the view's last element.
pub struct Stack<T> {
    buf: RawBuf<T>,
    len: usize,
}

impl<T> View for Stack<T> {
    type V = Seq<T>;

    closed spec fn view(&self) -> Seq<T> {
        Seq::new(self.len as nat, |i: int| self.buf@[i].unwrap())
    }
}

impl<T> Stack<T> {
    /// Well-formed: the live elements fill a prefix of the buffer, the rest
    /// is uninitialized, and the capacity is zero or a power of two.
    pub closed spec fn wf(&self) -> bool {
        &&& self.len <= self.buf@.len()
        &&& (forall|j: int| 0 <= j < self.len ==> self.buf@[j] is Some)
        &&& (forall|j: int| self.len <= j < self.buf@.len() ==> self.buf@[j] is None)
        &&& (self.buf@.len() == 0 || is_power_of_two(self.buf@.len() as nat))
    }

    /// Number of slots currently reserved.
    pub closed spec fn spec_capacity(&self) -> nat {
        self.buf@.len()
    }

    /// The capacity is zero or a power of two and never below the length.
    pub proof fn lemma_capacity_invariant(&self)
        requires
            self.wf(),
        ensures
            self@.len() <= self.spec_capacity(),
            self.spec_capacity() == 0 || is_power_of_two(self.spec_capacity()),
    {
    }

    /// An empty stack; no memory is reserved until the first growth.
    pub fn new() -> (s: Self)
        ensures
            s.wf(),
            s@ == Seq::<T>::empty(),
            s.spec_capacity() == 0,
    {
        let s = Stack { buf: RawBuf::new(), len: 0 };
        proof {
            assert(s@ =~= Seq::<T>::empty());
        }
        s
    }

    /// Number of live elements.
    pub fn len(&self) -> (n: usize)
        ensures
            n == self@.len(),
    {
        self.len
    }

    /// Number of reserved slots.
    pub fn capacity(&self) -> (cap: usize)
        ensures
            cap == self.spec_capacity(),
    {
        self.buf.capacity()
    }

    /// One doubling step; the live elements keep their positions.
    fn grow(&mut self)
        requires
            old(self).wf(),
            old(self).spec_capacity() <= usize::MAX / 2,
        ensures
            final(self).wf(),
            final(self)@ == old(self)@,
            final(self).spec_capacity() == grown_capacity(old(self).spec_capacity()),
            final(self)@.len() < final(self).spec_capacity(),
    {
        proof {
            lemma_grown_capacity_power_of_two(self.spec_capacity());
        }
        self.buf.grow();
        proof {
            assert(self@ =~= old(self)@);
        }
    }

    /// Pushes `item` on top, doubling the capacity first when the stack is
    /// full.
    pub fn push(&mut self, item: T)
        requires
            old(self).wf(),
            old(self).spec_capacity() <= usize::MAX / 2,
        ensures
            final(self).wf(),
            final(self)@ == old(self)@.push(item),
            final(self).spec_capacity() == (if old(self)@.len() == old(self).spec_capacity() {
                grown_capacity(old(self).spec_capacity())
            } else {
                old(self).spec_capacity()
            }),
    {
        if self.buf.capacity() == self.len {
            self.grow();
        }
        self.buf.write(self.len, item);
        self.len = self.len + 1;
        proof {
            assert(self@ =~= old(self)@.push(item));
        }
    }

    /// Removes and returns the top element; on an empty stack it returns
    /// `None` and leaves the stack untouched, however often it is called.
    pub fn pop(&mut self) -> (r: Option<T>)
        requires
            old(self).wf(),
        ensures
            final(self).wf(),
            final(self).spec_capacity() == old(self).spec_capacity(),
            old(self)@.len() == 0 ==> r is None && *final(self) == *old(self),
            old(self)@.len() > 0 ==> r == Some(old(self)@.last()) && final(self)@ == old(
                self,
            )@.drop_last(),
    {
        if self.len == 0 {
            None
        } else {
            let r = self.buf.take_at(self.len - 1);
            self.len = self.len - 1;
            proof {
                assert(self@ =~= old(self)@.drop_last());
            }
            r
        }
    }
}

} // verus!
