//! A growable array over a [`RawBuf`]: amortized O(1) append and
//! remove-last, O(n) arbitrary insert and remove, doubling growth, and
//! consuming iteration from either end.

use vstd::prelude::*;

use crate::BoundsError;
use crate::raw_buf::{RawBuf, grown_capacity, is_power_of_two, lemma_grown_capacity_power_of_two};

verus! {

/// A growable array.
///
/// The slots `[0, len)` of the backing buffer hold the elements in order;
/// the slots `[len, capacity)` are uninitialized and never read. The view is
/// the sequence of live elements.
pub struct MyVec<T> {
    buf: RawBuf<T>,
    len: usize,
}

impl<T> View for MyVec<T> {
    type V = Seq<T>;

    closed spec fn view(&self) -> Seq<T> {
        Seq::new(self.len as nat, |i: int| self.buf@[i].unwrap())
    }
}

impl<T> MyVec<T> {
    /// Well-formed: the live elements fill a prefix of the buffer, the rest
    /// of the buffer is uninitialized, and the capacity follows the doubling
    /// discipline (zero, or a power of two).
    pub closed spec fn wf(&self) -> bool {
        &&& self.len <= self.buf@.len()
        &&& (forall|j: int| 0 <= j < self.len ==> self.buf@[j] is Some)
        &&& (forall|j: int| self.len <= j < self.buf@.len() ==> self.buf@[j] is None)
        &&& (self.buf@.len() == 0 || is_power_of_two(self.buf@.len() as nat))
    }

    /// Number of slots currently reserved.
    pub closed spec fn spec_capacity(&self) -> nat {
        self.buf@.len()
    }

    /// The capacity is zero or a power of two and never below the length.
    pub proof fn lemma_capacity_invariant(&self)
        requires
            self.wf(),
        ensures
            self@.len() <= self.spec_capacity(),
            self.spec_capacity() == 0 || is_power_of_two(self.spec_capacity()),
    {
    }

    /// An empty array; no memory is reserved until the first growth.
    /// Zero-sized element types are unsupported and rejected up front.
    pub fn new() -> (v: Self)
        requires
            vstd::layout::size_of::<T>() != 0,
        ensures
            v.wf(),
            v@ == Seq::<T>::empty(),
            v.spec_capacity() == 0,
    {
        let v = MyVec { buf: RawBuf::new(), len: 0 };
        proof {
            assert(v@ =~= Seq::<T>::empty());
        }
        v
    }

    /// Number of live elements.
    pub fn len(&self) -> (n: usize)
        ensures
            n == self@.len(),
    {
        self.len
    }

    /// Number of reserved slots.
    pub fn capacity(&self) -> (cap: usize)
        ensures
            cap == self.spec_capacity(),
    {
        self.buf.capacity()
    }

    /// One doubling step; the live elements keep their positions.
    fn grow(&mut self)
        requires
            old(self).wf(),
            old(self).spec_capacity() <= usize::MAX / 2,
        ensures
            final(self).wf(),
            final(self)@ == old(self)@,
            final(self).spec_capacity() == grown_capacity(old(self).spec_capacity()),
            final(self)@.len() < final(self).spec_capacity(),
    {
        proof {
            lemma_grown_capacity_power_of_two(self.spec_capacity());
        }
        self.buf.grow();
        proof {
            assert(self@ =~= old(self)@);
        }
    }

    /// Appends `elem`, doubling the capacity first when the array is full.
    pub fn push(&mut self, elem: T)
        requires
            old(self).wf(),
            old(self).spec_capacity() <= usize::MAX / 2,
        ensures
            final(self).wf(),
            final(self)@ == old(self)@.push(elem),
            final(self).spec_capacity() == (if old(self)@.len() == old(self).spec_capacity() {
                grown_capacity(old(self).spec_capacity())
            } else {
                old(self).spec_capacity()
            }),
    {
        if self.len == self.buf.capacity() {
            self.grow();
        }
        self.buf.write(self.len, elem);
        self.len = self.len + 1;
        proof {
            assert(self@ =~= old(self)@.push(elem));
        }
    }

    /// Removes and returns the last element; on an empty array it returns
    /// `None` and leaves the array untouched, however often it is called.
    pub fn pop(&mut self) -> (r: Option<T>)
        requires
            old(self).wf(),
        ensures
            final(self).wf(),
            final(self).spec_capacity() == old(self).spec_capacity(),
            old(self)@.len() == 0 ==> r is None && *final(self) == *old(self),
            old(self)@.len() > 0 ==> r == Some(old(self)@.last()) && final(self)@ == old(
                self,
            )@.drop_last(),
    {
        if self.len == 0 {
            None
        } else {
            let r = self.buf.take_at(self.len - 1);
            self.len = self.len - 1;
            proof {
                assert(self@ =~= old(self)@.drop_last());
            }
            r
        }
    }

    /// Inserts `elem` at `index`, shifting `[index, len)` one slot toward
    /// the tail. Any `index` up to and including the length is valid;
    /// beyond that the array is left untouched and an error is returned.
    pub fn insert(&mut self, index: usize, elem: T) -> (r: Result<(), BoundsError>)
        requires
            old(self).wf(),
            old(self).spec_capacity() <= usize::MAX / 2,
        ensures
            final(self).wf(),
            index <= old(self)@.len() ==> {
                &&& r is Ok
                &&& final(self)@ == old(self)@.insert(index as int, elem)
                &&& final(self).spec_capacity() == (if old(self)@.len() == old(
                    self,
                ).spec_capacity() {
                    grown_capacity(old(self).spec_capacity())
                } else {
                    old(self).spec_capacity()
                })
            },
            index > old(self)@.len() ==> r is Err && *final(self) == *old(self),
    {
        if index > self.len {
            return Err(BoundsError);
        }
        if self.len == self.buf.capacity() {
            self.grow();
        }
        let ghost mid = *self;
        let mut i = self.len;
        #[verifier::loop_isolation(false)]
        while i > index
            invariant
                index <= i <= mid.len,
                self.len == mid.len,
                self.buf@.len() == mid.buf@.len(),
                forall|j: int| 0 <= j < i ==> self.buf@[j] == mid.buf@[j],
                forall|j: int| i < j <= mid.len ==> self.buf@[j] == mid.buf@[j - 1],
                self.buf@[i as int] is None,
                forall|j: int| mid.len < j < self.buf@.len() ==> self.buf@[j] is None,
            decreases i,
        {
            proof {
                assert(self.buf@[i - 1] == mid.buf@[i - 1]);
                assert(mid.buf@[i - 1] is Some);
            }
            let moved = self.buf.take_at(i - 1).unwrap();
            self.buf.write(i, moved);
            i = i - 1;
        }
        self.buf.write(index, elem);
        self.len = self.len + 1;
        proof {
            assert forall|j: int| 0 <= j < self.len implies self.buf@[j] is Some by {
                if j < index {
                    assert(self.buf@[j] == mid.buf@[j]);
                } else if j > index {
                    assert(self.buf@[j] == mid.buf@[j - 1]);
                }
            }
            assert(self@ =~= mid@.insert(index as int, elem));
            assert(mid@ == old(self)@);
        }
        Ok(())
    }

    /// Removes and returns the element at `index`, shifting `[index + 1,
    /// len)` one slot toward the head. An `index` at or beyond the length
    /// leaves the array untouched and returns an error.
    pub fn remove(&mut self, index: usize) -> (r: Result<T, BoundsError>)
        requires
            old(self).wf(),
        ensures
            final(self).wf(),
            final(self).spec_capacity() == old(self).spec_capacity(),
            index < old(self)@.len() ==> r == Ok::<T, BoundsError>(old(self)@[index as int])
                && final(self)@ == old(self)@.remove(index as int),
            index >= old(self)@.len() ==> r is Err && *final(self) == *old(self),
    {
        if index >= self.len {
            return Err(BoundsError);
        }
        let ghost orig = *self;
        let removed = self.buf.take_at(index).unwrap();
        let mut i = index;
        #[verifier::loop_isolation(false)]
        while i + 1 < self.len
            invariant
                index <= i < orig.len,
                self.len == orig.len,
                self.buf@.len() == orig.buf@.len(),
                forall|j: int| 0 <= j < index ==> self.buf@[j] == orig.buf@[j],
                forall|j: int| index <= j < i ==> self.buf@[j] == orig.buf@[j + 1],
                self.buf@[i as int] is None,
                forall|j: int| i < j < orig.len ==> self.buf@[j] == orig.buf@[j],
                forall|j: int| orig.len <= j < self.buf@.len() ==> self.buf@[j] is None,
            decreases self.len - i,
        {
            proof {
                assert(self.buf@[i + 1] == orig.buf@[i + 1]);
                assert(orig.buf@[i + 1] is Some);
            }
            let moved = self.buf.take_at(i + 1).unwrap();
            self.buf.write(i, moved);
            i = i + 1;
        }
        self.len = self.len - 1;
        proof {
            assert forall|j: int| 0 <= j < self.len implies self.buf@[j] is Some by {
                if j < index {
                    assert(self.buf@[j] == orig.buf@[j]);
                } else {
                    assert(self.buf@[j] == orig.buf@[j + 1]);
                }
            }
            assert(self@ =~= orig@.remove(index as int));
        }
        Ok(removed)
    }

    /// Read-only access: the element at `index`, or `None` when `index`
    /// is not live. Never fatal, so callers may probe freely.
    pub fn get(&self, index: usize) -> (r: Option<&T>)
        requires
            self.wf(),
        ensures
            index < self@.len() ==> (r matches Some(x) && *x == self@[index as int]),
            index >= self@.len() ==> r is None,
    {
        if index < self.len {
            match self.buf.read(index) {
                Some(x) => Some(x),
                None => unreached(),
            }
        } else {
            None
        }
    }

    /// Hands the array's elements to a consuming iterator. Elements not
    /// drawn from the iterator are destructed when it goes out of scope,
    /// before the backing memory is released.
    pub fn into_iter(self) -> (it: IntoIter<T>)
        requires
            self.wf(),
        ensures
            it.wf(),
            it@ == self@,
    {
        let MyVec { buf, len } = self;
        let it = IntoIter { buf, start: 0, end: len };
        proof {
            assert(it@ =~= Seq::new(len as nat, |i: int| it.buf@[i].unwrap()));
        }
        it
    }
}

/// A consuming iterator over a [`MyVec`].
///
/// Two cursors bound the still-unyielded subrange of the buffer; each step
/// moves one element out from either end. The view is the sequence of
/// elements not yet yielded. Slots outside the subrange own nothing, so
/// discarding the iterator destructs exactly the unyielded elements and
/// then releases the buffer.
pub struct IntoIter<T> {
    buf: RawBuf<T>,
    start: usize,
    end: usize,
}

impl<T> View for IntoIter<T> {
    type V = Seq<T>;

    closed spec fn view(&self) -> Seq<T> {
        Seq::new((self.end - self.start) as nat, |i: int| self.buf@[self.start + i].unwrap())
    }
}

impl<T> IntoIter<T> {
    /// Well-formed: the cursors bound a live subrange of the buffer.
    pub closed spec fn wf(&self) -> bool {
        &&& self.start <= self.end <= self.buf@.len()
        &&& (forall|j: int| self.start <= j < self.end ==> self.buf@[j] is Some)
    }

    /// Yields the first unyielded element, or `None` once exhausted.
    pub fn next(&mut self) -> (r: Option<T>)
        requires
            old(self).wf(),
        ensures
            final(self).wf(),
            old(self)@.len() == 0 ==> r is None && *final(self) == *old(self),
            old(self)@.len() > 0 ==> r == Some(old(self)@.first()) && final(self)@ == old(
                self,
            )@.skip(1),
    {
        if self.start == self.end {
            None
        } else {
            let r = self.buf.take_at(self.start);
            self.start = self.start + 1;
            proof {
                assert(self@ =~= old(self)@.skip(1));
            }
            r
        }
    }

    /// Yields the last unyielded element, or `None` once exhausted.
    pub fn next_back(&mut self) -> (r: Option<T>)
        requires
            old(self).wf(),
        ensures
            final(self).wf(),
            old(self)@.len() == 0 ==> r is None && *final(self) == *old(self),
            old(self)@.len() > 0 ==> r == Some(old(self)@.last()) && final(self)@ == old(
                self,
            )@.drop_last(),
    {
        if self.start == self.end {
            None
        } else {
            let r = self.buf.take_at(self.end - 1);
            self.end = self.end - 1;
            proof {
                assert(self@ =~= old(self)@.drop_last());
            }
            r
        }
    }

    /// How many elements remain: the lower and upper bound coincide.
    pub fn size_hint(&self) -> (r: (usize, Option<usize>))
        requires
            self.wf(),
        ensures
            r.0 == self@.len(),
            r.1 == Some(r.0),
    {
        let n = self.end - self.start;
        (n, Some(n))
    }
}

} // verus!
