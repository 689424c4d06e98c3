//! A growable array with indexed access: append and remove-last in
//! amortized O(1), arbitrary insert and remove in O(n), doubling growth.

use vstd::prelude::*;
use vstd::std_specs::cmp::PartialEqSpec;

use crate::BoundsError;
use crate::raw_buf::{RawBuf, grown_capacity, is_power_of_two, lemma_grown_capacity_power_of_two};

verus! {

/// The first position at or after `i` whose element equals `item` under
/// [`PartialEqSpec::eq_spec`], or -1 when there is none.
pub open spec fn first_match_from<T: PartialEq>(s: Seq<T>, item: T, i: int) -> int
    decreases s.len() - i,
{
    if i < 0 || i >= s.len() {
        -1
    } else if s[i].eq_spec(&item) {
        i
    } else {
        first_match_from(s, item, i + 1)
    }
}

/// A match, where there is one, lies at or after the position searched
/// from.
proof fn lemma_first_match_from_bounds<T: PartialEq>(s: Seq<T>, item: T, i: int)
    ensures
        first_match_from(s, item, i) == -1 || i <= first_match_from(s, item, i) < s.len(),
    decreases s.len() - i,
{
    if i < 0 || i >= s.len() {
    } else if s[i].eq_spec(&item) {
    } else {
        lemma_first_match_from_bounds(s, item, i + 1);
    }
}

/// A growable array.
///
/// The slots `[0, len)` of the backing buffer hold the elements in order;
/// the slots `[len, capacity)` are uninitialized and never read. The view
/// is the sequence of live elements.
#[derive(Debug)]
pub struct ArrayList<T> {
    buf: RawBuf<T>,
    len: usize,
}

impl<T> View for ArrayList<T> {
    type V = Seq<T>;

    closed spec fn view(&self) -> Seq<T> {
        Seq::new(self.len as nat, |i: int| self.buf@[i].unwrap())
    }
}

impl<T> ArrayList<T> {
    /// Well-formed: the live elements fill a prefix of the buffer, the rest
    /// is uninitialized, and the capacity is zero or a power of two.
    pub closed spec fn wf(&self) -> bool {
        &&& self.len <= self.buf@.len()
        &&& (forall|j: int| 0 <= j < self.len ==> self.buf@[j] is Some)
        &&& (forall|j: int| self.len <= j < self.buf@.len() ==> self.buf@[j] is None)
        &&& (self.buf@.len() == 0 || is_power_of_two(self.buf@.len() as nat))
    }

    /// Number of slots currently reserved.
    pub closed spec fn spec_capacity(&self) -> nat {
        self.buf@.len()
    }

    /// The capacity is zero or a power of two and never below the length.
    pub proof fn lemma_capacity_invariant(&self)
        requires
            self.wf(),
        ensures
            self@.len() <= self.spec_capacity(),
            self.spec_capacity() == 0 || is_power_of_two(self.spec_capacity()),
    {
    }

    /// An empty array; no memory is reserved until the first growth.
    pub fn new() -> (l: Self)
        ensures
            l.wf(),
            l@ == Seq::<T>::empty(),
            l.spec_capacity() == 0,
    {
        let l = ArrayList { buf: RawBuf::new(), len: 0 };
        proof {
            assert(l@ =~= Seq::<T>::empty());
        }
        l
    }

    /// Number of live elements.
    pub fn len(&self) -> (n: usize)
        ensures
            n == self@.len(),
    {
        self.len
    }

    /// Number of reserved slots.
    pub fn capacity(&self) -> (cap: usize)
        ensures
            cap == self.spec_capacity(),
    {
        self.buf.capacity()
    }

    /// One doubling step; the live elements keep their positions.
    fn grow_inner(&mut self)
        requires
            old(self).wf(),
            old(self).spec_capacity() <= usize::MAX / 2,
        ensures
            final(self).wf(),
            final(self)@ == old(self)@,
            final(self).spec_capacity() == grown_capacity(old(self).spec_capacity()),
            final(self)@.len() < final(self).spec_capacity(),
    {
        proof {
            lemma_grown_capacity_power_of_two(self.spec_capacity());
        }
        self.buf.grow();
        proof {
            assert(self@ =~= old(self)@);
        }
    }

    /// Appends `item`, doubling the capacity first when the array is full.
    pub fn append(&mut self, item: T)
        requires
            old(self).wf(),
            old(self).spec_capacity() <= usize::MAX / 2,
        ensures
            final(self).wf(),
            final(self)@ == old(self)@.push(item),
            final(self).spec_capacity() == (if old(self)@.len() == old(self).spec_capacity() {
                grown_capacity(old(self).spec_capacity())
            } else {
                old(self).spec_capacity()
            }),
    {
        if self.buf.capacity() == self.len {
            self.grow_inner();
        }
        self.buf.write(self.len, item);
        self.len = self.len + 1;
        proof {
            assert(self@ =~= old(self)@.push(item));
        }
    }

    /// Removes and returns the last element; on an empty array it returns
    /// `None` and leaves the array untouched, however often it is called.
    pub fn pop(&mut self) -> (r: Option<T>)
        requires
            old(self).wf(),
        ensures
            final(self).wf(),
            final(self).spec_capacity() == old(self).spec_capacity(),
            old(self)@.len() == 0 ==> r is None && *final(self) == *old(self),
            old(self)@.len() > 0 ==> r == Some(old(self)@.last()) && final(self)@ == old(
                self,
            )@.drop_last(),
    {
        if self.len == 0 {
            None
        } else {
            let r = self.buf.take_at(self.len - 1);
            self.len = self.len - 1;
            proof {
                assert(self@ =~= old(self)@.drop_last());
            }
            r
        }
    }

    /// Removes and returns the element at `index`, shifting `[index + 1,
    /// len)` one slot toward the head; `None` when `index` is not live.
    pub fn remove_at(&mut self, index: usize) -> (r: Option<T>)
        requires
            old(self).wf(),
        ensures
            final(self).wf(),
            final(self).spec_capacity() == old(self).spec_capacity(),
            index < old(self)@.len() ==> r == Some(old(self)@[index as int]) && final(self)@
                == old(self)@.remove(index as int),
            index >= old(self)@.len() ==> r is None && *final(self) == *old(self),
    {
        if index >= self.len {
            return None;
        }
        let ghost orig = *self;
        let removed = self.buf.take_at(index);
        let mut i = index;
        #[verifier::loop_isolation(false)]
        while i + 1 < self.len
            invariant
                index <= i < orig.len,
                self.len == orig.len,
                self.buf@.len() == orig.buf@.len(),
                forall|j: int| 0 <= j < index ==> self.buf@[j] == orig.buf@[j],
                forall|j: int| index <= j < i ==> self.buf@[j] == orig.buf@[j + 1],
                self.buf@[i as int] is None,
                forall|j: int| i < j < orig.len ==> self.buf@[j] == orig.buf@[j],
                forall|j: int| orig.len <= j < self.buf@.len() ==> self.buf@[j] is None,
            decreases self.len - i,
        {
            proof {
                assert(self.buf@[i + 1] == orig.buf@[i + 1]);
                assert(orig.buf@[i + 1] is Some);
            }
            let moved = self.buf.take_at(i + 1).unwrap();
            self.buf.write(i, moved);
            i = i + 1;
        }
        self.len = self.len - 1;
        proof {
            assert forall|j: int| 0 <= j < self.len implies self.buf@[j] is Some by {
                if j < index {
                    assert(self.buf@[j] == orig.buf@[j]);
                } else {
                    assert(self.buf@[j] == orig.buf@[j + 1]);
                }
            }
            assert(self@ =~= orig@.remove(index as int));
        }
        removed
    }

    /// Removes and returns the first element equal to `item`, or `None`
    /// when no element matches (then the array is untouched).
    ///
    /// The exact clauses hold for element types whose `==` agrees with its
    /// specification; for any type, at most one element is removed.
    pub fn remove(&mut self, item: &T) -> (r: Option<T>) where T: PartialEq
        requires
            old(self).wf(),
        ensures
            final(self).wf(),
            final(self).spec_capacity() == old(self).spec_capacity(),
            r is None ==> *final(self) == *old(self),
            r is Some ==> old(self)@.len() > 0 && final(self)@.len() == old(self)@.len() - 1,
            T::obeys_eq_spec() ==> {
                let k = first_match_from(old(self)@, *item, 0);
                &&& k < 0 ==> r is None && *final(self) == *old(self)
                &&& k >= 0 ==> r == Some(old(self)@[k]) && final(self)@ == old(self)@.remove(k)
            },
    {
        let mut i: usize = 0;
        proof {
            lemma_first_match_from_bounds(self@, *item, 0);
        }
        #[verifier::loop_isolation(false)]
        while i < self.len
            invariant
                0 <= i <= self.len,
                *self == *old(self),
                T::obeys_eq_spec() ==> first_match_from(old(self)@, *item, 0)
                    == first_match_from(old(self)@, *item, i as int),
                T::obeys_eq_spec() ==> first_match_from(old(self)@, *item, i as int) >= i
                    || first_match_from(old(self)@, *item, i as int) == -1,
            decreases self.len - i,
        {
            let probe = match self.buf.read(i) {
                Some(x) => x,
                None => unreached(),
            };
            proof {
                assert(*probe == self@[i as int]);
            }
            if probe.eq(item) {
                return self.remove_at(i);
            }
            proof {
                lemma_first_match_from_bounds(old(self)@, *item, i + 1);
                if T::obeys_eq_spec() {
                    assert(!old(self)@[i as int].eq_spec(item));
                    assert(first_match_from(old(self)@, *item, i as int) == first_match_from(
                        old(self)@,
                        *item,
                        i + 1,
                    ));
                }
            }
            i = i + 1;
        }
        None
    }

    /// Read-only access: the element at `index`, or `None` when `index` is
    /// not live. Never fatal, so callers may probe freely.
    pub fn get(&self, index: usize) -> (r: Option<&T>)
        requires
            self.wf(),
        ensures
            index < self@.len() ==> (r matches Some(x) && *x == self@[index as int]),
            index >= self@.len() ==> r is None,
    {
        if index < self.len {
            match self.buf.read(index) {
                Some(x) => Some(x),
                None => unreached(),
            }
        } else {
            None
        }
    }

    /// Inserts `item` at `index`, shifting `[index, len)` one slot toward
    /// the tail. Any `index` up to and including the length is valid;
    /// beyond that the array is left untouched and an error is returned.
    pub fn insert_at(&mut self, index: usize, item: T) -> (r: Result<(), BoundsError>)
        requires
            old(self).wf(),
            old(self).spec_capacity() <= usize::MAX / 2,
        ensures
            final(self).wf(),
            index <= old(self)@.len() ==> {
                &&& r is Ok
                &&& final(self)@ == old(self)@.insert(index as int, item)
                &&& final(self).spec_capacity() == (if old(self)@.len() == old(
                    self,
                ).spec_capacity() {
                    grown_capacity(old(self).spec_capacity())
                } else {
                    old(self).spec_capacity()
                })
            },
            index > old(self)@.len() ==> r is Err && *final(self) == *old(self),
    {
        if index > self.len {
            return Err(BoundsError);
        }
        if self.buf.capacity() == self.len {
            self.grow_inner();
        }
        let ghost mid = *self;
        let mut i = self.len;
        #[verifier::loop_isolation(false)]
        while i > index
            invariant
                index <= i <= mid.len,
                self.len == mid.len,
                self.buf@.len() == mid.buf@.len(),
                forall|j: int| 0 <= j < i ==> self.buf@[j] == mid.buf@[j],
                forall|j: int| i < j <= mid.len ==> self.buf@[j] == mid.buf@[j - 1],
                self.buf@[i as int] is None,
                forall|j: int| mid.len < j < self.buf@.len() ==> self.buf@[j] is None,
            decreases i,
        {
            proof {
                assert(self.buf@[i - 1] == mid.buf@[i - 1]);
                assert(mid.buf@[i - 1] is Some);
            }
            let moved = self.buf.take_at(i - 1).unwrap();
            self.buf.write(i, moved);
            i = i - 1;
        }
        self.buf.write(index, item);
        self.len = self.len + 1;
        proof {
            assert forall|j: int| 0 <= j < self.len implies self.buf@[j] is Some by {
                if j < index {
                    assert(self.buf@[j] == mid.buf@[j]);
                } else if j > index {
                    assert(self.buf@[j] == mid.buf@[j - 1]);
                }
            }
            assert(self@ =~= mid@.insert(index as int, item));
            assert(mid@ == old(self)@);
        }
        Ok(())
    }

    /// Inserts `item` before every other element.
    pub fn prepend(&mut self, item: T)
        requires
            old(self).wf(),
            old(self).spec_capacity() <= usize::MAX / 2,
        ensures
            final(self).wf(),
            final(self)@ == old(self)@.insert(0, item),
    {
        let r = self.insert_at(0, item);
        proof {
            assert(r is Ok);
        }
    }
}

} // verus!
