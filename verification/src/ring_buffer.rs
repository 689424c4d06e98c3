//! A fixed-capacity ring buffer over a [`RawBuf`]: front insertion that
//! evicts the oldest element when full, back removal, and random access
//! through a modular offset.
//!
//! Logical index `i` (0 is the newest element, at the head) lives at
//! physical offset `(head + i) % capacity`; the tail marks the oldest live
//! element. The capacity is fixed at construction; the buffer never grows.

use vstd::prelude::*;
use vstd::arithmetic::div_mod::lemma_fundamental_div_mod_converse;

use crate::BoundsError;
use crate::raw_buf::RawBuf;

verus! {

/// What one front insertion does to the sequence of live elements (newest
/// first): the new element enters at the front; a buffer already at
/// capacity loses exactly its oldest element, so the length stays put.
pub open spec fn spec_push_front<T>(cap: nat, s: Seq<T>, x: T) -> Seq<T> {
    if s.len() >= cap {
        seq![x] + s.drop_last()
    } else {
        seq![x] + s
    }
}

/// What one back removal does: nothing on an empty buffer, else it yields
/// the oldest element and drops it from the sequence.
pub open spec fn spec_pop_back<T>(s: Seq<T>) -> (Option<T>, Seq<T>) {
    if s.len() == 0 {
        (None::<T>, s)
    } else {
        (Some(s.last()), s.drop_last())
    }
}

/// For `0 <= x < 2m` the remainder is `x` itself or one wrap away.
proof fn lemma_mod_in_range(x: int, m: int)
    requires
        0 < m,
        0 <= x < 2 * m,
    ensures
        x % m == (if x < m {
            x
        } else {
            x - m
        }),
{
    if x < m {
        lemma_fundamental_div_mod_converse(x, m, 0, x);
    } else {
        lemma_fundamental_div_mod_converse(x, m, 1, x - m);
    }
}

/// A fixed-capacity ring buffer.
///
/// The view is the sequence of live elements, newest first: index 0 sits
/// at the head, the last index at the tail (the oldest element).
#[derive(Debug)]
pub struct RingBuffer<T> {
    buf: RawBuf<T>,
    head: Option<usize>,
    tail: Option<usize>,
    length: usize,
}

impl<T> View for RingBuffer<T> {
    type V = Seq<T>;

    closed spec fn view(&self) -> Seq<T> {
        Seq::new(self.length as nat, |i: int| self.buf@[self.slot_of(i)].unwrap())
    }
}

impl<T> RingBuffer<T> {
    /// Number of slots, fixed at construction.
    pub closed spec fn spec_capacity(&self) -> nat {
        self.buf@.len()
    }

    spec fn cap_int(&self) -> int {
        self.buf@.len() as int
    }

    spec fn head_idx(&self) -> int {
        self.head.unwrap() as int
    }

    /// Physical offset of logical index `i`.
    spec fn slot_of(&self, i: int) -> int {
        (self.head_idx() + i) % self.cap_int()
    }

    /// Logical index of physical offset `j`: how far `j` lies from the
    /// head, walking in iteration order.
    spec fn dist(&self, j: int) -> int {
        (j + self.cap_int() - self.head_idx()) % self.cap_int()
    }

    /// Physical offset `j` holds a live element.
    spec fn live_slot(&self, j: int) -> bool {
        self.length > 0 && self.dist(j) < self.length
    }

    /// Well-formed: the cursors are unset exactly when the buffer is
    /// empty, the tail sits `length - 1` steps behind the head, and a slot
    /// owns an element exactly when it is within `length` steps of the
    /// head.
    pub closed spec fn wf(&self) -> bool {
        &&& 1 <= self.buf@.len() <= usize::MAX / 2
        &&& self.length <= self.buf@.len()
        &&& (self.head is Some <==> self.length > 0)
        &&& (self.tail is Some <==> self.length > 0)
        &&& (self.length > 0 ==> {
            &&& 0 <= self.head_idx() < self.cap_int()
            &&& self.tail.unwrap() == (self.head_idx() + self.length - 1) % self.cap_int()
        })
        &&& (forall|j: int|
            0 <= j < self.buf@.len() ==> (self.buf@[j] is Some <==> self.live_slot(j)))
    }

    /// Both cursors are unset; holds of every well-formed empty buffer.
    pub closed spec fn cursors_unset(&self) -> bool {
        self.head is None && self.tail is None
    }

    /// An empty well-formed buffer has no head and no tail.
    pub proof fn lemma_empty_cursors_unset(&self)
        requires
            self.wf(),
            self@.len() == 0,
        ensures
            self.cursors_unset(),
    {
    }

    /// A buffer of exactly `capacity` slots, all empty. A zero capacity
    /// or one beyond the addressable-safe bound is rejected.
    pub fn new(capacity: usize) -> (rb: Self)
        requires
            1 <= capacity <= usize::MAX / 2,
        ensures
            rb.wf(),
            rb@ == Seq::<T>::empty(),
            rb.spec_capacity() == capacity,
            rb.cursors_unset(),
    {
        let rb = RingBuffer {
            buf: RawBuf::with_capacity(capacity),
            head: None,
            tail: None,
            length: 0,
        };
        proof {
            assert(rb@ =~= Seq::<T>::empty());
        }
        rb
    }

    /// Number of live elements; never exceeds the capacity.
    pub fn len(&self) -> (n: usize)
        requires
            self.wf(),
        ensures
            n == self@.len(),
            n <= self.spec_capacity(),
    {
        self.length
    }

    /// Number of slots, fixed at construction.
    pub fn capacity(&self) -> (cap: usize)
        ensures
            cap == self.spec_capacity(),
    {
        self.buf.capacity()
    }

    /// The slot one step before `i`, wrapping at offset zero.
    fn before(&self, i: usize) -> (r: usize)
        requires
            self.spec_capacity() >= 1,
            i < self.spec_capacity(),
        ensures
            r == (i + self.spec_capacity() - 1) % self.cap_int(),
            r < self.spec_capacity(),
    {
        proof {
            lemma_mod_in_range(i + self.cap_int() - 1, self.cap_int());
        }
        if i == 0 {
            self.buf.capacity() - 1
        } else {
            i - 1
        }
    }

    /// Physical offset of logical index `index`.
    fn offset(&self, index: usize) -> (r: usize)
        requires
            self.wf(),
            index < self@.len(),
        ensures
            r == self.slot_of(index as int),
            r < self.spec_capacity(),
    {
        proof {
            lemma_mod_in_range(self.head_idx() + index, self.cap_int());
        }
        let h = match self.head {
            Some(h) => h,
            None => unreached(),
        };
        (h + index) % self.buf.capacity()
    }

    /// Inserts `item` at the front, making it logical index 0.
    ///
    /// On an empty buffer the head is seeded at offset `capacity / 4`,
    /// leaving slack to wrap in either direction; otherwise the head steps
    /// one slot back. A buffer already at capacity destructs its oldest
    /// element (the slot being overwritten is the tail) before the new
    /// value takes the slot, and the length stays at the capacity: the
    /// buffer evicts instead of growing.
    pub fn push_front(&mut self, item: T)
        requires
            old(self).wf(),
        ensures
            final(self).wf(),
            final(self).spec_capacity() == old(self).spec_capacity(),
            final(self)@ == spec_push_front(old(self).spec_capacity(), old(self)@, item),
            final(self)@.len() <= final(self).spec_capacity(),
            old(self)@.len() < old(self).spec_capacity() ==> final(self)@ == seq![item] + old(
                self,
            )@,
            old(self)@.len() == old(self).spec_capacity() ==> final(self)@.len() == old(
                self,
            )@.len() && final(self)@ == seq![item] + old(self)@.drop_last(),
    {
        let ghost pre = *self;
        let cap = self.buf.capacity();
        let new_head = match self.head {
            Some(h) => self.before(h),
            None => cap / 4,
        };
        proof {
            assert(new_head < cap) by {
                if pre.head is None {
                    assert(cap / 4 < cap);
                }
            }
        }
        let was_full = self.length == cap;
        // On a full buffer this write lands on the tail slot and destructs
        // the oldest element before `item` takes its place.
        self.buf.write(new_head, item);
        self.head = Some(new_head);
        if self.length == 0 {
            self.tail = Some(new_head);
        } else if was_full {
            let t = match self.tail {
                Some(t) => t,
                None => unreached(),
            };
            self.tail = Some(self.before(t));
        }
        if self.length < cap {
            self.length = self.length + 1;
        }
        proof {
            self.lemma_push_front_shape(pre, new_head as int, item);
        }
    }

    /// The state after `push_front`'s updates is well-formed and its view
    /// is the front insertion into the old view.
    proof fn lemma_push_front_shape(&self, pre: Self, new_head: int, item: T)
        requires
            pre.wf(),
            self.buf@.len() == pre.buf@.len(),
            pre.length == 0 ==> new_head == pre.cap_int() / 4,
            pre.length > 0 ==> new_head == (pre.head_idx() + pre.cap_int() - 1) % pre.cap_int(),
            0 <= new_head < pre.cap_int(),
            self.buf@ == pre.buf@.update(new_head, Some(item)),
            self.head == Some(new_head as usize),
            self.length == (if pre.length < pre.buf@.len() {
                pre.length + 1
            } else {
                pre.length as int
            }),
            self.tail == (if pre.length == 0 {
                Some(new_head as usize)
            } else if pre.length == pre.buf@.len() {
                Some(((pre.tail.unwrap() + pre.cap_int() - 1) % pre.cap_int()) as usize)
            } else {
                pre.tail
            }),
        ensures
            self.wf(),
            self@ == spec_push_front(pre.spec_capacity(), pre@, item),
    {
        let cap = pre.cap_int();
        let h0 = pre.head_idx();
        assert(cap / 4 < cap);
        // Every offset other than the new head moves one step further from
        // the head than it was; the new head's distance drops to zero.
        assert forall|j: int| 0 <= j < cap implies (self.buf@[j] is Some <==> self.live_slot(
            j,
        )) by {
            if pre.length > 0 {
                lemma_mod_in_range(h0 + cap - 1, cap);
                lemma_mod_in_range(j + cap - h0, cap);
                lemma_mod_in_range(j + cap - new_head, cap);
                assert(pre.buf@[j] is Some <==> pre.live_slot(j));
            } else {
                lemma_mod_in_range(j + cap - new_head, cap);
                assert(pre.buf@[j] is Some <==> pre.live_slot(j));
            }
        }
        if pre.length > 0 {
            assert(self.tail.unwrap() == (self.head_idx() + self.length - 1) % self.cap_int()) by {
                lemma_mod_in_range(h0 + cap - 1, cap);
                lemma_mod_in_range(h0 + pre.length - 1, cap);
                lemma_mod_in_range(pre.tail.unwrap() + cap - 1, cap);
                lemma_mod_in_range(new_head + self.length - 1, cap);
            }
        } else {
            lemma_mod_in_range(new_head + 0, cap);
        }
        assert(self.wf());
        // The views line up index by index.
        let s = spec_push_front(pre.spec_capacity(), pre@, item);
        assert forall|i: int| 0 <= i < self.length implies self@[i] == s[i] by {
            lemma_mod_in_range(new_head + i, cap);
            if i == 0 {
                lemma_mod_in_range(new_head, cap);
                assert(self.buf@[self.slot_of(0)] == Some(item));
            } else {
                lemma_mod_in_range(h0 + cap - 1, cap);
                lemma_mod_in_range(h0 + (i - 1), cap);
                assert(self.slot_of(i) == pre.slot_of(i - 1));
                assert(self.slot_of(i) != new_head) by {
                    lemma_mod_in_range(self.slot_of(i) + cap - new_head, cap);
                }
                assert(self.buf@[self.slot_of(i)] == pre.buf@[pre.slot_of(i - 1)]);
            }
        }
        assert(self@ =~= s);
    }

    /// Removes and returns the oldest element, the one at the tail; on an
    /// empty buffer it returns `None` and changes nothing, however often
    /// it is called. Emptying the buffer unsets both cursors.
    pub fn pop_back(&mut self) -> (r: Option<T>)
        requires
            old(self).wf(),
        ensures
            final(self).wf(),
            final(self).spec_capacity() == old(self).spec_capacity(),
            (r, final(self)@) == spec_pop_back(old(self)@),
            old(self)@.len() == 0 ==> r is None && *final(self) == *old(self),
            old(self)@.len() > 0 ==> r == Some(old(self)@.last()) && final(self)@ == old(
                self,
            )@.drop_last(),
            final(self)@.len() == 0 ==> final(self).cursors_unset(),
    {
        let ghost pre = *self;
        let t = match self.tail {
            Some(t) => t,
            None => {
                return None;
            },
        };
        proof {
            lemma_mod_in_range(pre.head_idx() + pre.length - 1, pre.cap_int());
            lemma_mod_in_range(t + pre.cap_int() - pre.head_idx(), pre.cap_int());
            assert(t == pre.slot_of(pre.length - 1));
            assert(pre.dist(t as int) == pre.length - 1);
            assert(pre.live_slot(t as int));
            assert(pre.buf@[t as int] is Some);
            assert(pre.buf@[t as int] == Some(pre@.last()));
        }
        let r = self.buf.take_at(t);
        self.length = self.length - 1;
        if self.length > 0 {
            self.tail = Some(self.before(t));
        } else {
            self.tail = None;
            self.head = None;
        }
        proof {
            self.lemma_pop_back_shape(pre, t as int);
            assert(r == Some(pre@.last()));
        }
        r
    }

    /// The state after `pop_back`'s updates is well-formed and its view
    /// has lost the last element.
    proof fn lemma_pop_back_shape(&self, pre: Self, t: int)
        requires
            pre.wf(),
            pre.length > 0,
            t == pre.tail.unwrap(),
            self.buf@ == pre.buf@.update(t, None::<T>),
            self.length == pre.length - 1,
            self.head == (if pre.length > 1 {
                pre.head
            } else {
                None::<usize>
            }),
            self.tail == (if pre.length > 1 {
                Some(((t + pre.cap_int() - 1) % pre.cap_int()) as usize)
            } else {
                None::<usize>
            }),
        ensures
            self.wf(),
            self@ == pre@.drop_last(),
    {
        let cap = pre.cap_int();
        let h0 = pre.head_idx();
        assert(t == (h0 + pre.length - 1) % cap);
        lemma_mod_in_range(h0 + pre.length - 1, cap);
        // The tail slot is exactly `length - 1` steps from the head, and
        // no other slot is.
        assert forall|j: int| 0 <= j < cap implies (#[trigger] pre.dist(j) == pre.length - 1 <==> j
            == t) by {
            lemma_mod_in_range(j + cap - h0, cap);
        }
        if pre.length > 1 {
            assert(self.tail.unwrap() == (self.head_idx() + self.length - 1) % self.cap_int()) by {
                lemma_mod_in_range(t + cap - 1, cap);
                lemma_mod_in_range(h0 + pre.length - 2, cap);
            }
            assert forall|j: int| 0 <= j < cap implies (self.buf@[j] is Some <==> self.live_slot(
                j,
            )) by {
                lemma_mod_in_range(j + cap - h0, cap);
                assert(pre.buf@[j] is Some <==> pre.live_slot(j));
            }
        } else {
            assert forall|j: int| 0 <= j < cap implies (self.buf@[j] is Some <==> self.live_slot(
                j,
            )) by {
                lemma_mod_in_range(j + cap - h0, cap);
                assert(pre.buf@[j] is Some <==> pre.live_slot(j));
            }
        }
        assert(self.wf());
        assert forall|i: int| 0 <= i < self.length implies self@[i] == pre@[i] by {
            lemma_mod_in_range(h0 + i, cap);
            assert(self.slot_of(i) == pre.slot_of(i));
            assert(pre.slot_of(i) != t) by {
                lemma_mod_in_range(pre.slot_of(i) + cap - h0, cap);
            }
        }
        assert(self@ =~= pre@.drop_last());
    }

    /// Read-only access: the element at logical `index`, or an error when
    /// `index` is not live. Callers may probe freely.
    pub fn get(&self, index: usize) -> (r: Result<&T, BoundsError>)
        requires
            self.wf(),
        ensures
            index < self@.len() ==> (r matches Ok(x) && *x == self@[index as int]),
            index >= self@.len() ==> r is Err,
    {
        if index < self.length {
            let off = self.offset(index);
            proof {
                lemma_mod_in_range(self.slot_of(index as int) + self.cap_int() - self.head_idx(),
                    self.cap_int());
                lemma_mod_in_range(self.head_idx() + index, self.cap_int());
                assert(self.dist(self.slot_of(index as int)) == index);
                assert(self.live_slot(self.slot_of(index as int)));
                assert(self.buf@[self.slot_of(index as int)] is Some);
            }
            match self.buf.read(off) {
                Some(x) => Ok(x),
                None => unreached(),
            }
        } else {
            Err(BoundsError)
        }
    }

    /// Replaces the element at logical `index` with `item`, destructing
    /// the old one; an error when `index` is not live.
    pub fn set(&mut self, index: usize, item: T) -> (r: Result<(), BoundsError>)
        requires
            old(self).wf(),
        ensures
            final(self).wf(),
            final(self).spec_capacity() == old(self).spec_capacity(),
            index < old(self)@.len() ==> r is Ok && final(self)@ == old(self)@.update(
                index as int,
                item,
            ),
            index >= old(self)@.len() ==> r is Err && *final(self) == *old(self),
    {
        let ghost pre = *self;
        if index < self.length {
            let off = self.offset(index);
            self.buf.write(off, item);
            proof {
                let cap = pre.cap_int();
                let h0 = pre.head_idx();
                lemma_mod_in_range(h0 + index, cap);
                assert forall|j: int| 0 <= j < cap implies (self.buf@[j] is Some
                    <==> self.live_slot(j)) by {
                    lemma_mod_in_range(j + cap - h0, cap);
                    assert(pre.buf@[j] is Some <==> pre.live_slot(j));
                }
                assert forall|i: int|
                    0 <= i < self.length && i != index implies self@[i] == pre@[i] by {
                    lemma_mod_in_range(h0 + i, cap);
                }
                assert(self@[index as int] == item);
                assert(self@ =~= pre@.update(index as int, item));
            }
            Ok(())
        } else {
            Err(BoundsError)
        }
    }

    /// A read-only iterator over the live elements, newest first. It
    /// borrows the buffer, so iterating never mutates state and can be
    /// restarted by calling `iter` again.
    pub fn iter(&self) -> (it: RingBufferIterator<T>)
        requires
            self.wf(),
        ensures
            it.wf(),
            it@ == self@,
    {
        RingBufferIterator { rb: self, current: 0 }
    }
}

/// A read-only walk over a [`RingBuffer`], newest element first.
///
/// The view is the sequence of elements not yet visited.
pub struct RingBufferIterator<'a, T> {
    rb: &'a RingBuffer<T>,
    current: usize,
}

impl<'a, T> View for RingBufferIterator<'a, T> {
    type V = Seq<T>;

    closed spec fn view(&self) -> Seq<T> {
        self.rb@.skip(self.current as int)
    }
}

impl<'a, T> RingBufferIterator<'a, T> {
    /// Well-formed: the cursor lies within the buffer's live range.
    pub closed spec fn wf(&self) -> bool {
        &&& self.rb.wf()
        &&& self.current <= self.rb@.len()
    }

    /// Yields a reference to the next unvisited element, or `None` once
    /// every live element has been seen.
    pub fn next(&mut self) -> (r: Option<&'a T>)
        requires
            old(self).wf(),
        ensures
            final(self).wf(),
            old(self)@.len() == 0 ==> r is None && *final(self) == *old(self),
            old(self)@.len() > 0 ==> (r matches Some(x) && *x == old(self)@.first()
                && final(self)@ == old(self)@.skip(1)),
    {
        if self.current < self.rb.len() {
            let cur = self.current;
            self.current = cur + 1;
            match self.rb.get(cur) {
                Ok(x) => Some(x),
                Err(_) => unreached(),
            }
        } else {
            None
        }
    }
}

} // verus!
