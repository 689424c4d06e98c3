//! The backing store shared by every container in this crate.
//!
//! A [`RawBuf`] owns one contiguous block of element slots. Only some slots
//! hold a live element at any time; the containers built on top decide which,
//! and never read a slot they have not written. A `None` slot stands for
//! memory that is reserved but uninitialized.

use vstd::prelude::*;

verus! {

/// True exactly for 1, 2, 4, 8, ...
pub open spec fn is_power_of_two(n: nat) -> bool
    decreases n,
{
    if n == 0 {
        false
    } else if n == 1 {
        true
    } else {
        n % 2 == 0 && is_power_of_two(n / 2)
    }
}

/// The capacity after one growth step: one slot from none, else double.
pub open spec fn grown_capacity(cap: nat) -> nat {
    if cap == 0 {
        1
    } else {
        2 * cap
    }
}

/// Growth keeps capacities in the sequence 0, 1, 2, 4, ...
pub proof fn lemma_grown_capacity_power_of_two(cap: nat)
    requires
        cap == 0 || is_power_of_two(cap),
    ensures
        is_power_of_two(grown_capacity(cap)),
        grown_capacity(cap) > cap,
{
}

/// One contiguous block of element slots.
///
/// The view is the sequence of slots; slot `j` holds `Some(v)` when a live
/// element `v` sits at offset `j`, and `None` when offset `j` is
/// uninitialized.
#[derive(Debug)]
pub struct RawBuf<T> {
    slots: Vec<Option<T>>,
}

impl<T> View for RawBuf<T> {
    type V = Seq<Option<T>>;

    closed spec fn view(&self) -> Seq<Option<T>> {
        self.slots@
    }
}

impl<T> RawBuf<T> {
    /// An empty buffer: no memory reserved.
    pub fn new() -> (buf: Self)
        ensures
            buf@ == Seq::<Option<T>>::empty(),
    {
        let buf = RawBuf { slots: Vec::new() };
        proof {
            assert(buf@ =~= Seq::<Option<T>>::empty());
        }
        buf
    }

    /// A buffer of exactly `capacity` slots, all uninitialized.
    pub fn with_capacity(capacity: usize) -> (buf: Self)
        ensures
            buf@.len() == capacity,
            forall|j: int| 0 <= j < capacity ==> buf@[j] is None,
    {
        let mut slots: Vec<Option<T>> = Vec::new();
        while slots.len() < capacity
            invariant
                slots@.len() <= capacity,
                forall|j: int| 0 <= j < slots@.len() ==> slots@[j] is None,
            decreases capacity - slots@.len(),
        {
            slots.push(None);
        }
        RawBuf { slots }
    }

    /// How many slots are reserved.
    pub fn capacity(&self) -> (cap: usize)
        ensures
            cap == self@.len(),
    {
        self.slots.len()
    }

    /// One doubling step: reserves `grown_capacity` slots, keeping every
    /// existing slot at its offset; the new slots are uninitialized.
    pub fn grow(&mut self)
        requires
            old(self)@.len() <= usize::MAX / 2,
        ensures
            final(self)@.len() == grown_capacity(old(self)@.len() as nat),
            forall|j: int| 0 <= j < old(self)@.len() ==> final(self)@[j] == old(self)@[j],
            forall|j: int|
                old(self)@.len() <= j < final(self)@.len() ==> final(self)@[j] is None,
    {
        let old_cap = self.slots.len();
        let new_cap = if old_cap == 0 {
            1
        } else {
            old_cap * 2
        };
        let ghost orig = self.slots@;
        while self.slots.len() < new_cap
            invariant
                new_cap == grown_capacity(orig.len() as nat),
                orig.len() <= self.slots@.len() <= new_cap,
                forall|j: int| 0 <= j < orig.len() ==> self.slots@[j] == orig[j],
                forall|j: int| orig.len() <= j < self.slots@.len() ==> self.slots@[j] is None,
            decreases new_cap - self.slots@.len(),
        {
            self.slots.push(None);
        }
    }

    /// Writes `value` into slot `index`. A live element already in the slot
    /// is destructed; the slot then owns `value`.
    pub fn write(&mut self, index: usize, value: T)
        requires
            index < old(self)@.len(),
        ensures
            final(self)@ == old(self)@.update(index as int, Some(value)),
    {
        self.slots[index] = Some(value);
    }

    /// Moves the element (if any) out of slot `index`, which becomes
    /// uninitialized; the caller receives ownership.
    pub fn take_at(&mut self, index: usize) -> (r: Option<T>)
        requires
            index < old(self)@.len(),
        ensures
            r == old(self)@[index as int],
            final(self)@ == old(self)@.update(index as int, None),
    {
        let slot = &mut self.slots[index];
        slot.take()
    }

    /// Read-only access to slot `index`.
    pub fn read(&self, index: usize) -> (r: &Option<T>)
        requires
            index < self@.len(),
        ensures
            *r == self@[index as int],
    {
        &self.slots[index]
    }
}

} // verus!
