//! Laws relating several container operations, stated over the same
//! models the operations' contracts use and proved once and for all.

use vstd::prelude::*;

use crate::ring_buffer::{spec_pop_back, spec_push_front};

verus! {

/// The elements a LIFO container hands back when popped `n` times, in
/// the order they come back: each pop returns the view's last element
/// and leaves the view without it, and a pop on an empty view returns
/// nothing.
pub open spec fn popped_values<T>(s: Seq<T>, n: nat) -> Seq<T>
    decreases n,
{
    if n == 0 || s.len() == 0 {
        Seq::empty()
    } else {
        seq![s.last()] + popped_values(s.drop_last(), (n - 1) as nat)
    }
}

/// What remains of a LIFO container's view after `n` pops.
pub open spec fn remaining_values<T>(s: Seq<T>, n: nat) -> Seq<T>
    decreases n,
{
    if n == 0 || s.len() == 0 {
        s
    } else {
        remaining_values(s.drop_last(), (n - 1) as nat)
    }
}

/// The LIFO law shared by the growable arrays and the stack. Appending
/// the elements of `xs` in order makes the view `s + xs` (each append
/// ensures `view.push(x)`), and the next `xs.len()` pops return exactly
/// the elements of `xs` in reverse insertion order, leaving the
/// container as it began.
pub proof fn lemma_lifo_order<T>(s: Seq<T>, xs: Seq<T>)
    ensures
        popped_values(s + xs, xs.len()) == xs.reverse(),
        remaining_values(s + xs, xs.len()) == s,
    decreases xs.len(),
{
    if xs.len() == 0 {
        assert(s + xs =~= s);
        assert(popped_values(s, 0) =~= xs.reverse());
    } else {
        let ys = xs.drop_last();
        lemma_lifo_order(s, ys);
        assert((s + xs).drop_last() =~= s + ys);
        assert((s + xs).last() == xs.last());
        assert(xs.reverse() =~= seq![xs.last()] + ys.reverse());
        assert(popped_values(s + xs, xs.len()) =~= xs.reverse());
    }
}

/// Eviction law for the ring buffer: a front insertion into a buffer
/// already holding `cap` elements keeps the length at `cap` and drops
/// exactly the oldest element, the view's last.
pub proof fn lemma_ring_buffer_eviction<T>(cap: nat, s: Seq<T>, x: T)
    requires
        1 <= cap == s.len(),
    ensures
        spec_push_front(cap, s, x).len() == cap,
        spec_push_front(cap, s, x) == seq![x] + s.drop_last(),
{
}

/// Round trip on an empty ring buffer: one front insertion followed by
/// one back removal returns the inserted element and restores the empty
/// view. A well-formed empty buffer also has both cursors unset; see
/// `RingBuffer::lemma_empty_cursors_unset`.
pub proof fn lemma_ring_buffer_round_trip<T>(cap: nat, x: T)
    requires
        cap >= 1,
    ensures
        spec_pop_back(spec_push_front(cap, Seq::<T>::empty(), x)) == (
            Some(x),
            Seq::<T>::empty(),
        ),
{
    let s = spec_push_front(cap, Seq::<T>::empty(), x);
    assert(s =~= seq![x]);
    assert(s.drop_last() =~= Seq::<T>::empty());
}

} // verus!
