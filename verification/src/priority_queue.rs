//! A priority queue (binary min-heap) over a one-based array layout:
//! slot 0 is an unused sentinel, the root sits at slot 1, and the children
//! of slot `i` sit at `2i` and `2i + 1`. Push bubbles the new element up;
//! pop moves the last element to the root and sifts it down.

use vstd::prelude::*;

verus! {

/// The min-heap ordering over the one-based layout: every element at
/// index 2 or beyond is at least its parent.
pub open spec fn spec_heap(q: Seq<i64>) -> bool {
    forall|j: int| 2 <= j < q.len() ==> q[j / 2] <= #[trigger] q[j]
}

/// A heap everywhere except that the elements under `i` need not be at
/// least `q[i]`; `q[i]`'s own parent still bounds them.
spec fn almost_heap_down(q: Seq<i64>, i: int) -> bool {
    &&& (forall|j: int| 2 <= j < q.len() && j / 2 != i ==> q[j / 2] <= #[trigger] q[j])
    &&& (i >= 2 ==> (forall|j: int|
        2 <= j < q.len() && j / 2 == i ==> q[i / 2] <= #[trigger] q[j]))
}

/// A heap everywhere except that `q[i]` need not be at least its parent;
/// that parent still bounds the elements under `i`.
spec fn almost_heap_up(q: Seq<i64>, i: int) -> bool {
    &&& (forall|j: int| 2 <= j < q.len() && j != i ==> q[j / 2] <= #[trigger] q[j])
    &&& (i >= 2 && 2 * i < q.len() ==> q[i / 2] <= q[2 * i])
    &&& (i >= 2 && 2 * i + 1 < q.len() ==> q[i / 2] <= q[2 * i + 1])
}

/// In a heap the root bounds every element.
proof fn lemma_root_min_at(q: Seq<i64>, i: int)
    requires
        spec_heap(q),
        1 <= i < q.len(),
    ensures
        q[1] <= q[i],
    decreases i,
{
    if i >= 2 {
        lemma_root_min_at(q, i / 2);
    }
}

/// Overwriting one position trades its old element for the new one.
proof fn lemma_update_to_multiset(s: Seq<i64>, i: int, v: i64)
    requires
        0 <= i < s.len(),
    ensures
        s.update(i, v).to_multiset() == s.to_multiset().remove(s[i]).insert(v),
{
    broadcast use vstd::seq_lib::group_to_multiset_ensures;

    let su = s.update(i, v);
    assert(su.remove(i) =~= s.remove(i));
    assert(su.contains(v)) by {
        assert(su[i] == v);
    }
    assert(s.contains(s[i])) by {
        assert(0 <= i < s.len());
    }
    assert(su.to_multiset().remove(v) == s.to_multiset().remove(s[i]));
    assert(su.to_multiset() =~= s.to_multiset().remove(s[i]).insert(v));
}

/// Exchanging two positions leaves the contents unchanged.
proof fn lemma_swap_to_multiset(s: Seq<i64>, a: int, b: int)
    requires
        0 <= a < s.len(),
        0 <= b < s.len(),
        a != b,
    ensures
        s.update(a, s[b]).update(b, s[a]).to_multiset() == s.to_multiset(),
{
    broadcast use vstd::multiset::group_multiset_axioms;
    broadcast use vstd::seq_lib::group_to_multiset_ensures;

    let s1 = s.update(a, s[b]);
    lemma_update_to_multiset(s, a, s[b]);
    lemma_update_to_multiset(s1, b, s[a]);
    assert(s1[b] == s[b]);
    assert(s.contains(s[a])) by {
        assert(0 <= a < s.len());
    }
    assert(s.contains(s[b])) by {
        assert(0 <= b < s.len());
    }
    assert(s1.update(b, s[a]).to_multiset() =~= s.to_multiset());
}

/// Updating behind the sentinel commutes with dropping the sentinel.
proof fn lemma_skip_one_update(q: Seq<i64>, i: int, v: i64)
    requires
        1 <= i < q.len(),
    ensures
        q.update(i, v).skip(1) =~= q.skip(1).update(i - 1, v),
{
}

/// A priority queue: the element next out is the least one in.
///
/// The view is the sequence of stored elements in layout order, sentinel
/// excluded; the order within the view is internal, so the contracts
/// speak of its multiset of elements.
#[derive(Debug)]
pub struct PriorityQueue {
    queue: Vec<i64>,
}

impl View for PriorityQueue {
    type V = Seq<i64>;

    closed spec fn view(&self) -> Seq<i64> {
        self.queue@.skip(1)
    }
}

impl PriorityQueue {
    /// Well-formed: the sentinel is in place and the layout is a heap.
    pub closed spec fn wf(&self) -> bool {
        &&& 1 <= self.queue@.len() <= usize::MAX / 2
        &&& spec_heap(self.queue@)
    }

    /// An empty priority queue.
    pub fn new() -> (pq: Self)
        ensures
            pq.wf(),
            pq@ == Seq::<i64>::empty(),
    {
        let mut queue: Vec<i64> = Vec::new();
        queue.push(0);
        let pq = PriorityQueue { queue };
        proof {
            assert(pq@ =~= Seq::<i64>::empty());
        }
        pq
    }

    /// Number of stored elements.
    pub fn len(&self) -> (n: usize)
        requires
            self.wf(),
        ensures
            n == self@.len(),
    {
        self.queue.len() - 1
    }

    /// Reads the least element without consuming it; `None` when empty.
    pub fn peak(&self) -> (r: Option<&i64>)
        requires
            self.wf(),
        ensures
            r is Some <==> self@.len() > 0,
            r matches Some(x) ==> *x == self@[0] && (forall|k: int|
                0 <= k < self@.len() ==> self@[0] <= #[trigger] self@[k]),
    {
        if self.queue.len() > 1 {
            proof {
                assert forall|k: int| 0 <= k < self@.len() implies self@[0] <= #[trigger] self@[k] by {
                    lemma_root_min_at(self.queue@, k + 1);
                }
            }
            Some(&self.queue[1])
        } else {
            None
        }
    }

    /// Removes and returns the least element; `None` on an empty queue,
    /// which is left untouched. The rest of the contents stay as they
    /// were, as a multiset.
    pub fn pop(&mut self) -> (r: Option<i64>)
        requires
            old(self).wf(),
        ensures
            final(self).wf(),
            old(self)@.len() == 0 ==> r is None && *final(self) == *old(self),
            old(self)@.len() > 0 ==> {
                &&& r == Some(old(self)@[0])
                &&& (forall|k: int|
                    0 <= k < old(self)@.len() ==> old(self)@[0] <= #[trigger] old(self)@[k])
                &&& final(self)@.len() == old(self)@.len() - 1
                &&& final(self)@.to_multiset() == old(self)@.to_multiset().remove(old(self)@[0])
            },
    {
        broadcast use vstd::seq_lib::group_to_multiset_ensures;

        proof {
            if self.queue.len() > 1 {
                assert forall|k: int| 0 <= k < self@.len() implies self@[0] <= #[trigger] self@[k] by {
                    lemma_root_min_at(self.queue@, k + 1);
                }
            }
        }
        let n = self.len();
        if n == 0 {
            None
        } else if n == 1 {
            let r = self.queue.pop();
            proof {
                assert(old(self)@ =~= Seq::<i64>::empty().push(old(self)@[0]));
                assert(self@ =~= Seq::<i64>::empty());
                assert(self@.to_multiset() =~= old(self)@.to_multiset().remove(old(self)@[0]));
            }
            r
        } else {
            let ghost q0 = self.queue@;
            let last = self.queue.len() - 1;
            let root = self.queue[1];
            let moved = self.queue[last];
            self.queue[1] = moved;
            self.queue[last] = root;
            let r = self.queue.pop();
            proof {
                let v0 = q0.skip(1);
                lemma_skip_one_update(q0, 1, moved);
                lemma_skip_one_update(q0.update(1, moved), last as int, root);
                lemma_swap_to_multiset(v0, 0, last - 1);
                let q3 = self.queue@;
                let v2 = v0.update(0, moved).update(last - 1, root);
                assert(q3.skip(1) =~= v2.subrange(0, last - 1));
                assert(v2.remove(last - 1) =~= v2.subrange(0, last - 1));
                assert(self@.to_multiset() == v2.to_multiset().remove(root));
                assert(self@.to_multiset() == old(self)@.to_multiset().remove(old(self)@[0]));
                assert(almost_heap_down(q3, 1));
            }
            let ghost before_sift = self@.to_multiset();
            self.heapify_down(1);
            proof {
                assert(self@.to_multiset() == before_sift);
            }
            r
        }
    }

    /// Adds `value`; the other contents stay as they were, as a multiset.
    pub fn push(&mut self, value: i64)
        requires
            old(self).wf(),
            old(self)@.len() + 2 <= usize::MAX / 2,
        ensures
            final(self).wf(),
            final(self)@.len() == old(self)@.len() + 1,
            final(self)@.to_multiset() == old(self)@.to_multiset().insert(value),
    {
        broadcast use vstd::seq_lib::group_to_multiset_ensures;

        let i = self.queue.len();
        self.queue.push(value);
        proof {
            assert(self@ =~= old(self)@.push(value));
            assert(almost_heap_up(self.queue@, i as int));
        }
        let ghost before_sift = self@.to_multiset();
        self.heapify_up(i);
        proof {
            assert(self@.to_multiset() == before_sift);
            assert(before_sift == old(self)@.to_multiset().insert(value));
        }
    }

    /// The left child's slot and element, if the slot is live.
    fn left(&self, i: usize) -> (r: (usize, Option<i64>))
        requires
            i <= usize::MAX / 2,
        ensures
            r.0 == 2 * i,
            2 * i < self.queue@.len() ==> r.1 == Some(self.queue@[2 * i]),
            2 * i >= self.queue@.len() ==> r.1 is None,
    {
        let l_i = i * 2;
        if l_i < self.queue.len() {
            (l_i, Some(self.queue[l_i]))
        } else {
            (l_i, None)
        }
    }

    /// The right child's slot and element, if the slot is live.
    fn right(&self, i: usize) -> (r: (usize, Option<i64>))
        requires
            i < usize::MAX / 2,
        ensures
            r.0 == 2 * i + 1,
            2 * i + 1 < self.queue@.len() ==> r.1 == Some(self.queue@[2 * i + 1]),
            2 * i + 1 >= self.queue@.len() ==> r.1 is None,
    {
        let r_i = (i * 2) + 1;
        if r_i < self.queue.len() {
            (r_i, Some(self.queue[r_i]))
        } else {
            (r_i, None)
        }
    }

    /// The slot of the lesser live child of `i` and its element (the left
    /// one on a tie), or slot 0 and no element when `i` is a leaf.
    fn min_child(&self, i: usize) -> (r: (usize, Option<i64>))
        requires
            1 <= i < self.queue@.len(),
            self.queue@.len() <= usize::MAX / 2,
        ensures
            2 * i >= self.queue@.len() ==> r == (0usize, None::<i64>),
            2 * i < self.queue@.len() ==> {
                &&& 2 * i <= r.0 <= 2 * i + 1
                &&& r.0 < self.queue@.len()
                &&& r.1 == Some(self.queue@[r.0 as int])
                &&& self.queue@[r.0 as int] <= self.queue@[2 * i]
                &&& (2 * i + 1 < self.queue@.len() ==> self.queue@[r.0 as int] <= self.queue@[2
                    * i + 1])
            },
    {
        let (l_i, l) = self.left(i);
        let (r_i, r) = self.right(i);
        match (l, r) {
            (Some(lv), Some(rv)) => if lv > rv {
                (r_i, Some(rv))
            } else {
                (l_i, Some(lv))
            },
            (Some(lv), None) => (l_i, Some(lv)),
            _ => (0, None),
        }
    }

    /// Sifts the element at `i` down until both children bound it.
    fn heapify_down(&mut self, i: usize)
        requires
            1 <= i < old(self).queue@.len(),
            old(self).queue@.len() <= usize::MAX / 2,
            almost_heap_down(old(self).queue@, i as int),
        ensures
            final(self).queue@.len() == old(self).queue@.len(),
            final(self).queue@[0] == old(self).queue@[0],
            final(self)@.to_multiset() == old(self)@.to_multiset(),
            spec_heap(final(self).queue@),
        decreases old(self).queue@.len() - i,
    {
        let (c_i, child_opt) = self.min_child(i);
        match child_opt {
            Some(child) => {
                let v = self.queue[i];
                if child < v {
                    let ghost q0 = self.queue@;
                    self.queue[c_i] = v;
                    self.queue[i] = child;
                    proof {
                        lemma_skip_one_update(q0, c_i as int, v);
                        lemma_skip_one_update(q0.update(c_i as int, v), i as int, child);
                        lemma_swap_to_multiset(q0.skip(1), c_i - 1, i - 1);
                        assert(self@.to_multiset() == old(self)@.to_multiset());
                        assert(almost_heap_down(self.queue@, c_i as int));
                    }
                    let ghost before_sift = self@.to_multiset();
                    self.heapify_down(c_i);
                    proof {
                        assert(self@.to_multiset() == before_sift);
                    }
                } else {
                    proof {
                        assert(spec_heap(self.queue@));
                    }
                }
            },
            None => {
                proof {
                    assert(spec_heap(self.queue@));
                }
            },
        }
    }

    /// Bubbles the element at `i` up until its parent bounds it.
    fn heapify_up(&mut self, i: usize)
        requires
            1 <= i < old(self).queue@.len(),
            old(self).queue@.len() <= usize::MAX / 2,
            almost_heap_up(old(self).queue@, i as int),
        ensures
            final(self).queue@.len() == old(self).queue@.len(),
            final(self).queue@[0] == old(self).queue@[0],
            final(self)@.to_multiset() == old(self)@.to_multiset(),
            spec_heap(final(self).queue@),
        decreases i,
    {
        let parent_i = i / 2;
        if parent_i != 0 {
            if self.queue[i] < self.queue[parent_i] {
                let ghost q0 = self.queue@;
                let child = self.queue[i];
                let parent = self.queue[parent_i];
                self.queue[i] = parent;
                self.queue[parent_i] = child;
                proof {
                    lemma_skip_one_update(q0, i as int, parent);
                    lemma_skip_one_update(q0.update(i as int, parent), parent_i as int, child);
                    lemma_swap_to_multiset(q0.skip(1), i - 1, parent_i - 1);
                    assert(self@.to_multiset() == old(self)@.to_multiset());
                    assert(almost_heap_up(self.queue@, parent_i as int));
                }
                let ghost before_sift = self@.to_multiset();
                self.heapify_up(parent_i);
                proof {
                    assert(self@.to_multiset() == before_sift);
                }
            } else {
                proof {
                    assert(spec_heap(self.queue@));
                }
            }
        } else {
            proof {
                assert(spec_heap(self.queue@));
            }
        }
    }
}

} // verus!
