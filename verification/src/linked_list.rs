//! A singly linked list with O(1) insertion and removal at the head and
//! O(n) indexed reads.

use vstd::prelude::*;

verus! {

struct Node<T> {
    val: T,
    next: Option<Box<Node<T>>>,
}

/// The elements reachable from a node, front first.
spec fn node_seq<T>(n: Node<T>) -> Seq<T>
    decreases n,
{
    seq![n.val] + opt_seq(n.next)
}

/// The elements reachable from an optional node, front first.
spec fn opt_seq<T>(o: Option<Box<Node<T>>>) -> Seq<T>
    decreases o,
{
    match o {
        None => Seq::empty(),
        Some(b) => node_seq(*b),
    }
}

/// A singly linked list. The view is the sequence of elements from the
/// head on.
pub struct LinkedList<T> {
    head: Option<Box<Node<T>>>,
    len: usize,
}

impl<T> View for LinkedList<T> {
    type V = Seq<T>;

    closed spec fn view(&self) -> Seq<T> {
        opt_seq(self.head)
    }
}

impl<T> LinkedList<T> {
    /// Well-formed: the running length agrees with the chain of nodes.
    pub closed spec fn wf(&self) -> bool {
        self.len == self@.len()
    }

    /// An empty list.
    pub fn new() -> (l: Self)
        ensures
            l.wf(),
            l@ == Seq::<T>::empty(),
    {
        LinkedList { head: None, len: 0 }
    }

    /// Number of elements.
    pub fn len(&self) -> (n: usize)
        requires
            self.wf(),
        ensures
            n == self@.len(),
    {
        self.len
    }

    /// Inserts `val` before every other element.
    pub fn push_front(&mut self, val: T)
        requires
            old(self).wf(),
            old(self)@.len() < usize::MAX,
        ensures
            final(self).wf(),
            final(self)@ == seq![val] + old(self)@,
    {
        let prev_head = self.head.take();
        let n = Node { val, next: prev_head };
        self.len = self.len + 1;
        self.head = Some(Box::new(n));
    }

    /// Removes and returns the head element; `None` on an empty list,
    /// which is left untouched.
    pub fn pop_front(&mut self) -> (r: Option<T>)
        requires
            old(self).wf(),
        ensures
            final(self).wf(),
            old(self)@.len() == 0 ==> r is None && *final(self) == *old(self),
            old(self)@.len() > 0 ==> r == Some(old(self)@.first()) && final(self)@ == old(
                self,
            )@.skip(1),
    {
        if self.len == 0 {
            return None;
        }
        let head = self.head.take().unwrap();
        let node = *head;
        self.len = self.len - 1;
        self.head = node.next;
        proof {
            assert(self@ =~= old(self)@.skip(1));
        }
        Some(node.val)
    }

    /// Read-only access: the element at `index`, or `None` when `index`
    /// is not live.
    pub fn get(&self, index: usize) -> (r: Option<&T>)
        requires
            self.wf(),
        ensures
            index < self@.len() ==> (r matches Some(x) && *x == self@[index as int]),
            index >= self@.len() ==> r is None,
    {
        if index >= self.len {
            return None;
        }
        let mut cell = match self.head.as_ref() {
            Some(c) => c,
            None => unreached(),
        };
        let mut k: usize = 0;
        #[verifier::loop_isolation(false)]
        while k < index
            invariant
                0 <= k <= index,
                node_seq(**cell) =~= self@.skip(k as int),
            decreases index - k,
        {
            let ghost cur = **cell;
            proof {
                assert(node_seq(cur).len() == self@.len() - k);
                assert(cur.next is Some);
            }
            let next_cell = match cell.next.as_ref() {
                Some(c) => c,
                None => unreached(),
            };
            proof {
                assert(**next_cell == *cur.next.unwrap());
                assert(opt_seq(cur.next) == node_seq(*cur.next.unwrap()));
                assert(opt_seq(cur.next) =~= node_seq(cur).skip(1));
                assert(self@.skip(k as int).skip(1) =~= self@.skip(k + 1));
                assert(node_seq(**next_cell) =~= self@.skip(k + 1));
            }
            cell = next_cell;
            k = k + 1;
        }
        proof {
            assert(node_seq(**cell)[0] == (**cell).val);
            assert(self@[index as int] == node_seq(**cell)[0]);
        }
        Some(&cell.val)
    }
}

} // verus!
