//! The bounded LRU index over serializable live servants.
//!
//! A thin shell around [`crate::list::List`]: `push` prepends and hands
//! back the node's [`Pointer`], `top` promotes a node to the head, `pop`
//! removes the tail, and `evict` removes the tail only when the list is at
//! (or beyond) its configured capacity.  With `max_count == 0` the list is
//! pinned: `evict` never yields a victim.

use vstd::prelude::*;

pub use crate::list::Pointer;

verus! {

/// A doubly-linked list with a capacity, used LRU-wise: most recently
/// used at the head, eviction candidate at the tail.
pub struct List<T> {
    max_count: usize,
    inner: crate::list::List<T>,
}

impl<T> View for List<T> {
    type V = Seq<T>;

    /// The payloads, most recently used first.
    closed spec fn view(&self) -> Seq<T> {
        self.inner@
    }
}

impl<T> List<T> {
    pub closed spec fn wf(&self) -> bool {
        self.inner.wf()
    }

    /// The capacity the list was created with.
    pub closed spec fn max(&self) -> int {
        self.max_count as int
    }

    /// Whether `p` is the handle of a node now in the list.
    pub closed spec fn valid(&self, p: Pointer) -> bool {
        self.inner.valid(p)
    }

    /// The position of `p`'s node, head first; meaningful when `valid(p)`.
    pub closed spec fn pos(&self, p: Pointer) -> int {
        self.inner.pos(p)
    }

    /// A valid pointer names a position inside the list.
    pub proof fn lemma_pos_range(&self, p: Pointer)
        requires
            self.wf(),
            self.valid(p),
        ensures
            0 <= self.pos(p) < self@.len(),
    {
        self.inner.lemma_pos_range(p);
    }

    /// Distinct valid pointers sit at distinct positions.
    pub proof fn lemma_pos_injective(&self, p: Pointer, q: Pointer)
        requires
            self.wf(),
            self.valid(p),
            self.valid(q),
            self.pos(p) == self.pos(q),
        ensures
            p == q,
    {
        self.inner.lemma_pos_injective(p, q);
    }

    /// An empty list with the given capacity.
    pub fn new(max_count: usize) -> (r: Self)
        ensures
            r.wf(),
            r@ == Seq::<T>::empty(),
            r.max() == max_count,
            forall|q: Pointer| !r.valid(q),
    {
        List { max_count, inner: crate::list::List::new() }
    }

    /// How many nodes the list holds.
    pub fn len(&self) -> (r: usize)
        requires
            self.wf(),
        ensures
            r == self@.len(),
    {
        self.inner.len()
    }

    /// Prepends `val`: the new node is now the most recently used.
    pub fn push(&mut self, val: T) -> (p: Pointer)
        requires
            old(self).wf(),
        ensures
            final(self).wf(),
            final(self).max() == old(self).max(),
            final(self)@ == seq![val] + old(self)@,
            final(self).valid(p),
            final(self).pos(p) == 0,
            forall|q: Pointer|
                old(self).valid(q) ==> final(self).valid(q) && final(self).pos(q) == old(
                    self,
                ).pos(q) + 1 && q != p,
            forall|q: Pointer| final(self).valid(q) && q != p ==> old(self).valid(q),
    {
        self.inner.push_head(val)
    }

    /// Promotes the node of `p` to the head: it is now the most recently
    /// used.
    pub fn top(&mut self, p: Pointer)
        requires
            old(self).wf(),
            old(self).valid(p),
        ensures
            final(self).wf(),
            final(self).max() == old(self).max(),
            final(self)@ == seq![old(self)@[old(self).pos(p)]] + old(self)@.remove(
                old(self).pos(p),
            ),
            forall|q: Pointer| final(self).valid(q) <==> old(self).valid(q),
            final(self).valid(p) && final(self).pos(p) == 0,
            forall|q: Pointer|
                old(self).valid(q) && old(self).pos(q) < old(self).pos(p) ==> final(self).pos(q)
                    == old(self).pos(q) + 1,
            forall|q: Pointer|
                old(self).valid(q) && old(self).pos(q) > old(self).pos(p) ==> final(self).pos(q)
                    == old(self).pos(q),
    {
        self.inner.top(p)
    }

    /// Removes and returns the least recently used value, if any.
    pub fn pop(&mut self) -> (r: Option<T>)
        requires
            old(self).wf(),
        ensures
            final(self).wf(),
            final(self).max() == old(self).max(),
            old(self)@.len() == 0 ==> r is None && final(self)@ == old(self)@,
            old(self)@.len() > 0 ==> r == Some(old(self)@.last()) && final(self)@ == old(
                self,
            )@.drop_last(),
            forall|q: Pointer|
                final(self).valid(q) <==> (old(self).valid(q) && old(self).pos(q) != old(
                    self,
                )@.len() - 1),
            forall|q: Pointer| final(self).valid(q) ==> final(self).pos(q) == old(self).pos(q),
    {
        self.inner.pop_back()
    }

    /// Removes and returns the least recently used value, but only when
    /// the list is at (or beyond) capacity; a list with capacity zero is
    /// pinned and never yields a victim.
    pub fn evict(&mut self) -> (r: Option<T>)
        requires
            old(self).wf(),
        ensures
            final(self).wf(),
            final(self).max() == old(self).max(),
            (old(self).max() > 0 && old(self)@.len() >= old(self).max()) ==> r == Some(
                old(self)@.last(),
            ) && final(self)@ == old(self)@.drop_last() && (forall|q: Pointer|
                final(self).valid(q) <==> (old(self).valid(q) && old(self).pos(q) != old(
                    self,
                )@.len() - 1)) && (forall|q: Pointer|
                final(self).valid(q) ==> final(self).pos(q) == old(self).pos(q)),
            !(old(self).max() > 0 && old(self)@.len() >= old(self).max()) ==> r is None
                && final(self)@ == old(self)@ && (forall|q: Pointer|
                (final(self).valid(q) <==> old(self).valid(q)) && (final(self).valid(q)
                    ==> final(self).pos(q) == old(self).pos(q))),
    {
        if self.max_count > 0 && self.inner.len() >= self.max_count {
            self.inner.pop_back()
        } else {
            None
        }
    }
}

} // verus!
