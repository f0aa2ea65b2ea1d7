//! An intrusive doubly-linked list held in an arena of slots.
//!
//! A caller that pushes a value receives a stable [`Pointer`] to its node
//! and may later promote, demote or remove that node in O(1), without a
//! scan.  The evictor list of the servant registry stores one such pointer
//! in every servant record.

use vstd::prelude::*;

verus! {

/// A stable handle to one node of a [`List`].
#[derive(Clone, Copy, Debug, PartialEq, Eq, Structural)]
pub struct Pointer {
    idx: usize,
}

/// A doubly-linked list over an arena: slot `i` of `values` holds the
/// payload of node `i`, and `prev`/`next` hold the neighbouring slot
/// numbers.  Freed slots are kept on a free list and reused.
pub struct List<T> {
    values: Vec<Option<T>>,
    prev: Vec<Option<usize>>,
    next: Vec<Option<usize>>,
    head: Option<usize>,
    tail: Option<usize>,
    count: usize,
    free: Vec<usize>,
    order: Ghost<Seq<usize>>,
}

impl<T> View for List<T> {
    type V = Seq<T>;

    /// The payloads, head first.
    closed spec fn view(&self) -> Seq<T> {
        Seq::new(self.order@.len(), |k: int| self.values@[self.order@[k] as int]->Some_0)
    }
}

impl<T> List<T> {
    /// The arena size.
    closed spec fn cap(&self) -> int {
        self.values@.len() as int
    }

    /// The slot number of the node before position `k`, if any.
    closed spec fn prev_of(&self, k: int) -> Option<usize> {
        if k == 0 {
            None
        } else {
            Some(self.order@[k - 1])
        }
    }

    /// The slot number of the node after position `k`, if any.
    closed spec fn next_of(&self, k: int) -> Option<usize> {
        if k + 1 == self.order@.len() {
            None
        } else {
            Some(self.order@[k + 1])
        }
    }

    /// The node at position `k` sits in a live slot and is linked to its
    /// neighbours.
    closed spec fn wf_node(&self, k: int) -> bool {
        &&& (self.order@[k] as int) < self.cap()
        &&& self.values@[self.order@[k] as int] is Some
        &&& self.prev@[self.order@[k] as int] == self.prev_of(k)
        &&& self.next@[self.order@[k] as int] == self.next_of(k)
    }

    /// Well-formedness: the ghost order of slot numbers describes exactly
    /// the linked nodes, and the free list exactly the empty slots.
    pub closed spec fn wf(&self) -> bool {
        &&& self.cap() <= usize::MAX as int
        &&& self.prev@.len() == self.cap()
        &&& self.next@.len() == self.cap()
        &&& self.count == self.order@.len()
        &&& forall|k: int| 0 <= k < self.order@.len() ==> #[trigger] self.wf_node(k)
        &&& forall|k1: int, k2: int|
            0 <= k1 < self.order@.len() && 0 <= k2 < self.order@.len() && k1 != k2 ==> #[trigger] self.order@[k1]
                != #[trigger] self.order@[k2]
        &&& forall|i: int|
            0 <= i < self.cap() && (#[trigger] self.values@[i]) is Some ==> self.order@.contains(
                i as usize,
            )
        &&& self.head == (if self.order@.len() == 0 {
            None::<usize>
        } else {
            Some(self.order@[0])
        })
        &&& self.tail == (if self.order@.len() == 0 {
            None::<usize>
        } else {
            Some(self.order@[self.order@.len() - 1])
        })
        &&& forall|j1: int, j2: int|
            0 <= j1 < self.free@.len() && 0 <= j2 < self.free@.len() && j1 != j2 ==> #[trigger] self.free@[j1]
                != #[trigger] self.free@[j2]
        &&& forall|j: int| 0 <= j < self.free@.len() ==> (#[trigger] self.free@[j] as int) < self.cap()
        &&& forall|i: int|
            0 <= i < self.cap() ==> ((#[trigger] self.values@[i]) is None <==> self.free@.contains(
                i as usize,
            ))
    }

    /// Whether `p` is the handle of a node now in the list.
    pub closed spec fn valid(&self, p: Pointer) -> bool {
        self.order@.contains(p.idx)
    }

    /// The position of `p`'s node, head first; meaningful when `valid(p)`.
    pub closed spec fn pos(&self, p: Pointer) -> int {
        self.order@.index_of(p.idx)
    }

    /// A valid pointer names a position inside the list.
    pub proof fn lemma_pos_range(&self, p: Pointer)
        requires
            self.wf(),
            self.valid(p),
        ensures
            0 <= self.pos(p) < self@.len(),
    {
        assert(self.order@.contains(p.idx));
    }

    /// Distinct valid pointers sit at distinct positions.
    pub proof fn lemma_pos_injective(&self, p: Pointer, q: Pointer)
        requires
            self.wf(),
            self.valid(p),
            self.valid(q),
            self.pos(p) == self.pos(q),
        ensures
            p == q,
    {
        self.lemma_pos_range(p);
        self.lemma_pos_range(q);
    }

    /// What `pos` means: the slot of `q` sits at that index of the order.
    proof fn lemma_pos_idx(&self, q: Pointer)
        requires
            self.valid(q),
        ensures
            0 <= self.pos(q) < self.order@.len(),
            self.order@[self.pos(q)] == q.idx,
    {
        assert(self.order@.contains(q.idx));
    }

    /// A distinct sequence of slot numbers below `n` has at most `n`
    /// entries.
    proof fn lemma_distinct_bounded_len(s: Seq<usize>, n: int)
        requires
            n >= 0,
            forall|k: int| 0 <= k < s.len() ==> (#[trigger] s[k] as int) < n,
            forall|k1: int, k2: int|
                0 <= k1 < s.len() && 0 <= k2 < s.len() && k1 != k2 ==> #[trigger] s[k1]
                    != #[trigger] s[k2],
        ensures
            s.len() <= n,
        decreases n,
    {
        if n == 0 {
            if s.len() > 0 {
                assert((s[0] as int) < 0);
            }
        } else {
            if exists|k: int| 0 <= k < s.len() && (#[trigger] s[k] as int) == n - 1 {
                let k = choose|k: int| 0 <= k < s.len() && (#[trigger] s[k] as int) == n - 1;
                let s2 = s.remove(k);
                assert forall|j: int| 0 <= j < s2.len() implies (#[trigger] s2[j] as int) < n
                    - 1 by {
                    if j < k {
                        assert(s2[j] == s[j]);
                    } else {
                        assert(s2[j] == s[j + 1]);
                    }
                }
                assert forall|j1: int, j2: int|
                    0 <= j1 < s2.len() && 0 <= j2 < s2.len() && j1 != j2 implies #[trigger] s2[j1]
                    != #[trigger] s2[j2] by {
                    let i1 = if j1 < k {
                        j1
                    } else {
                        j1 + 1
                    };
                    let i2 = if j2 < k {
                        j2
                    } else {
                        j2 + 1
                    };
                    assert(s2[j1] == s[i1]);
                    assert(s2[j2] == s[i2]);
                }
                Self::lemma_distinct_bounded_len(s2, n - 1);
            } else {
                Self::lemma_distinct_bounded_len(s, n - 1);
            }
        }
    }

    /// There is room to count one more node.
    proof fn lemma_count_headroom(&self)
        requires
            self.wf(),
        ensures
            self.free@.len() > 0 ==> self.order@.len() < self.cap(),
            self.order@.len() <= self.cap(),
    {
        let ids = self.order@;
        assert forall|k: int| 0 <= k < ids.len() implies (#[trigger] ids[k] as int)
            < self.cap() by {
            assert(self.wf_node(k));
        }
        Self::lemma_distinct_bounded_len(ids, self.cap());
        if self.free@.len() > 0 {
            let f = self.free@[0];
            assert(self.free@.contains(f));
            assert(self.values@[f as int] is None);
            let s2 = ids.push(f);
            assert forall|k: int| 0 <= k < s2.len() implies (#[trigger] s2[k] as int)
                < self.cap() by {
                if k < ids.len() {
                    assert(s2[k] == ids[k]);
                    assert(self.wf_node(k));
                } else {
                    assert(s2[k] == f);
                }
            }
            assert forall|k1: int, k2: int|
                0 <= k1 < s2.len() && 0 <= k2 < s2.len() && k1 != k2 implies #[trigger] s2[k1]
                != #[trigger] s2[k2] by {
                if k1 < ids.len() && k2 < ids.len() {
                    assert(s2[k1] == ids[k1] && s2[k2] == ids[k2]);
                } else if k1 < ids.len() {
                    assert(s2[k2] == f);
                    assert(self.wf_node(k1));
                    assert(self.values@[ids[k1] as int] is Some);
                } else {
                    assert(s2[k1] == f);
                    assert(self.wf_node(k2));
                    assert(self.values@[ids[k2] as int] is Some);
                }
            }
            Self::lemma_distinct_bounded_len(s2, self.cap());
        }
    }

    /// An empty list.
    pub fn new() -> (r: Self)
        ensures
            r.wf(),
            r@ == Seq::<T>::empty(),
            forall|q: Pointer| !r.valid(q),
    {
        let r = List {
            values: Vec::new(),
            prev: Vec::new(),
            next: Vec::new(),
            head: None,
            tail: None,
            count: 0,
            free: Vec::new(),
            order: Ghost(Seq::empty()),
        };
        proof {
            assert(r@ =~= Seq::<T>::empty());
        }
        r
    }

    /// How many nodes the list holds.
    pub fn len(&self) -> (r: usize)
        requires
            self.wf(),
        ensures
            r == self@.len(),
    {
        self.count
    }

    /// Allocates a fresh slot holding `val`, unlinked; returns its number.
    fn new_slot(&mut self, val: T) -> (i: usize)
        requires
            old(self).wf(),
        ensures
            (i as int) < final(self).cap(),
            final(self).cap() >= old(self).cap(),
            final(self).prev@.len() == final(self).cap(),
            final(self).next@.len() == final(self).cap(),
            final(self).values@[i as int] == Some(val),
            final(self).prev@[i as int] is None,
            final(self).next@[i as int] is None,
            !old(self).order@.contains(i),
            forall|j: int|
                0 <= j < final(self).cap() && j != i ==> j < old(self).cap()
                    && #[trigger] final(self).values@[j] == old(self).values@[j]
                    && final(self).prev@[j] == old(self).prev@[j] && final(self).next@[j]
                    == old(self).next@[j],
            final(self).head == old(self).head,
            final(self).tail == old(self).tail,
            final(self).count == old(self).count,
            final(self).order == old(self).order,
            forall|j1: int, j2: int|
                0 <= j1 < final(self).free@.len() && 0 <= j2 < final(self).free@.len() && j1 != j2
                    ==> #[trigger] final(self).free@[j1] != #[trigger] final(self).free@[j2],
            forall|j: int|
                0 <= j < final(self).free@.len() ==> (#[trigger] final(self).free@[j] as int)
                    < final(self).cap(),
            forall|j: int|
                0 <= j < final(self).cap() ==> ((#[trigger] final(self).values@[j]) is None
                    <==> final(self).free@.contains(j as usize)),
            old(self).order@.len() < final(self).cap(),
            final(self).cap() <= usize::MAX as int,
    {
        proof {
            self.lemma_count_headroom();
        }
        match self.free.pop() {
            Some(j) => {
                let ghost oldfree = old(self).free@;
                proof {
                    assert(oldfree[oldfree.len() - 1] == j);
                    assert(oldfree.contains(j));
                    assert((j as int) < self.cap());
                    assert(old(self).values@[j as int] is None);
                }
                self.values[j] = Some(val);
                self.prev[j] = None;
                self.next[j] = None;
                proof {
                    assert(!old(self).order@.contains(j)) by {
                        if old(self).order@.contains(j) {
                            let k = choose|k: int|
                                0 <= k < old(self).order@.len() && old(self).order@[k] == j;
                            assert(old(self).wf_node(k));
                        }
                    }
                    assert forall|j2: int|
                        0 <= j2 < self.cap() implies ((#[trigger] self.values@[j2]) is None
                        <==> self.free@.contains(j2 as usize)) by {
                        if j2 == j as int {
                            assert(!self.free@.contains(j2 as usize)) by {
                                if self.free@.contains(j2 as usize) {
                                    let k = choose|k: int|
                                        0 <= k < self.free@.len() && self.free@[k] == j2 as usize;
                                    assert(oldfree[k] == j);
                                }
                            }
                        } else {
                            assert(self.free@.contains(j2 as usize) <==> oldfree.contains(
                                j2 as usize,
                            )) by {
                                if oldfree.contains(j2 as usize) {
                                    let k = choose|k: int|
                                        0 <= k < oldfree.len() && oldfree[k] == j2 as usize;
                                    assert((j2 as usize) as int == j2);
                                    if k == oldfree.len() - 1 {
                                        assert(oldfree[k] == j);
                                        assert(false);
                                    }
                                    assert(self.free@[k] == j2 as usize);
                                }
                                if self.free@.contains(j2 as usize) {
                                    let k = choose|k: int|
                                        0 <= k < self.free@.len() && self.free@[k] == j2 as usize;
                                    assert(oldfree[k] == j2 as usize);
                                }
                            }
                        }
                    }
                }
                j
            },
            None => {
                let i = self.values.len();
                self.values.push(Some(val));
                self.prev.push(None);
                self.next.push(None);
                proof {
                    vstd::std_specs::vec::axiom_spec_len(&self.values);
                    assert(!old(self).order@.contains(i)) by {
                        if old(self).order@.contains(i) {
                            let k = choose|k: int|
                                0 <= k < old(self).order@.len() && old(self).order@[k] == i;
                            assert(old(self).wf_node(k));
                        }
                    }
                    assert(old(self).free@.len() == 0);
                    assert forall|j2: int|
                        0 <= j2 < self.cap() implies ((#[trigger] self.values@[j2]) is None
                        <==> self.free@.contains(j2 as usize)) by {
                        if j2 < old(self).cap() {
                            assert(self.values@[j2] == old(self).values@[j2]);
                        }
                    }
                }
                i
            },
        }
    }
    /// Prepends `val`; the new node becomes the head.  Every pointer that
    /// was valid stays valid, one position further from the head.
    pub fn push_head(&mut self, val: T) -> (p: Pointer)
        requires
            old(self).wf(),
        ensures
            final(self).wf(),
            final(self)@ == seq![val] + old(self)@,
            final(self).valid(p),
            final(self).pos(p) == 0,
            forall|q: Pointer|
                old(self).valid(q) ==> final(self).valid(q) && final(self).pos(q) == old(
                    self,
                ).pos(q) + 1 && q != p,
            forall|q: Pointer| final(self).valid(q) && q != p ==> old(self).valid(q),
    {
        let ghost pre = *old(self);
        let i = self.new_slot(val);
        proof {
            if pre.order@.len() > 0 {
                assert(pre.wf_node(0));
            }
        }
        match self.head {
            None => {
                self.tail = Some(i);
            },
            Some(h) => {
                self.prev[h] = Some(i);
                self.next[i] = Some(h);
            },
        }
        self.head = Some(i);
        self.count = self.count + 1;
        proof {
            self.order@ = seq![i] + self.order@;
        }
        let p = Pointer { idx: i };
        proof {
            let ids = pre.order@;
            let ids2 = self.order@;
            assert(ids2.len() == ids.len() + 1);
            assert(ids2[0] == i);
            assert forall|k: int| 0 <= k < ids.len() implies ids2[k + 1] == ids[k] by {}
            assert forall|k: int| 0 <= k < ids2.len() implies #[trigger] self.wf_node(k) by {
                if k == 0 {
                    assert(self.values@[i as int] == Some(val));
                } else {
                    assert(pre.wf_node(k - 1));
                    let s = ids[k - 1];
                    assert((s as int) < pre.cap());
                    assert(s != i);
                    assert(self.values@[s as int] == pre.values@[s as int]);
                    if k == 1 {
                        assert(self.prev@[s as int] == Some(i));
                    } else {
                        assert(ids[k - 2] != i) by {
                            if ids[k - 2] == i {
                                assert(ids.contains(i)) by {
                                    assert(ids[k - 2] == i);
                                }
                            }
                        }
                        assert(self.prev@[s as int] == pre.prev@[s as int]);
                    }
                    if k == ids2.len() - 1 {
                        assert(self.next@[s as int] == pre.next@[s as int]);
                    } else {
                        assert(self.next@[s as int] == pre.next@[s as int]);
                        assert(pre.next_of(k - 1) == Some(ids[k]));
                    }
                }
            }
            assert forall|k1: int, k2: int|
                0 <= k1 < ids2.len() && 0 <= k2 < ids2.len() && k1 != k2 implies #[trigger] ids2[k1]
                != #[trigger] ids2[k2] by {
                if k1 == 0 {
                    assert(ids2[k2] == ids[k2 - 1]);
                    assert(!ids.contains(i));
                } else if k2 == 0 {
                    assert(ids2[k1] == ids[k1 - 1]);
                    assert(!ids.contains(i));
                } else {
                    assert(ids2[k1] == ids[k1 - 1] && ids2[k2] == ids[k2 - 1]);
                }
            }
            assert forall|j: int|
                0 <= j < self.cap() && (#[trigger] self.values@[j]) is Some implies ids2.contains(
                j as usize,
            ) by {
                if j == i as int {
                    assert(ids2[0] == i);
                } else {
                    assert(self.values@[j] == pre.values@[j]);
                }
            }
            assert(self@ =~= seq![val] + pre@) by {
                assert forall|k: int| 0 <= k < self@.len() implies self@[k] == (seq![val]
                    + pre@)[k] by {
                    if k > 0 {
                        assert(pre.wf_node(k - 1));
                        assert(ids[k - 1] != i);
                        assert(self.values@[ids2[k] as int] == pre.values@[ids[k - 1] as int]);
                    }
                }
            }
            assert(self.valid(p) && self.pos(p) == 0) by {
                assert(ids2[0] == i);
                assert(ids2.contains(i));
                self.lemma_pos_idx(p);
                let k2 = self.pos(p);
                if k2 != 0 {
                    assert(ids2[k2] == ids[k2 - 1]);
                    assert(ids.contains(i)) by {
                        assert(ids[k2 - 1] == i);
                    }
                }
            }
            assert forall|q: Pointer| pre.valid(q) implies self.valid(q) && self.pos(q) == pre.pos(q)
                + 1 && q != p by {
                pre.lemma_pos_idx(q);
                let k = pre.pos(q);
                assert(ids2[k + 1] == q.idx);
                assert(ids2.contains(q.idx));
                self.lemma_pos_idx(q);
                let k2 = self.pos(q);
                if k2 == 0 {
                    assert(q.idx == i);
                    assert(ids.contains(i)) by {
                        assert(ids[k] == i);
                    }
                }
                assert(ids2[k2] == q.idx && ids2[k + 1] == q.idx);
                assert(k2 == k + 1);
                assert(q.idx != i) by {
                    if q.idx == i {
                        assert(ids.contains(i)) by {
                            assert(ids[k] == i);
                        }
                    }
                }
            }
            assert forall|q: Pointer| self.valid(q) && q != p implies pre.valid(q) by {
                self.lemma_pos_idx(q);
                let k2 = self.pos(q);
                if k2 == 0 {
                    assert(q.idx == i);
                } else {
                    assert(ids[k2 - 1] == q.idx);
                    assert(ids.contains(q.idx));
                }
            }
        }
        p
    }


    /// Appends `val`; the new node becomes the tail.  Every pointer that
    /// was valid stays valid, at its old position.
    pub fn push_back(&mut self, val: T) -> (p: Pointer)
        requires
            old(self).wf(),
        ensures
            final(self).wf(),
            final(self)@ == old(self)@.push(val),
            final(self).valid(p),
            final(self).pos(p) == old(self)@.len(),
            forall|q: Pointer|
                old(self).valid(q) ==> final(self).valid(q) && final(self).pos(q) == old(
                    self,
                ).pos(q) && q != p,
            forall|q: Pointer| final(self).valid(q) && q != p ==> old(self).valid(q),
    {
        let ghost pre = *old(self);
        let i = self.new_slot(val);
        proof {
            if pre.order@.len() > 0 {
                assert(pre.wf_node(pre.order@.len() - 1));
            }
        }
        match self.tail {
            None => {
                self.head = Some(i);
            },
            Some(t) => {
                self.next[t] = Some(i);
                self.prev[i] = Some(t);
            },
        }
        self.tail = Some(i);
        self.count = self.count + 1;
        proof {
            self.order@ = self.order@.push(i);
        }
        let p = Pointer { idx: i };
        proof {
            let ids = pre.order@;
            let ids2 = self.order@;
            let n = ids.len() as int;
            assert(ids2.len() == n + 1);
            assert(ids2[n] == i);
            assert forall|k: int| 0 <= k < n implies ids2[k] == ids[k] by {}
            assert forall|k: int| 0 <= k < ids2.len() implies #[trigger] self.wf_node(k) by {
                if k == n {
                    assert(self.values@[i as int] == Some(val));
                } else {
                    assert(pre.wf_node(k));
                    let s = ids[k];
                    assert(s != i);
                    assert(self.values@[s as int] == pre.values@[s as int]);
                    if k == n - 1 {
                        assert(self.next@[s as int] == Some(i));
                        assert(self.prev@[s as int] == pre.prev@[s as int]);
                    } else {
                        assert(ids[k + 1] != i) by {
                            if ids[k + 1] == i {
                                assert(ids.contains(i)) by {
                                    assert(ids[k + 1] == i);
                                }
                            }
                        }
                        assert(self.next@[s as int] == pre.next@[s as int]);
                        assert(self.prev@[s as int] == pre.prev@[s as int]);
                    }
                }
            }
            assert forall|k1: int, k2: int|
                0 <= k1 < ids2.len() && 0 <= k2 < ids2.len() && k1 != k2 implies #[trigger] ids2[k1]
                != #[trigger] ids2[k2] by {
                if k1 == n {
                    assert(!ids.contains(i));
                    assert(ids2[k2] == ids[k2]);
                } else if k2 == n {
                    assert(!ids.contains(i));
                    assert(ids2[k1] == ids[k1]);
                }
            }
            assert forall|j: int|
                0 <= j < self.cap() && (#[trigger] self.values@[j]) is Some implies ids2.contains(
                j as usize,
            ) by {
                if j == i as int {
                    assert(ids2[n] == i);
                } else {
                    assert(self.values@[j] == pre.values@[j]);
                    assert(ids.contains(j as usize));
                    let k = choose|k: int| 0 <= k < ids.len() && ids[k] == j as usize;
                    assert(ids2[k] == j as usize);
                }
            }
            assert(self@ =~= pre@.push(val)) by {
                assert forall|k: int| 0 <= k < self@.len() implies self@[k] == pre@.push(val)[k] by {
                    if k < n {
                        assert(pre.wf_node(k));
                        assert(ids[k] != i);
                        assert(self.values@[ids2[k] as int] == pre.values@[ids[k] as int]);
                    }
                }
            }
            assert(self.valid(p) && self.pos(p) == n) by {
                assert(ids2[n] == i);
                assert(ids2.contains(i));
                self.lemma_pos_idx(p);
                let k2 = self.pos(p);
                if k2 != n {
                    assert(ids.contains(i)) by {
                        assert(ids[k2] == i);
                    }
                }
            }
            assert forall|q: Pointer| pre.valid(q) implies self.valid(q) && self.pos(q) == pre.pos(
                q,
            ) && q != p by {
                pre.lemma_pos_idx(q);
                let k = pre.pos(q);
                assert(ids2[k] == q.idx);
                assert(ids2.contains(q.idx));
                self.lemma_pos_idx(q);
                let k2 = self.pos(q);
                assert(q.idx != i) by {
                    if q.idx == i {
                        assert(ids.contains(i)) by {
                            assert(ids[k] == i);
                        }
                    }
                }
                if k2 == n {
                    assert(ids2[k2] == i);
                }
                assert(ids2[k2] == q.idx && ids2[k] == q.idx);
                assert(k2 == k);
            }
            assert forall|q: Pointer| self.valid(q) && q != p implies pre.valid(q) by {
                self.lemma_pos_idx(q);
                let k2 = self.pos(q);
                if k2 == n {
                    assert(q.idx == i);
                } else {
                    assert(ids[k2] == q.idx);
                    assert(ids.contains(q.idx));
                }
            }
        }
        p
    }

    /// Removes and returns the tail value; `None` on an empty list.  A
    /// pointer stays valid exactly when it did not name the tail.
    pub fn pop_back(&mut self) -> (r: Option<T>)
        requires
            old(self).wf(),
        ensures
            final(self).wf(),
            old(self)@.len() == 0 ==> r is None && *final(self) == *old(self),
            old(self)@.len() > 0 ==> r == Some(old(self)@.last()) && final(self)@ == old(
                self,
            )@.drop_last(),
            forall|q: Pointer|
                final(self).valid(q) <==> (old(self).valid(q) && old(self).pos(q) != old(
                    self,
                )@.len() - 1),
            forall|q: Pointer| final(self).valid(q) ==> final(self).pos(q) == old(self).pos(q),
    {
        let ghost pre = *old(self);
        match self.tail {
            None => {
                None
            },
            Some(t) => {
                let ghost ids = pre.order@;
                let ghost n = ids.len() as int;
                proof {
                    assert(n > 0);
                    assert(pre.wf_node(n - 1));
                    assert(t == ids[n - 1]);
                    if n > 1 {
                        assert(pre.wf_node(n - 2));
                    }
                }
                let v = self.values[t].take();
                let pr = self.prev[t];
                match pr {
                    Some(a) => {
                        self.next[a] = None;
                        self.tail = Some(a);
                    },
                    None => {
                        self.head = None;
                        self.tail = None;
                    },
                }
                self.count = self.count - 1;
                self.free.push(t);
                proof {
                    self.order@ = ids.drop_last();
                    let ids2 = self.order@;
                    assert forall|k: int| 0 <= k < n - 1 implies ids2[k] == ids[k] by {}
                    assert forall|k: int| 0 <= k < ids2.len() implies #[trigger] self.wf_node(
                        k,
                    ) by {
                        assert(pre.wf_node(k));
                        let s = ids[k];
                        assert(s != t);
                        assert(self.values@[s as int] == pre.values@[s as int]);
                        assert(self.prev@[s as int] == pre.prev@[s as int]);
                        if k == n - 2 {
                            assert(self.next@[s as int] == None::<usize>);
                        } else {
                            assert(ids[k + 1] != ids[n - 1]);
                            assert(self.next@[s as int] == pre.next@[s as int]);
                        }
                    }
                    assert forall|j: int|
                        0 <= j < self.cap() && (#[trigger] self.values@[j]) is Some implies
                        ids2.contains(j as usize) by {
                        assert(j != t as int);
                        assert(self.values@[j] == pre.values@[j]);
                        assert(ids.contains(j as usize));
                        let k = choose|k: int| 0 <= k < ids.len() && ids[k] == j as usize;
                        assert(k != n - 1);
                        assert(ids2[k] == j as usize);
                    }
                    if n > 1 {
                        assert(self.head == Some(ids2[0]));
                        assert(self.tail == Some(ids[n - 2]));
                    }
                    let oldfree = pre.free@;
                    assert(!oldfree.contains(t)) by {
                        if oldfree.contains(t) {
                            assert(pre.values@[t as int] is None);
                        }
                    }
                    assert forall|j1: int, j2: int|
                        0 <= j1 < self.free@.len() && 0 <= j2 < self.free@.len() && j1 != j2
                        implies #[trigger] self.free@[j1] != #[trigger] self.free@[j2] by {
                        if j1 == self.free@.len() - 1 {
                            assert(self.free@[j2] == oldfree[j2]);
                            assert(oldfree.contains(oldfree[j2]));
                        } else if j2 == self.free@.len() - 1 {
                            assert(self.free@[j1] == oldfree[j1]);
                            assert(oldfree.contains(oldfree[j1]));
                        }
                    }
                    assert forall|j: int|
                        0 <= j < self.cap() implies ((#[trigger] self.values@[j]) is None
                        <==> self.free@.contains(j as usize)) by {
                        if j == t as int {
                            assert(self.free@[self.free@.len() - 1] == t);
                            assert(self.free@.contains(t));
                        } else {
                            assert(self.values@[j] == pre.values@[j]);
                            if oldfree.contains(j as usize) {
                                let k = choose|k: int|
                                    0 <= k < oldfree.len() && oldfree[k] == j as usize;
                                assert(self.free@[k] == j as usize);
                            }
                            if self.free@.contains(j as usize) {
                                let k = choose|k: int|
                                    0 <= k < self.free@.len() && self.free@[k] == j as usize;
                                assert(k != self.free@.len() - 1);
                                assert(oldfree[k] == j as usize);
                            }
                        }
                    }
                    assert(self@ =~= pre@.drop_last()) by {
                        assert forall|k: int| 0 <= k < self@.len() implies self@[k]
                            == pre@.drop_last()[k] by {
                            assert(pre.wf_node(k));
                            assert(ids[k] != t);
                            assert(self.values@[ids2[k] as int] == pre.values@[ids[k] as int]);
                        }
                    }
                    assert(v == pre.values@[t as int]);
                    assert(pre@[n - 1] == pre.values@[ids[n - 1] as int]->Some_0);
                    assert(v == Some(pre@.last()));
                    assert forall|q: Pointer|
                        self.valid(q) <==> (pre.valid(q) && pre.pos(q) != n - 1) by {
                        if self.valid(q) {
                            self.lemma_pos_idx(q);
                            let k2 = self.pos(q);
                            assert(ids[k2] == q.idx);
                            assert(ids.contains(q.idx));
                            pre.lemma_pos_idx(q);
                            assert(ids[pre.pos(q)] == q.idx);
                            assert(pre.pos(q) == k2);
                        }
                        if pre.valid(q) && pre.pos(q) != n - 1 {
                            pre.lemma_pos_idx(q);
                            let k = pre.pos(q);
                            assert(ids2[k] == q.idx);
                            assert(ids2.contains(q.idx));
                        }
                    }
                    assert forall|q: Pointer| self.valid(q) implies self.pos(q) == pre.pos(q) by {
                        self.lemma_pos_idx(q);
                        pre.lemma_pos_idx(q);
                        assert(ids2[self.pos(q)] == q.idx);
                        assert(ids[pre.pos(q)] == q.idx);
                        assert(ids[self.pos(q)] == q.idx);
                    }
                }
                v
            },
        }
    }


    /// Removes and returns the head value; `None` on an empty list.  A
    /// pointer stays valid exactly when it did not name the head, and
    /// moves one position toward the head.
    pub fn pop_head(&mut self) -> (r: Option<T>)
        requires
            old(self).wf(),
        ensures
            final(self).wf(),
            old(self)@.len() == 0 ==> r is None && *final(self) == *old(self),
            old(self)@.len() > 0 ==> r == Some(old(self)@[0]) && final(self)@ == old(
                self,
            )@.drop_first(),
            forall|q: Pointer|
                final(self).valid(q) <==> (old(self).valid(q) && old(self).pos(q) != 0),
            forall|q: Pointer|
                final(self).valid(q) ==> final(self).pos(q) == old(self).pos(q) - 1,
    {
        let ghost pre = *old(self);
        match self.head {
            None => {
                None
            },
            Some(h) => {
                let ghost ids = pre.order@;
                let ghost n = ids.len() as int;
                proof {
                    assert(n > 0);
                    assert(pre.wf_node(0));
                    assert(h == ids[0]);
                    if n > 1 {
                        assert(pre.wf_node(1));
                    }
                }
                let v = self.values[h].take();
                let nx = self.next[h];
                match nx {
                    Some(b) => {
                        self.prev[b] = None;
                        self.head = Some(b);
                    },
                    None => {
                        self.head = None;
                        self.tail = None;
                    },
                }
                self.count = self.count - 1;
                self.free.push(h);
                proof {
                    self.order@ = ids.drop_first();
                    let ids2 = self.order@;
                    assert forall|k: int| 0 <= k < n - 1 implies ids2[k] == ids[k + 1] by {}
                    assert forall|k: int| 0 <= k < ids2.len() implies #[trigger] self.wf_node(
                        k,
                    ) by {
                        assert(pre.wf_node(k + 1));
                        let s = ids[k + 1];
                        assert(s != h);
                        assert(self.values@[s as int] == pre.values@[s as int]);
                        assert(self.next@[s as int] == pre.next@[s as int]);
                        if k == 0 {
                            assert(self.prev@[s as int] == None::<usize>);
                        } else {
                            assert(ids[k] != ids[0]);
                            assert(self.prev@[s as int] == pre.prev@[s as int]);
                        }
                    }
                    assert forall|j: int|
                        0 <= j < self.cap() && (#[trigger] self.values@[j]) is Some implies
                        ids2.contains(j as usize) by {
                        assert(j != h as int);
                        assert(self.values@[j] == pre.values@[j]);
                        assert(ids.contains(j as usize));
                        let k = choose|k: int| 0 <= k < ids.len() && ids[k] == j as usize;
                        assert(k != 0);
                        assert(ids2[k - 1] == j as usize);
                    }
                    if n > 1 {
                        assert(self.head == Some(ids2[0]));
                        assert(self.tail == Some(ids2[ids2.len() - 1]));
                    }
                    let oldfree = pre.free@;
                    assert(!oldfree.contains(h)) by {
                        if oldfree.contains(h) {
                            assert(pre.values@[h as int] is None);
                        }
                    }
                    assert forall|j1: int, j2: int|
                        0 <= j1 < self.free@.len() && 0 <= j2 < self.free@.len() && j1 != j2
                        implies #[trigger] self.free@[j1] != #[trigger] self.free@[j2] by {
                        if j1 == self.free@.len() - 1 {
                            assert(self.free@[j2] == oldfree[j2]);
                            assert(oldfree.contains(oldfree[j2]));
                        } else if j2 == self.free@.len() - 1 {
                            assert(self.free@[j1] == oldfree[j1]);
                            assert(oldfree.contains(oldfree[j1]));
                        }
                    }
                    assert forall|j: int|
                        0 <= j < self.cap() implies ((#[trigger] self.values@[j]) is None
                        <==> self.free@.contains(j as usize)) by {
                        if j == h as int {
                            assert(self.free@[self.free@.len() - 1] == h);
                            assert(self.free@.contains(h));
                        } else {
                            assert(self.values@[j] == pre.values@[j]);
                            if oldfree.contains(j as usize) {
                                let k = choose|k: int|
                                    0 <= k < oldfree.len() && oldfree[k] == j as usize;
                                assert(self.free@[k] == j as usize);
                            }
                            if self.free@.contains(j as usize) {
                                let k = choose|k: int|
                                    0 <= k < self.free@.len() && self.free@[k] == j as usize;
                                assert(k != self.free@.len() - 1);
                                assert(oldfree[k] == j as usize);
                            }
                        }
                    }
                    assert(self@ =~= pre@.drop_first()) by {
                        assert forall|k: int| 0 <= k < self@.len() implies self@[k]
                            == pre@.drop_first()[k] by {
                            assert(pre.wf_node(k + 1));
                            assert(ids[k + 1] != h);
                            assert(self.values@[ids2[k] as int] == pre.values@[ids[k + 1] as int]);
                        }
                    }
                    assert(v == pre.values@[h as int]);
                    assert(pre@[0] == pre.values@[ids[0] as int]->Some_0);
                    assert(v == Some(pre@[0]));
                    assert forall|q: Pointer|
                        self.valid(q) <==> (pre.valid(q) && pre.pos(q) != 0) by {
                        if self.valid(q) {
                            self.lemma_pos_idx(q);
                            let k2 = self.pos(q);
                            assert(ids[k2 + 1] == q.idx);
                            assert(ids.contains(q.idx));
                            pre.lemma_pos_idx(q);
                            assert(ids[pre.pos(q)] == q.idx);
                            assert(pre.pos(q) == k2 + 1);
                        }
                        if pre.valid(q) && pre.pos(q) != 0 {
                            pre.lemma_pos_idx(q);
                            let k = pre.pos(q);
                            assert(ids2[k - 1] == q.idx);
                            assert(ids2.contains(q.idx));
                        }
                    }
                    assert forall|q: Pointer| self.valid(q) implies self.pos(q) == pre.pos(q)
                        - 1 by {
                        self.lemma_pos_idx(q);
                        pre.lemma_pos_idx(q);
                        assert(ids2[self.pos(q)] == q.idx);
                        assert(ids[pre.pos(q)] == q.idx);
                        assert(ids[self.pos(q) + 1] == q.idx);
                    }
                }
                v
            },
        }
    }

    /// Unlinks the node of `p` and discards its value; `p` becomes
    /// invalid, every other pointer stays valid.
    pub fn remove(&mut self, p: Pointer)
        requires
            old(self).wf(),
            old(self).valid(p),
        ensures
            final(self).wf(),
            final(self)@ == old(self)@.remove(old(self).pos(p)),
            forall|q: Pointer| final(self).valid(q) <==> (old(self).valid(q) && q != p),
            forall|q: Pointer|
                final(self).valid(q) ==> final(self).pos(q) == (if old(self).pos(q) < old(
                    self,
                ).pos(p) {
                    old(self).pos(q)
                } else {
                    old(self).pos(q) - 1
                }),
    {
        let ghost pre = *old(self);
        let ghost ids = pre.order@;
        let ghost n = ids.len() as int;
        let ghost kp = pre.pos(p);
        let i = p.idx;
        proof {
            pre.lemma_pos_idx(p);
            assert(pre.wf_node(kp));
            if kp > 0 {
                assert(pre.wf_node(kp - 1));
            }
            if kp < n - 1 {
                assert(pre.wf_node(kp + 1));
            }
        }
        let _ = self.values[i].take();
        let pr = self.prev[i];
        let nx = self.next[i];
        match pr {
            Some(a) => {
                self.next[a] = nx;
            },
            None => {
                self.head = nx;
            },
        }
        match nx {
            Some(b) => {
                self.prev[b] = pr;
            },
            None => {
                self.tail = pr;
            },
        }
        self.count = self.count - 1;
        self.free.push(i);
        proof {
            self.order@ = ids.remove(kp);
            let ids2 = self.order@;
            assert forall|m: int| 0 <= m < ids2.len() implies ids2[m] == (if m < kp {
                ids[m]
            } else {
                ids[m + 1]
            }) by {}
            assert forall|m1: int, m2: int|
                0 <= m1 < ids2.len() && 0 <= m2 < ids2.len() && m1 != m2 implies #[trigger] ids2[m1]
                != #[trigger] ids2[m2] by {
                let o1 = if m1 < kp {
                    m1
                } else {
                    m1 + 1
                };
                let o2 = if m2 < kp {
                    m2
                } else {
                    m2 + 1
                };
                assert(ids2[m1] == ids[o1] && ids2[m2] == ids[o2]);
            }
            assert forall|m: int| 0 <= m < ids2.len() implies #[trigger] self.wf_node(m) by {
                let mo = if m < kp {
                    m
                } else {
                    m + 1
                };
                assert(pre.wf_node(mo));
                let s = ids[mo];
                assert(s != i);
                assert(self.values@[s as int] == pre.values@[s as int]);
                if kp < n - 1 && s == ids[kp + 1] {
                    assert(mo == kp + 1);
                    assert(m == kp);
                    assert(self.prev@[s as int] == pre.prev@[i as int]);
                } else {
                    assert(mo != kp + 1);
                    assert(self.prev@[s as int] == pre.prev@[s as int]);
                }
                if kp > 0 && s == ids[kp - 1] {
                    assert(mo == kp - 1);
                    assert(m == kp - 1);
                    assert(self.next@[s as int] == pre.next@[i as int]);
                } else {
                    assert(mo != kp - 1);
                    assert(self.next@[s as int] == pre.next@[s as int]);
                }
            }
            assert forall|j: int|
                0 <= j < self.cap() && (#[trigger] self.values@[j]) is Some implies ids2.contains(
                j as usize,
            ) by {
                assert(j != i as int);
                assert(self.values@[j] == pre.values@[j]);
                assert(ids.contains(j as usize));
                let k = choose|k: int| 0 <= k < ids.len() && ids[k] == j as usize;
                assert(k != kp);
                if k < kp {
                    assert(ids2[k] == j as usize);
                } else {
                    assert(ids2[k - 1] == j as usize);
                }
            }
            assert(self.head == (if ids2.len() == 0 {
                None::<usize>
            } else {
                Some(ids2[0])
            })) by {
                if kp == 0 {
                    if n > 1 {
                        assert(ids2[0] == ids[1]);
                    }
                } else {
                    assert(ids2[0] == ids[0]);
                }
            }
            assert(self.tail == (if ids2.len() == 0 {
                None::<usize>
            } else {
                Some(ids2[ids2.len() - 1])
            })) by {
                if kp == n - 1 {
                    if n > 1 {
                        assert(ids2[n - 2] == ids[n - 2]);
                    }
                } else {
                    assert(ids2[n - 2] == ids[n - 1]);
                }
            }
            let oldfree = pre.free@;
            assert(!oldfree.contains(i)) by {
                if oldfree.contains(i) {
                    assert(pre.values@[i as int] is None);
                }
            }
            assert forall|j1: int, j2: int|
                0 <= j1 < self.free@.len() && 0 <= j2 < self.free@.len() && j1 != j2 implies #[trigger] self.free@[j1]
                != #[trigger] self.free@[j2] by {
                if j1 == self.free@.len() - 1 {
                    assert(self.free@[j2] == oldfree[j2]);
                    assert(oldfree.contains(oldfree[j2]));
                } else if j2 == self.free@.len() - 1 {
                    assert(self.free@[j1] == oldfree[j1]);
                    assert(oldfree.contains(oldfree[j1]));
                }
            }
            assert forall|j: int|
                0 <= j < self.cap() implies ((#[trigger] self.values@[j]) is None
                <==> self.free@.contains(j as usize)) by {
                if j == i as int {
                    assert(self.free@[self.free@.len() - 1] == i);
                    assert(self.free@.contains(i));
                } else {
                    assert(self.values@[j] == pre.values@[j]);
                    if oldfree.contains(j as usize) {
                        let k = choose|k: int| 0 <= k < oldfree.len() && oldfree[k] == j as usize;
                        assert(self.free@[k] == j as usize);
                    }
                    if self.free@.contains(j as usize) {
                        let k = choose|k: int|
                            0 <= k < self.free@.len() && self.free@[k] == j as usize;
                        assert(k != self.free@.len() - 1);
                        assert(oldfree[k] == j as usize);
                    }
                }
            }
            assert(self@ =~= pre@.remove(kp)) by {
                assert forall|m: int| 0 <= m < self@.len() implies self@[m] == pre@.remove(
                    kp,
                )[m] by {
                    let mo = if m < kp {
                        m
                    } else {
                        m + 1
                    };
                    assert(pre.wf_node(mo));
                    assert(ids[mo] != i);
                    assert(self.values@[ids2[m] as int] == pre.values@[ids[mo] as int]);
                }
            }
            assert forall|q: Pointer| self.valid(q) <==> (pre.valid(q) && q != p) by {
                if self.valid(q) {
                    self.lemma_pos_idx(q);
                    let m = self.pos(q);
                    let mo = if m < kp {
                        m
                    } else {
                        m + 1
                    };
                    assert(ids[mo] == q.idx);
                    assert(ids.contains(q.idx));
                    assert(q.idx != i);
                }
                if pre.valid(q) && q != p {
                    pre.lemma_pos_idx(q);
                    let k = pre.pos(q);
                    assert(ids[k] == q.idx);
                    assert(k != kp) by {
                        if k == kp {
                            assert(q.idx == i);
                        }
                    }
                    if k < kp {
                        assert(ids2[k] == q.idx);
                    } else {
                        assert(ids2[k - 1] == q.idx);
                    }
                    assert(ids2.contains(q.idx));
                }
            }
            assert forall|q: Pointer| self.valid(q) implies self.pos(q) == (if pre.pos(q) < kp {
                pre.pos(q)
            } else {
                pre.pos(q) - 1
            }) by {
                self.lemma_pos_idx(q);
                pre.lemma_pos_idx(q);
                let m = self.pos(q);
                let k = pre.pos(q);
                let mo = if m < kp {
                    m
                } else {
                    m + 1
                };
                assert(ids2[m] == q.idx);
                assert(ids[mo] == q.idx);
                assert(ids[k] == q.idx);
                assert(k == mo);
            }
        }
    }


    /// Moves the node of `p` to the head.  Every pointer stays valid;
    /// nodes that sat before `p` move one position toward the tail.
    #[verifier::rlimit(100)]
    #[verifier::spinoff_prover]
    pub fn top(&mut self, p: Pointer)
        requires
            old(self).wf(),
            old(self).valid(p),
        ensures
            final(self).wf(),
            final(self)@ == seq![old(self)@[old(self).pos(p)]] + old(self)@.remove(
                old(self).pos(p),
            ),
            forall|q: Pointer| final(self).valid(q) <==> old(self).valid(q),
            final(self).valid(p) && final(self).pos(p) == 0,
            forall|q: Pointer|
                old(self).valid(q) && old(self).pos(q) < old(self).pos(p) ==> final(self).pos(q)
                    == old(self).pos(q) + 1,
            forall|q: Pointer|
                old(self).valid(q) && old(self).pos(q) > old(self).pos(p) ==> final(self).pos(q)
                    == old(self).pos(q),
    {
        let ghost pre = *old(self);
        let ghost ids = pre.order@;
        let ghost n = ids.len() as int;
        let ghost kp = pre.pos(p);
        let i = p.idx;
        proof {
            pre.lemma_pos_idx(p);
            assert(pre.wf_node(kp));
            if kp > 0 {
                assert(pre.wf_node(kp - 1));
                assert(pre.wf_node(0));
            }
            if kp < n - 1 {
                assert(pre.wf_node(kp + 1));
            }
        }
        let pr = self.prev[i];
        match pr {
            None => {
                proof {
                    assert(kp == 0);
                    assert(self@ =~= seq![pre@[kp]] + pre@.remove(kp));
                    assert forall|q: Pointer|
                        pre.valid(q) && pre.pos(q) > 0 implies self.pos(q) == pre.pos(q) by {}
                }
            },
            Some(a) => {
                proof {
                    assert(kp > 0);
                    assert(a == ids[kp - 1]);
                    assert(a != i);
                }
                let nx = self.next[i];
                self.next[a] = nx;
                match nx {
                    Some(b) => {
                        self.prev[b] = Some(a);
                    },
                    None => {
                        self.tail = Some(a);
                    },
                }
                let h0 = self.head.unwrap();
                self.prev[h0] = Some(i);
                self.prev[i] = None;
                self.next[i] = Some(h0);
                self.head = Some(i);
                proof {
                    assert(h0 == ids[0]);
                    assert(h0 != i);
                    self.order@ = seq![i] + ids.remove(kp);
                    let ids2 = self.order@;
                    assert(ids2.len() == n);
                    assert(ids2[0] == i);
                    assert forall|m: int| 1 <= m < n implies ids2[m] == (if m - 1 < kp {
                        ids[m - 1]
                    } else {
                        ids[m]
                    }) by {}
                    assert forall|m1: int, m2: int|
                        0 <= m1 < ids2.len() && 0 <= m2 < ids2.len() && m1 != m2 implies #[trigger] ids2[m1]
                        != #[trigger] ids2[m2] by {
                        let o1 = if m1 == 0 {
                            kp
                        } else if m1 - 1 < kp {
                            m1 - 1
                        } else {
                            m1
                        };
                        let o2 = if m2 == 0 {
                            kp
                        } else if m2 - 1 < kp {
                            m2 - 1
                        } else {
                            m2
                        };
                        assert(ids2[m1] == ids[o1] && ids2[m2] == ids[o2]);
                    }
                    assert forall|m: int| 0 <= m < ids2.len() implies #[trigger] self.wf_node(
                        m,
                    ) by {
                        if m == 0 {
                            assert(self.values@[i as int] == pre.values@[i as int]);
                            assert(self.prev@[i as int] is None);
                            assert(self.next@[i as int] == Some(h0));
                            assert(ids2[1] == ids[0]);
                        } else {
                            let mo = if m - 1 < kp {
                                m - 1
                            } else {
                                m
                            };
                            assert(pre.wf_node(mo));
                            let s = ids[mo];
                            assert(s != i);
                            assert(self.values@[s as int] == pre.values@[s as int]);
                            if mo == 0 {
                                assert(m == 1);
                                assert(self.prev@[s as int] == Some(i));
                            } else if kp < n - 1 && s == ids[kp + 1] {
                                assert(mo == kp + 1);
                                assert(m == kp + 1);
                                assert(self.prev@[s as int] == Some(a));
                                assert(ids2[m - 1] == ids[kp - 1]);
                            } else {
                                assert(mo != kp + 1 && mo != 0);
                                assert(s != h0);
                                assert(self.prev@[s as int] == pre.prev@[s as int]);
                                assert(pre.prev@[s as int] == Some(ids[mo - 1]));
                                if m - 1 < kp {
                                    assert(mo == m - 1);
                                    if m == 1 {
                                        assert(mo == 0);
                                    }
                                    assert(mo - 1 < kp);
                                    assert(ids2[m - 1] == ids[mo - 1]);
                                } else {
                                    assert(mo == m);
                                    assert(ids2[m - 1] == ids[mo - 1]);
                                }
                            }
                            if mo == kp - 1 {
                                assert(m == kp);
                                assert(self.next@[s as int] == pre.next@[i as int]);
                                if kp == n - 1 {
                                    assert(m == ids2.len() - 1);
                                } else {
                                    assert(ids2[m + 1] == ids[kp + 1]);
                                }
                            } else {
                                assert(s != a);
                                assert(self.next@[s as int] == pre.next@[s as int]);
                                if mo == n - 1 {
                                    assert(m == n - 1);
                                } else {
                                    assert(pre.next@[s as int] == Some(ids[mo + 1]));
                                    if m - 1 < kp {
                                        assert(mo == m - 1);
                                        assert(mo + 1 <= kp);
                                        if mo + 1 < kp {
                                            assert(ids2[m + 1] == ids[mo + 1]);
                                        } else {
                                            assert(mo + 1 == kp);
                                            assert(m == kp);
                                            assert(false) by {
                                                assert(mo == kp - 1);
                                            }
                                        }
                                    } else {
                                        assert(mo == m);
                                        assert(ids2[m + 1] == ids[mo + 1]);
                                    }
                                }
                            }
                        }
                    }
                    assert forall|j: int|
                        0 <= j < self.cap() && (#[trigger] self.values@[j]) is Some implies
                        ids2.contains(j as usize) by {
                        assert(self.values@[j] == pre.values@[j]);
                        assert(ids.contains(j as usize));
                        let k = choose|k: int| 0 <= k < ids.len() && ids[k] == j as usize;
                        if k == kp {
                            assert(ids2[0] == j as usize);
                        } else if k < kp {
                            assert(ids2[k + 1] == j as usize);
                        } else {
                            assert(ids2[k] == j as usize);
                        }
                    }
                    assert(self.tail == Some(ids2[ids2.len() - 1])) by {
                        if kp == n - 1 {
                            assert(ids2[n - 1] == ids[n - 2]);
                        } else {
                            assert(ids2[n - 1] == ids[n - 1]);
                        }
                    }
                    assert(self@ =~= seq![pre@[kp]] + pre@.remove(kp)) by {
                        assert forall|m: int| 0 <= m < self@.len() implies self@[m] == (seq![
                            pre@[kp],
                        ] + pre@.remove(kp))[m] by {
                            if m == 0 {
                                assert(self.values@[i as int] == pre.values@[ids[kp] as int]);
                            } else {
                                let mo = if m - 1 < kp {
                                    m - 1
                                } else {
                                    m
                                };
                                assert(pre.wf_node(mo));
                                assert(ids[mo] != i);
                                assert(self.values@[ids2[m] as int] == pre.values@[ids[mo] as int]);
                            }
                        }
                    }
                    assert forall|q: Pointer| self.valid(q) <==> pre.valid(q) by {
                        if self.valid(q) {
                            self.lemma_pos_idx(q);
                            let m = self.pos(q);
                            let mo = if m == 0 {
                                kp
                            } else if m - 1 < kp {
                                m - 1
                            } else {
                                m
                            };
                            assert(ids[mo] == q.idx);
                            assert(ids.contains(q.idx));
                        }
                        if pre.valid(q) {
                            pre.lemma_pos_idx(q);
                            let k = pre.pos(q);
                            if k == kp {
                                assert(ids2[0] == q.idx);
                            } else if k < kp {
                                assert(ids2[k + 1] == q.idx);
                            } else {
                                assert(ids2[k] == q.idx);
                            }
                            assert(ids2.contains(q.idx));
                        }
                    }
                    assert(self.valid(p) && self.pos(p) == 0) by {
                        assert(ids2[0] == i);
                        assert(ids2.contains(i));
                        self.lemma_pos_idx(p);
                        let m = self.pos(p);
                        if m != 0 {
                            let mo = if m - 1 < kp {
                                m - 1
                            } else {
                                m
                            };
                            assert(ids[mo] == i);
                            assert(ids[kp] == i);
                            assert(mo == kp);
                        }
                    }
                    assert forall|q: Pointer|
                        pre.valid(q) && pre.pos(q) < kp implies self.pos(q) == pre.pos(q) + 1 by {
                        pre.lemma_pos_idx(q);
                        self.lemma_pos_idx(q);
                        let k = pre.pos(q);
                        let m = self.pos(q);
                        assert(ids2[k + 1] == q.idx);
                        assert(ids2[m] == q.idx);
                        assert(m == k + 1);
                    }
                    assert forall|q: Pointer|
                        pre.valid(q) && pre.pos(q) > kp implies self.pos(q) == pre.pos(q) by {
                        pre.lemma_pos_idx(q);
                        self.lemma_pos_idx(q);
                        let k = pre.pos(q);
                        let m = self.pos(q);
                        assert(ids2[k] == q.idx);
                        assert(ids2[m] == q.idx);
                        assert(m == k);
                    }
                }
            },
        }
    }


    /// Moves the node of `p` to the tail.  Every pointer stays valid;
    /// nodes that sat after `p` move one position toward the head.
    #[verifier::rlimit(100)]
    #[verifier::spinoff_prover]
    pub fn bottom(&mut self, p: Pointer)
        requires
            old(self).wf(),
            old(self).valid(p),
        ensures
            final(self).wf(),
            final(self)@ == old(self)@.remove(old(self).pos(p)).push(
                old(self)@[old(self).pos(p)],
            ),
            forall|q: Pointer| final(self).valid(q) <==> old(self).valid(q),
            final(self).valid(p) && final(self).pos(p) == old(self)@.len() - 1,
            forall|q: Pointer|
                old(self).valid(q) && old(self).pos(q) < old(self).pos(p) ==> final(self).pos(q)
                    == old(self).pos(q),
            forall|q: Pointer|
                old(self).valid(q) && old(self).pos(q) > old(self).pos(p) ==> final(self).pos(q)
                    == old(self).pos(q) - 1,
    {
        let ghost pre = *old(self);
        let ghost ids = pre.order@;
        let ghost n = ids.len() as int;
        let ghost kp = pre.pos(p);
        let i = p.idx;
        proof {
            pre.lemma_pos_idx(p);
            assert(pre.wf_node(kp));
            if kp > 0 {
                assert(pre.wf_node(kp - 1));
            }
            if kp < n - 1 {
                assert(pre.wf_node(kp + 1));
                assert(pre.wf_node(n - 1));
            }
        }
        let nx = self.next[i];
        match nx {
            None => {
                proof {
                    assert(kp == n - 1);
                    assert(self@ =~= pre@.remove(kp).push(pre@[kp]));
                    assert forall|q: Pointer|
                        pre.valid(q) && pre.pos(q) < kp implies self.pos(q) == pre.pos(q) by {}
                }
            },
            Some(b) => {
                proof {
                    assert(kp < n - 1);
                    assert(b == ids[kp + 1]);
                    assert(b != i);
                }
                let pr = self.prev[i];
                self.prev[b] = pr;
                match pr {
                    Some(a) => {
                        self.next[a] = Some(b);
                    },
                    None => {
                        self.head = Some(b);
                    },
                }
                let t0 = self.tail.unwrap();
                self.next[t0] = Some(i);
                self.prev[i] = Some(t0);
                self.next[i] = None;
                self.tail = Some(i);
                proof {
                    assert(t0 == ids[n - 1]);
                    assert(t0 != i);
                    self.order@ = ids.remove(kp).push(i);
                    let ids2 = self.order@;
                    assert(ids2.len() == n);
                    assert(ids2[n - 1] == i);
                    assert forall|m: int| 0 <= m < n - 1 implies ids2[m] == (if m < kp {
                        ids[m]
                    } else {
                        ids[m + 1]
                    }) by {}
                    assert forall|m1: int, m2: int|
                        0 <= m1 < ids2.len() && 0 <= m2 < ids2.len() && m1 != m2 implies #[trigger] ids2[m1]
                        != #[trigger] ids2[m2] by {
                        let o1 = if m1 == n - 1 {
                            kp
                        } else if m1 < kp {
                            m1
                        } else {
                            m1 + 1
                        };
                        let o2 = if m2 == n - 1 {
                            kp
                        } else if m2 < kp {
                            m2
                        } else {
                            m2 + 1
                        };
                        assert(ids2[m1] == ids[o1] && ids2[m2] == ids[o2]);
                    }
                    assert forall|m: int| 0 <= m < ids2.len() implies #[trigger] self.wf_node(
                        m,
                    ) by {
                        if m == n - 1 {
                            assert(self.values@[i as int] == pre.values@[i as int]);
                            assert(self.next@[i as int] is None);
                            assert(self.prev@[i as int] == Some(t0));
                            assert(ids2[n - 2] == ids[n - 1]);
                        } else {
                            let mo = if m < kp {
                                m
                            } else {
                                m + 1
                            };
                            assert(pre.wf_node(mo));
                            let s = ids[mo];
                            assert(s != i);
                            assert(self.values@[s as int] == pre.values@[s as int]);
                            if s == b {
                                assert(mo == kp + 1);
                                assert(m == kp);
                                assert(self.prev@[s as int] == pre.prev@[i as int]);
                                if kp > 0 {
                                    assert(ids2[kp - 1] == ids[kp - 1]);
                                }
                            } else {
                                assert(mo != kp + 1);
                                assert(self.prev@[s as int] == pre.prev@[s as int]);
                                if m == 0 {
                                    assert(mo == 0);
                                } else {
                                    assert(pre.prev@[s as int] == Some(ids[mo - 1]));
                                    if m < kp {
                                        assert(ids2[m - 1] == ids[m - 1]);
                                    } else {
                                        assert(m > kp);
                                        assert(mo == m + 1);
                                        assert(ids2[m - 1] == ids[m]);
                                    }
                                }
                            }
                            if kp > 0 && s == ids[kp - 1] {
                                assert(mo == kp - 1);
                                assert(m == kp - 1);
                                assert(self.next@[s as int] == Some(b));
                                assert(m + 1 < n - 1 ==> ids2[m + 1] == ids[kp + 1]);
                                if m + 1 == n - 1 {
                                    assert(ids2[m + 1] == i);
                                    assert(kp + 1 == n - 1);
                                    assert(ids[kp + 1] == ids2[n - 2]);
                                    assert(false) by {
                                        assert(ids2[n - 2] == ids[n - 1]);
                                        assert(kp == n - 2);
                                        assert(ids2[n - 2] == ids2[m + 1]);
                                    }
                                }
                            } else if s == t0 {
                                assert(mo == n - 1);
                                assert(m == n - 2);
                                assert(self.next@[s as int] == Some(i));
                                assert(ids2[n - 1] == i);
                            } else {
                                assert(mo != kp - 1 && mo != n - 1);
                                assert(self.next@[s as int] == pre.next@[s as int]);
                                assert(pre.next@[s as int] == Some(ids[mo + 1]));
                                if m < kp {
                                    assert(mo + 1 <= kp);
                                    if mo + 1 == kp {
                                        assert(false) by {
                                            assert(mo == kp - 1);
                                        }
                                    }
                                    assert(m + 1 < n - 1);
                                    assert(ids2[m + 1] == ids[m + 1]);
                                } else {
                                    assert(mo == m + 1);
                                    assert(m + 1 < n - 1) by {
                                        if m + 1 == n - 1 {
                                            assert(mo == n - 1);
                                        }
                                    }
                                    assert(ids2[m + 1] == ids[m + 2]);
                                }
                            }
                        }
                    }
                    assert forall|j: int|
                        0 <= j < self.cap() && (#[trigger] self.values@[j]) is Some implies
                        ids2.contains(j as usize) by {
                        assert(self.values@[j] == pre.values@[j]);
                        assert(ids.contains(j as usize));
                        let k = choose|k: int| 0 <= k < ids.len() && ids[k] == j as usize;
                        if k == kp {
                            assert(ids2[n - 1] == j as usize);
                        } else if k < kp {
                            assert(ids2[k] == j as usize);
                        } else {
                            assert(ids2[k - 1] == j as usize);
                        }
                    }
                    assert(self.head == Some(ids2[0])) by {
                        if kp == 0 {
                            assert(ids2[0] == ids[1]);
                        } else {
                            assert(ids2[0] == ids[0]);
                        }
                    }
                    assert(self@ =~= pre@.remove(kp).push(pre@[kp])) by {
                        assert forall|m: int| 0 <= m < self@.len() implies self@[m]
                            == pre@.remove(kp).push(pre@[kp])[m] by {
                            if m == n - 1 {
                                assert(self.values@[i as int] == pre.values@[ids[kp] as int]);
                            } else {
                                let mo = if m < kp {
                                    m
                                } else {
                                    m + 1
                                };
                                assert(pre.wf_node(mo));
                                assert(ids[mo] != i);
                                assert(self.values@[ids2[m] as int] == pre.values@[ids[mo] as int]);
                            }
                        }
                    }
                    assert forall|q: Pointer| self.valid(q) <==> pre.valid(q) by {
                        if self.valid(q) {
                            self.lemma_pos_idx(q);
                            let m = self.pos(q);
                            let mo = if m == n - 1 {
                                kp
                            } else if m < kp {
                                m
                            } else {
                                m + 1
                            };
                            assert(ids[mo] == q.idx);
                            assert(ids.contains(q.idx));
                        }
                        if pre.valid(q) {
                            pre.lemma_pos_idx(q);
                            let k = pre.pos(q);
                            if k == kp {
                                assert(ids2[n - 1] == q.idx);
                            } else if k < kp {
                                assert(ids2[k] == q.idx);
                            } else {
                                assert(ids2[k - 1] == q.idx);
                            }
                            assert(ids2.contains(q.idx));
                        }
                    }
                    assert(self.valid(p) && self.pos(p) == n - 1) by {
                        assert(ids2[n - 1] == i);
                        assert(ids2.contains(i));
                        self.lemma_pos_idx(p);
                        let m = self.pos(p);
                        if m != n - 1 {
                            let mo = if m < kp {
                                m
                            } else {
                                m + 1
                            };
                            assert(ids[mo] == i);
                            assert(ids[kp] == i);
                            assert(mo == kp);
                        }
                    }
                    assert forall|q: Pointer|
                        pre.valid(q) && pre.pos(q) < kp implies self.pos(q) == pre.pos(q) by {
                        pre.lemma_pos_idx(q);
                        self.lemma_pos_idx(q);
                        let k = pre.pos(q);
                        let m = self.pos(q);
                        assert(ids2[k] == q.idx);
                        assert(ids2[m] == q.idx);
                        assert(m == k);
                    }
                    assert forall|q: Pointer|
                        pre.valid(q) && pre.pos(q) > kp implies self.pos(q) == pre.pos(q) - 1 by {
                        pre.lemma_pos_idx(q);
                        self.lemma_pos_idx(q);
                        let k = pre.pos(q);
                        let m = self.pos(q);
                        assert(ids2[k - 1] == q.idx);
                        assert(ids2[m] == q.idx);
                        assert(m == k - 1);
                    }
                }
            },
        }
    }

}

} // verus!