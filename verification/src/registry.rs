//! The servant registry: the live map, the report map, the watch
//! servant, the evictor list and the passivation store, behind one
//! interface.
//!
//! Its well-formedness ties the parts together: every live serializable
//! servant owns exactly one evictor node carrying its id, an id is never
//! live and passivated at once, and the ids of the live serializable
//! servants together with the passivated ids are exactly the
//! serializable ids ever registered.

use vstd::prelude::*;

use crate::evictor;
use crate::evictor::Pointer;
use crate::freeze::Freeze;
use crate::freeze::MemoryDb;
use crate::freeze::Storage;
use crate::oid::Oid;
use crate::oid::OidView;
use crate::oid::ServantError;
use crate::oid::ServantErrorView;
use crate::servant::Rehydrator;
use crate::servant::ReportServant;
use crate::servant::Servant;
use crate::servant::WatchServant;
use crate::table::lemma_oid_map_contains;
use crate::table::lemma_oid_map_index;
use crate::table::lemma_oid_map_push;
use crate::table::lemma_oid_map_remove;
use crate::table::oid_find;
use crate::table::oid_keys_distinct;
use crate::table::oid_map;

verus! {

/// One live servant and, when it is serializable, the handle of its
/// evictor node.
pub struct ServantRecord<S> {
    pub servant: S,
    pub node: Option<Pointer>,
}

/// The process-wide register of servants.  `P` serves reports, `W` is
/// the watch servant, and `R` rebuilds passivated servants.
pub struct ServantRegister<P, W, R: Rehydrator> {
    servants: Vec<(Oid, ServantRecord<<R as Rehydrator>::Output>)>,
    report_servants: Vec<(Oid, P)>,
    watch: Option<W>,
    evictor: evictor::List<Oid>,
    freeze: Freeze<MemoryDb, R>,
    evict_on_add: bool,
    history: Ghost<Set<OidView>>,
}

impl<P: ReportServant, W: WatchServant, R: Rehydrator> ServantRegister<P, W, R> {
    /// The live servants, by id.
    pub closed spec fn live(&self) -> Map<OidView, ServantRecord<<R as Rehydrator>::Output>> {
        oid_map(self.servants@)
    }

    /// The report servants, by id.
    pub closed spec fn reports(&self) -> Map<OidView, P> {
        oid_map(self.report_servants@)
    }

    /// The installed watch servant, if any.
    pub closed spec fn spec_watch(&self) -> Option<W> {
        self.watch
    }

    /// The ids on the evictor list, most recently used first.
    pub closed spec fn lru(&self) -> Seq<OidView> {
        self.evictor@.map_values(|o: Oid| o@)
    }

    /// The passivated ids with their dumped bytes.
    pub closed spec fn frozen(&self) -> Map<OidView, Seq<u8>> {
        self.freeze.frozen()
    }

    /// The categories with an enrolled rehydrator.
    pub closed spec fn enrolled(&self) -> Set<Seq<char>> {
        self.freeze.categories()
    }

    /// The capacity of the evictor list.
    pub closed spec fn max(&self) -> int {
        self.evictor.max()
    }

    /// Whether registration itself runs the eviction step; chosen at
    /// construction.
    pub closed spec fn evicts_on_add(&self) -> bool {
        self.evict_on_add
    }

    /// The ids of every serializable servant ever registered.
    pub closed spec fn hist(&self) -> Set<OidView> {
        self.history@
    }

    /// The ids on the evictor list, as a set.
    pub open spec fn lru_set(&self) -> Set<OidView> {
        Set::new(|k: OidView| self.lru().contains(k))
    }

    pub closed spec fn wf(&self) -> bool {
        &&& oid_keys_distinct(self.servants@)
        &&& oid_keys_distinct(self.report_servants@)
        &&& self.evictor.wf()
        &&& self.freeze.wf()
        &&& forall|i: int|
            0 <= i < self.servants@.len() ==> {
                let e = #[trigger] self.servants@[i];
                match e.1.node {
                    Some(ptr) => e.1.servant.serializable() && self.evictor.valid(ptr)
                        && self.evictor@[self.evictor.pos(ptr)]@ == e.0@,
                    None => !e.1.servant.serializable(),
                }
            }
        &&& forall|k1: int, k2: int|
            0 <= k1 < self.evictor@.len() && 0 <= k2 < self.evictor@.len() && k1 != k2 ==> (
            #[trigger] self.evictor@[k1]@) != (#[trigger] self.evictor@[k2]@)
        &&& forall|k: int|
            0 <= k < self.evictor@.len() ==> self.live().contains_key((#[trigger] self.evictor@[k])@)
                && self.live()[self.evictor@[k]@].node is Some
        &&& forall|k: OidView|
            #[trigger] self.frozen().contains_key(k) ==> !self.live().contains_key(k)
        &&& self.history@ == self.lru_set().union(self.frozen().dom())
        &&& (self.evict_on_add && self.max() > 0 ==> self.lru().len() <= self.max())
    }

    /// An empty register.  `max_count_of_evictor_list` bounds the live
    /// serializable servants; `evict_on_add` decides whether registering
    /// runs the eviction step, or only rehydration does.
    pub fn new(max_count_of_evictor_list: usize, evict_on_add: bool) -> (r: Self)
        ensures
            r.wf(),
            r.live() == Map::<OidView, ServantRecord<<R as Rehydrator>::Output>>::empty(),
            r.reports() == Map::<OidView, P>::empty(),
            r.spec_watch() is None,
            r.lru() == Seq::<OidView>::empty(),
            r.frozen() == Map::<OidView, Seq<u8>>::empty(),
            r.enrolled() == Set::<Seq<char>>::empty(),
            r.max() == max_count_of_evictor_list,
            r.evicts_on_add() == evict_on_add,
            r.hist() == Set::<OidView>::empty(),
    {
        let r = ServantRegister {
            servants: Vec::new(),
            report_servants: Vec::new(),
            watch: None,
            evictor: evictor::List::new(max_count_of_evictor_list),
            freeze: Freeze::new(MemoryDb::new()),
            evict_on_add,
            history: Ghost(Set::empty()),
        };
        proof {
            assert(r.live() =~= Map::<OidView, ServantRecord<<R as Rehydrator>::Output>>::empty());
            assert(r.reports() =~= Map::<OidView, P>::empty());
            assert(r.lru() =~= Seq::<OidView>::empty());
            assert(r.hist() =~= r.lru_set().union(r.frozen().dom()));
        }
        r
    }

    /// Installs (or replaces) the watch servant; yields the previous
    /// one.
    pub fn set_watch_servant(&mut self, watch: W) -> (r: Option<W>)
        requires
            old(self).wf(),
        ensures
            final(self).wf(),
            final(self).spec_watch() == Some(watch),
            r == old(self).spec_watch(),
            final(self).live() == old(self).live(),
            final(self).reports() == old(self).reports(),
            final(self).lru() == old(self).lru(),
            final(self).frozen() == old(self).frozen(),
            final(self).enrolled() == old(self).enrolled(),
            final(self).max() == old(self).max(),
            final(self).evicts_on_add() == old(self).evicts_on_add(),
            final(self).hist() == old(self).hist(),
    {
        let r = self.watch.take();
        self.watch = Some(watch);
        r
    }

    /// Whether a watch servant is installed.
    pub fn has_watch_servant(&self) -> (r: bool)
        ensures
            r == (self.spec_watch() is Some),
    {
        self.watch.is_some()
    }

    /// Hands `req` to the watch servant, yielding its answer; `None`
    /// when none is installed.
    pub fn serve_watch(&mut self, req: Vec<u8>) -> (r: Option<Vec<u8>>)
        requires
            old(self).wf(),
        ensures
            final(self).wf(),
            r is Some <==> old(self).spec_watch() is Some,
            (final(self).spec_watch() is Some) == (old(self).spec_watch() is Some),
            ({
                match old(self).spec_watch() {
                    Some(w) => (r matches Some(b) && b@ == w.serve_result(req@))
                        && final(self).spec_watch() == Some(w.serve_update(req@)),
                    None => r is None && final(self).spec_watch() is None,
                }
            }),
            final(self).live() == old(self).live(),
            final(self).reports() == old(self).reports(),
            final(self).lru() == old(self).lru(),
            final(self).frozen() == old(self).frozen(),
            final(self).enrolled() == old(self).enrolled(),
            final(self).max() == old(self).max(),
            final(self).evicts_on_add() == old(self).evicts_on_add(),
            final(self).hist() == old(self).hist(),
    {
        match self.watch.take() {
            None => None,
            Some(mut w) => {
                let out = w.serve(req);
                self.watch = Some(w);
                Some(out)
            },
        }
    }

    /// The ids of the live servants, in registration order.
    pub fn servants(&self) -> (r: Vec<Oid>)
        requires
            self.wf(),
        ensures
            r@.len() == self.servant_count(),
            forall|i: int|
                0 <= i < r@.len() ==> self.live().contains_key((#[trigger] r@[i])@),
    {
        let mut out: Vec<Oid> = Vec::new();
        let mut i: usize = 0;
        while i < self.servants.len()
            invariant
                self.wf(),
                i <= self.servants@.len(),
                out@.len() == i,
                forall|j: int|
                    0 <= j < out@.len() ==> self.live().contains_key((#[trigger] out@[j])@),
            decreases self.servants@.len() - i,
        {
            proof {
                lemma_oid_map_index(self.servants@, i as int);
            }
            out.push(self.servants[i].0.clone());
            i = i + 1;
        }
        out
    }

    /// How many live servants there are.
    pub closed spec fn servant_count(&self) -> nat {
        self.servants@.len()
    }

    /// The ids of the report servants, in registration order.
    pub fn report_servants(&self) -> (r: Vec<Oid>)
        requires
            self.wf(),
        ensures
            forall|i: int|
                0 <= i < r@.len() ==> self.reports().contains_key((#[trigger] r@[i])@),
    {
        let mut out: Vec<Oid> = Vec::new();
        let mut i: usize = 0;
        while i < self.report_servants.len()
            invariant
                self.wf(),
                i <= self.report_servants@.len(),
                forall|j: int|
                    0 <= j < out@.len() ==> self.reports().contains_key((#[trigger] out@[j])@),
            decreases self.report_servants@.len() - i,
        {
            proof {
                lemma_oid_map_index(self.report_servants@, i as int);
            }
            out.push(self.report_servants[i].0.clone());
            i = i + 1;
        }
        out
    }

    /// Registers a report servant under `{servant.name(), category}`;
    /// an id already registered replaces nothing and is refused.
    pub fn add_report_servant(&mut self, category: &str, servant: P) -> (r: Result<
        (),
        ServantError,
    >)
        requires
            old(self).wf(),
        ensures
            final(self).wf(),
            final(self).live() == old(self).live(),
            final(self).spec_watch() == old(self).spec_watch(),
            final(self).lru() == old(self).lru(),
            final(self).frozen() == old(self).frozen(),
            final(self).enrolled() == old(self).enrolled(),
            final(self).max() == old(self).max(),
            final(self).evicts_on_add() == old(self).evicts_on_add(),
            final(self).hist() == old(self).hist(),
            ({
                let key = OidView { name: servant.spec_name(), category: category@ };
                &&& old(self).reports().contains_key(key) ==> (r matches Err(e) && e@
                    == ServantErrorView::DuplicateOid) && final(self).reports() == old(
                    self,
                ).reports()
                &&& !old(self).reports().contains_key(key) ==> r is Ok && final(self).reports()
                    == old(self).reports().insert(key, servant)
            }),
    {
        let oid = Oid::new(servant.name(), category);
        let ghost pre = self.report_servants@;
        proof {
            lemma_oid_map_contains(pre, oid@);
        }
        match oid_find(&self.report_servants, &oid) {
            Some(_) => Err(ServantError::DuplicateOid),
            None => {
                self.report_servants.push((oid, servant));
                proof {
                    lemma_oid_map_push(pre, self.report_servants@.last().0, self.report_servants@.last().1);
                    assert forall|j1: int, j2: int|
                        0 <= j1 < self.report_servants@.len() && 0 <= j2
                            < self.report_servants@.len() && j1 != j2 implies (
                    #[trigger] self.report_servants@[j1].0@) != (
                    #[trigger] self.report_servants@[j2].0@) by {
                        if j1 == self.report_servants@.len() - 1 {
                            assert(pre[j2] == self.report_servants@[j2]);
                        } else if j2 == self.report_servants@.len() - 1 {
                            assert(pre[j1] == self.report_servants@[j1]);
                        } else {
                            assert(pre[j1] == self.report_servants@[j1]);
                            assert(pre[j2] == self.report_servants@[j2]);
                        }
                    }
                }
                Ok(())
            },
        }
    }

    /// Serves a report: looks the servant up and hands it the message.
    /// Exactly the addressed servant takes the message; yields `false`,
    /// changing nothing, when the id is unknown.
    pub fn serve_report(&mut self, oid: &Oid, msg: Vec<u8>) -> (r: bool)
        requires
            old(self).wf(),
        ensures
            final(self).wf(),
            r == old(self).reports().contains_key(oid@),
            final(self).live() == old(self).live(),
            final(self).spec_watch() == old(self).spec_watch(),
            final(self).reports().dom() == old(self).reports().dom(),
            old(self).reports().contains_key(oid@) ==> final(self).reports() == old(
                self,
            ).reports().insert(oid@, old(self).reports()[oid@].after_serve(msg@)),
            !old(self).reports().contains_key(oid@) ==> final(self).reports() == old(
                self,
            ).reports(),
            final(self).lru() == old(self).lru(),
            final(self).frozen() == old(self).frozen(),
            final(self).enrolled() == old(self).enrolled(),
            final(self).max() == old(self).max(),
            final(self).evicts_on_add() == old(self).evicts_on_add(),
            final(self).hist() == old(self).hist(),
    {
        let ghost pre = self.report_servants@;
        proof {
            lemma_oid_map_contains(pre, oid@);
        }
        match oid_find(&self.report_servants, oid) {
            None => false,
            Some(i) => {
                let mut entry = self.report_servants.remove(i);
                entry.1.serve(msg);
                self.report_servants.push(entry);
                proof {
                    let now = self.report_servants@;
                    assert forall|j1: int, j2: int|
                        0 <= j1 < now.len() && 0 <= j2 < now.len() && j1 != j2 implies (
                    #[trigger] now[j1].0@) != (#[trigger] now[j2].0@) by {
                        let o1 = if j1 == now.len() - 1 {
                            i as int
                        } else if j1 < i {
                            j1
                        } else {
                            j1 + 1
                        };
                        let o2 = if j2 == now.len() - 1 {
                            i as int
                        } else if j2 < i {
                            j2
                        } else {
                            j2 + 1
                        };
                        assert(now[j1].0@ == pre[o1].0@ && now[j2].0@ == pre[o2].0@);
                    }
                    lemma_oid_map_remove(pre, i as int);
                    lemma_oid_map_push(pre.remove(i as int), now.last().0, now.last().1);
                    lemma_oid_map_index(pre, i as int);
                    assert(now.last().1 == pre[i as int].1.after_serve(msg@));
                    assert(self.reports() =~= old(self).reports().insert(
                        oid@,
                        old(self).reports()[oid@].after_serve(msg@),
                    ));
                    assert(self.reports().dom() =~= old(self).reports().dom());
                }
                true
            },
        }
    }

    /// Forwards to the freeze store: enrolls a rehydrator for one
    /// category.
    pub fn enroll_in_freeze(&mut self, category: &str, builder: R) -> (r: Result<
        (),
        ServantError,
    >)
        requires
            old(self).wf(),
        ensures
            final(self).wf(),
            final(self).live() == old(self).live(),
            final(self).reports() == old(self).reports(),
            final(self).spec_watch() == old(self).spec_watch(),
            final(self).lru() == old(self).lru(),
            final(self).frozen() == old(self).frozen(),
            final(self).max() == old(self).max(),
            final(self).evicts_on_add() == old(self).evicts_on_add(),
            final(self).hist() == old(self).hist(),
            !old(self).enrolled().contains(category@) ==> r is Ok && final(self).enrolled() == old(
                self,
            ).enrolled().insert(category@),
            old(self).enrolled().contains(category@) ==> r is Err && final(self).enrolled() == old(
                self,
            ).enrolled(),
    {
        self.freeze.enroll(category, builder)
    }

    /// The eviction step: when the evictor list is at (or beyond)
    /// capacity, pop its tail, take that servant out of the live map,
    /// dump it and hand the bytes to the freeze store.
    fn evict_step(&mut self)
        requires
            old(self).wf(),
        ensures
            final(self).wf(),
            final(self).reports() == old(self).reports(),
            final(self).spec_watch() == old(self).spec_watch(),
            final(self).enrolled() == old(self).enrolled(),
            final(self).max() == old(self).max(),
            final(self).evicts_on_add() == old(self).evicts_on_add(),
            final(self).hist() == old(self).hist(),
            (old(self).max() > 0 && old(self).lru().len() >= old(self).max()) ==> ({
                let victim = old(self).lru().last();
                &&& final(self).lru() == old(self).lru().drop_last()
                &&& final(self).live() == old(self).live().remove(victim)
                &&& final(self).frozen().dom() == old(self).frozen().dom().insert(victim)
                &&& final(self).frozen()[victim] == old(
                    self,
                ).live()[victim].servant.dump_bytes()
                &&& forall|k: OidView|
                    k != victim && old(self).frozen().contains_key(k) ==> final(self).frozen()[k]
                        == old(self).frozen()[k]
            }),
            !(old(self).max() > 0 && old(self).lru().len() >= old(self).max()) ==> final(self).live() == old(self).live() && final(self).lru() == old(self).lru() && final(self).frozen() == old(self).frozen(),
    {
        let ghost pre = *old(self);
        let victim_opt = self.evictor.evict();
        match victim_opt {
            None => {
                proof {
                    assert forall|i: int| 0 <= i < self.servants@.len() implies {
                        let e = #[trigger] self.servants@[i];
                        match e.1.node {
                            Some(ptr) => e.1.servant.serializable() && self.evictor.valid(ptr)
                                && self.evictor@[self.evictor.pos(ptr)]@ == e.0@,
                            None => !e.1.servant.serializable(),
                        }
                    } by {
                        let e = self.servants@[i];
                        if e.1.node is Some {
                            let ptr = e.1.node->0;
                            assert(pre.evictor.valid(ptr));
                        }
                    }
                    assert(self.lru() =~= pre.lru());
                }
            },
            Some(victim) => {
                let ghost ids = pre.evictor@;
                let ghost n = ids.len() as int;
                proof {
                    assert(victim == ids[n - 1]);
                    assert(pre.live().contains_key(victim@));
                    assert(pre.live()[victim@].node is Some);
                    lemma_oid_map_contains(pre.servants@, victim@);
                }
                let idx_opt = oid_find(&self.servants, &victim);
                proof {
                    if idx_opt is None {
                        let j = choose|j: int|
                            0 <= j < pre.servants@.len() && (#[trigger] pre.servants@[j].0@)
                                == victim@;
                        assert(self.servants@[j].0@ == victim@);
                        assert(false);
                    }
                }
                let i = idx_opt.unwrap();
                proof {
                    lemma_oid_map_index(pre.servants@, i as int);
                    lemma_oid_map_remove(pre.servants@, i as int);
                }
                let entry = self.servants.remove(i);
                proof {
                    assert(entry.1 == pre.servants@[i as int].1);
                    assert(entry.1.node is Some);
                    assert(entry.1.servant.serializable());
                }
                let dumped = entry.1.servant.dump();
                let bytes = match dumped {
                    Ok(b) => b,
                    Err(_) => {
                        proof {
                            assert(false);
                        }
                        Vec::new()
                    },
                };
                let _ = self.freeze.store(&victim, &bytes);
                proof {
                    let sv = self.servants@;
                    let ids2 = self.evictor@;
                    assert(ids2 =~= ids.drop_last());
                    // the victim sat at the tail position of the evictor
                    let vptr = pre.servants@[i as int].1.node->0;
                    assert(pre.evictor.valid(vptr) && pre.evictor@[pre.evictor.pos(vptr)]@
                        == victim@);
                    // the live map loses exactly the victim
                    assert(self.live() =~= pre.live().remove(victim@));
                    // every remaining entry keeps a valid node
                    assert forall|j: int| 0 <= j < sv.len() implies {
                        let e = #[trigger] sv[j];
                        match e.1.node {
                            Some(ptr) => e.1.servant.serializable() && self.evictor.valid(ptr)
                                && self.evictor@[self.evictor.pos(ptr)]@ == e.0@,
                            None => !e.1.servant.serializable(),
                        }
                    } by {
                        let jo = if j < i {
                            j
                        } else {
                            j + 1
                        };
                        let e = sv[j];
                        assert(e == pre.servants@[jo]);
                        if e.1.node is Some {
                            let ptr = e.1.node->0;
                            assert(pre.evictor.valid(ptr));
                            let kp = pre.evictor.pos(ptr);
                            pre.evictor.lemma_pos_range(ptr);
                            assert(pre.evictor@[kp]@ == e.0@);
                            assert(e.0@ != victim@);
                            assert(kp != n - 1);
                            assert(self.evictor.valid(ptr));
                            assert(self.evictor.pos(ptr) == kp);
                            assert(self.evictor@[kp] == ids[kp]);
                        }
                    }
                    // lru views
                    assert(self.lru() =~= pre.lru().drop_last());
                    // coverage
                    assert forall|k: int| 0 <= k < ids2.len() implies self.live().contains_key((
                        #[trigger] ids2[k])@) && self.live()[ids2[k]@].node is Some by {
                        assert(ids2[k] == ids[k]);
                        assert(pre.live().contains_key(ids[k]@));
                        assert(ids[k]@ != ids[n - 1]@);
                    }
                    // frozen is the old store plus the victim
                    assert(self.frozen().dom() =~= pre.frozen().dom().insert(victim@));
                    // disjointness
                    assert forall|k: OidView| #[trigger] self.frozen().contains_key(k) implies
                        !self.live().contains_key(k) by {
                        if k == victim@ {
                            assert(!self.live().contains_key(k));
                        } else {
                            assert(pre.frozen().contains_key(k));
                        }
                    }
                    // history is untouched: the victim moves from the lru
                    // to the frozen store
                    assert(self.history@ =~= self.lru_set().union(self.frozen().dom())) by {
                        assert forall|x: OidView| pre.lru_set().union(pre.frozen().dom()).contains(
                            x,
                        ) implies self.lru_set().union(self.frozen().dom()).contains(x) by {
                            if pre.lru_set().contains(x) {
                                let k = choose|k: int|
                                    0 <= k < pre.lru().len() && pre.lru()[k] == x;
                                if k == n - 1 {
                                    assert(self.frozen().dom().contains(x));
                                } else {
                                    assert(self.lru()[k] == x);
                                    assert(self.lru().contains(x));
                                }
                            }
                        }
                        assert forall|x: OidView| self.lru_set().union(self.frozen().dom()).contains(
                            x,
                        ) implies pre.lru_set().union(pre.frozen().dom()).contains(x) by {
                            if self.lru_set().contains(x) {
                                let k = choose|k: int|
                                    0 <= k < self.lru().len() && self.lru()[k] == x;
                                assert(pre.lru()[k] == x);
                                assert(pre.lru().contains(x));
                            } else {
                                if x == victim@ {
                                    assert(pre.lru()[n - 1] == x);
                                    assert(pre.lru().contains(x));
                                }
                            }
                        }
                    }
                }
            },
        }
    }

    /// Registers a servant under `{servant.name(), category}`.  An id
    /// that is already live or passivated is refused as a duplicate.  A
    /// servant that does not opt into serialization is pinned; a
    /// serializable one joins the evictor list, after the eviction step
    /// when the register was built to evict on registration.
    pub fn add_servant(&mut self, category: &str, servant: <R as Rehydrator>::Output) -> (r: Result<
        (),
        ServantError,
    >)
        requires
            old(self).wf(),
        ensures
            final(self).wf(),
            final(self).reports() == old(self).reports(),
            final(self).spec_watch() == old(self).spec_watch(),
            final(self).enrolled() == old(self).enrolled(),
            final(self).max() == old(self).max(),
            final(self).evicts_on_add() == old(self).evicts_on_add(),
            ({
                let key = OidView { name: servant.spec_name(), category: category@ };
                let occupied = old(self).live().contains_key(key) || old(
                    self,
                ).frozen().contains_key(key);
                let evicted = old(self).evicts_on_add() && old(self).max() > 0 && old(
                    self,
                ).lru().len() >= old(self).max();
                let victim = old(self).lru().last();
                &&& occupied ==> (r matches Err(e) && e@ == ServantErrorView::DuplicateOid)
                    && final(self).live() == old(self).live() && final(self).lru() == old(
                    self,
                ).lru() && final(self).frozen() == old(self).frozen() && final(self).hist() == old(
                    self,
                ).hist()
                &&& (!occupied && !servant.serializable()) ==> r is Ok && final(self).live()
                    == old(self).live().insert(
                    key,
                    ServantRecord { servant, node: None },
                ) && final(self).lru() == old(self).lru() && final(self).frozen() == old(
                    self,
                ).frozen() && final(self).hist() == old(self).hist()
                &&& (!occupied && servant.serializable()) ==> r is Ok && final(self).hist() == old(
                    self,
                ).hist().insert(key) && final(self).live().contains_key(key) && final(self).live()[key].servant == servant && final(self).live()[key].node is Some
                &&& (!occupied && servant.serializable() && !evicted) ==> final(self).lru() == seq![
                    key,
                ] + old(self).lru() && final(self).frozen() == old(self).frozen() && final(self).live().dom() == old(self).live().dom().insert(key) && (forall|k: OidView|
                    k != key && old(self).live().contains_key(k) ==> final(self).live()[k] == old(
                        self,
                    ).live()[k])
                &&& (!occupied && servant.serializable() && evicted) ==> final(self).lru() == seq![
                    key,
                ] + old(self).lru().drop_last() && final(self).frozen().dom() == old(
                    self,
                ).frozen().dom().insert(victim) && final(self).live().dom() == old(
                    self,
                ).live().dom().remove(victim).insert(key) && (forall|k: OidView|
                    k != key && k != victim && old(self).live().contains_key(k) ==> final(self).live()[k] == old(self).live()[k])
            }),
    {
        let oid = Oid::new(servant.name(), category);
        proof {
            lemma_oid_map_contains(self.servants@, oid@);
        }
        let live_hit = oid_find(&self.servants, &oid).is_some();
        let frozen_hit = self.freeze.has_frozen(&oid);
        if live_hit || frozen_hit {
            return Err(ServantError::DuplicateOid);
        }
        let ser = servant.dump().is_ok();
        if !ser {
            let ghost pre = *self;
            self.servants.push((oid, ServantRecord { servant, node: None }));
            proof {
                lemma_oid_map_push(pre.servants@, self.servants@.last().0, self.servants@.last().1);
                assert forall|j1: int, j2: int|
                    0 <= j1 < self.servants@.len() && 0 <= j2 < self.servants@.len() && j1 != j2
                    implies (#[trigger] self.servants@[j1].0@) != (
                #[trigger] self.servants@[j2].0@) by {
                    if j1 == self.servants@.len() - 1 {
                        assert(pre.servants@[j2] == self.servants@[j2]);
                        lemma_oid_map_index(pre.servants@, j2);
                    } else if j2 == self.servants@.len() - 1 {
                        assert(pre.servants@[j1] == self.servants@[j1]);
                        lemma_oid_map_index(pre.servants@, j1);
                    } else {
                        assert(pre.servants@[j1] == self.servants@[j1]);
                        assert(pre.servants@[j2] == self.servants@[j2]);
                    }
                }
                assert forall|j: int| 0 <= j < self.servants@.len() implies {
                    let e = #[trigger] self.servants@[j];
                    match e.1.node {
                        Some(ptr) => e.1.servant.serializable() && self.evictor.valid(ptr)
                            && self.evictor@[self.evictor.pos(ptr)]@ == e.0@,
                        None => !e.1.servant.serializable(),
                    }
                } by {
                    if j < self.servants@.len() - 1 {
                        assert(self.servants@[j] == pre.servants@[j]);
                    }
                }
                assert forall|k: int| 0 <= k < self.evictor@.len() implies self.live().contains_key(
                    (#[trigger] self.evictor@[k])@,
                ) && self.live()[self.evictor@[k]@].node is Some by {
                    assert(pre.live().contains_key(self.evictor@[k]@));
                }
            }
            Ok(())
        } else {
            if self.evict_on_add {
                self.evict_step();
            }
            let ghost mid = *self;
            let ptr = self.evictor.push(oid.clone());
            let ghost mid2 = *self;
            self.servants.push((oid, ServantRecord { servant, node: Some(ptr) }));
            proof {
                self.history@ = self.history@.insert(self.servants@.last().0@);
            }
            proof {
                let key = self.servants@.last().0@;
                lemma_oid_map_push(mid.servants@, self.servants@.last().0, self.servants@.last().1);
                let evicted = old(self).evicts_on_add() && old(self).max() > 0 && old(
                    self,
                ).lru().len() >= old(self).max();
                if evicted {
                    assert(mid.live() == old(self).live().remove(old(self).lru().last()));
                } else {
                    assert(mid.live() == old(self).live());
                }
                assert(!old(self).live().contains_key(key));
                assert(!mid.live().contains_key(key));
                assert(!mid.frozen().contains_key(key)) by {
                    if mid.frozen().contains_key(key) {
                        assert(old(self).frozen().dom().contains(key) || key == old(
                            self,
                        ).lru().last());
                        if key == old(self).lru().last() {
                            assert(old(self).lru().contains(key));
                            let k = choose|k: int|
                                0 <= k < old(self).lru().len() && old(self).lru()[k] == key;
                            assert(old(self).live().contains_key(old(self).evictor@[k]@));
                        }
                    }
                }
                assert forall|j1: int, j2: int|
                    0 <= j1 < self.servants@.len() && 0 <= j2 < self.servants@.len() && j1 != j2
                    implies (#[trigger] self.servants@[j1].0@) != (
                #[trigger] self.servants@[j2].0@) by {
                    if j1 == self.servants@.len() - 1 {
                        assert(mid.servants@[j2] == self.servants@[j2]);
                        lemma_oid_map_index(mid.servants@, j2);
                    } else if j2 == self.servants@.len() - 1 {
                        assert(mid.servants@[j1] == self.servants@[j1]);
                        lemma_oid_map_index(mid.servants@, j1);
                    } else {
                        assert(mid.servants@[j1] == self.servants@[j1]);
                        assert(mid.servants@[j2] == self.servants@[j2]);
                    }
                }
                assert forall|j: int| 0 <= j < self.servants@.len() implies {
                    let e = #[trigger] self.servants@[j];
                    match e.1.node {
                        Some(ptr2) => e.1.servant.serializable() && self.evictor.valid(ptr2)
                            && self.evictor@[self.evictor.pos(ptr2)]@ == e.0@,
                        None => !e.1.servant.serializable(),
                    }
                } by {
                    if j < self.servants@.len() - 1 {
                        assert(self.servants@[j] == mid.servants@[j]);
                        let e = self.servants@[j];
                        if e.1.node is Some {
                            let q = e.1.node->0;
                            assert(mid.evictor.valid(q));
                            let kq = mid.evictor.pos(q);
                            mid.evictor.lemma_pos_range(q);
                            assert(self.evictor.pos(q) == kq + 1);
                            assert(self.evictor@[kq + 1] == (seq![self.servants@.last().0]
                                + mid.evictor@)[kq + 1]);
                        }
                    } else {
                        assert(self.evictor.pos(ptr) == 0);
                    }
                }
                assert forall|k: int| 0 <= k < self.evictor@.len() implies self.live().contains_key(
                    (#[trigger] self.evictor@[k])@,
                ) && self.live()[self.evictor@[k]@].node is Some by {
                    if k == 0 {
                        assert(self.live().contains_key(key));
                    } else {
                        assert(self.evictor@[k] == mid.evictor@[k - 1]);
                        assert(mid.live().contains_key(mid.evictor@[k - 1]@));
                        assert(mid.evictor@[k - 1]@ != key);
                    }
                }
                assert forall|k1: int, k2: int|
                    0 <= k1 < self.evictor@.len() && 0 <= k2 < self.evictor@.len() && k1 != k2
                    implies (#[trigger] self.evictor@[k1]@) != (#[trigger] self.evictor@[k2]@) by {
                    if k1 == 0 {
                        assert(self.evictor@[k2]@ == mid.evictor@[k2 - 1]@);
                        assert(mid.live().contains_key(mid.evictor@[k2 - 1]@));
                    } else if k2 == 0 {
                        assert(self.evictor@[k1]@ == mid.evictor@[k1 - 1]@);
                        assert(mid.live().contains_key(mid.evictor@[k1 - 1]@));
                    } else {
                        assert(self.evictor@[k1]@ == mid.evictor@[k1 - 1]@);
                        assert(self.evictor@[k2]@ == mid.evictor@[k2 - 1]@);
                    }
                }
                assert forall|k: OidView| #[trigger] self.frozen().contains_key(k) implies
                    !self.live().contains_key(k) by {
                    assert(mid.frozen().contains_key(k));
                    assert(k != key);
                    assert(!mid.live().contains_key(k));
                }
                assert(self.lru() =~= seq![key] + mid.lru());
                assert(self.history@ =~= self.lru_set().union(self.frozen().dom())) by {
                    assert forall|x: OidView| mid.lru_set().union(mid.frozen().dom()).insert(
                        key,
                    ).contains(x) implies self.lru_set().union(self.frozen().dom()).contains(
                        x,
                    ) by {
                        if x == key {
                            assert(self.lru()[0] == x);
                            assert(self.lru().contains(x));
                        } else if mid.lru_set().contains(x) {
                            let k = choose|k: int| 0 <= k < mid.lru().len() && mid.lru()[k] == x;
                            assert(self.lru()[k + 1] == x);
                            assert(self.lru().contains(x));
                        }
                    }
                    assert forall|x: OidView| self.lru_set().union(self.frozen().dom()).contains(
                        x,
                    ) implies mid.lru_set().union(mid.frozen().dom()).insert(key).contains(x) by {
                        if self.lru_set().contains(x) {
                            let k = choose|k: int| 0 <= k < self.lru().len() && self.lru()[k] == x;
                            if k > 0 {
                                assert(mid.lru()[k - 1] == x);
                                assert(mid.lru().contains(x));
                            }
                        }
                    }
                    assert(mid.history@ == mid.lru_set().union(mid.frozen().dom()));
                }
                // the ensures cases
                if !(old(self).evicts_on_add() && old(self).max() > 0 && old(self).lru().len()
                    >= old(self).max()) {
                    assert(mid.lru() == old(self).lru());
                    assert(self.live().dom() =~= old(self).live().dom().insert(key));
                } else {
                    assert(mid.lru() == old(self).lru().drop_last());
                    assert(self.live().dom() =~= old(self).live().dom().remove(
                        old(self).lru().last(),
                    ).insert(key));
                }
            }
            Ok(())
        }
    }


    /// Looks a servant up.  A live serializable id is promoted to the
    /// head of the evictor list.  A passivated id whose category has an
    /// enrolled rehydrator is rehydrated: the eviction step runs first,
    /// the stored bytes are consumed, and the rebuilt servant joins the
    /// live map at the head of the evictor list.  Any other id is not
    /// found, and nothing changes.
    pub fn find_servant(&mut self, oid: &Oid) -> (found: bool)
        requires
            old(self).wf(),
        ensures
            final(self).wf(),
            final(self).reports() == old(self).reports(),
            final(self).spec_watch() == old(self).spec_watch(),
            final(self).enrolled() == old(self).enrolled(),
            final(self).max() == old(self).max(),
            final(self).evicts_on_add() == old(self).evicts_on_add(),
            final(self).hist() == old(self).hist(),
            found <==> (old(self).live().contains_key(oid@) || (old(self).frozen().contains_key(
                oid@,
            ) && old(self).enrolled().contains(oid@.category))),
            !found ==> final(self).live() == old(self).live() && final(self).lru() == old(
                self,
            ).lru() && final(self).frozen() == old(self).frozen(),
            old(self).live().contains_key(oid@) ==> ({
                &&& final(self).live() == old(self).live()
                &&& final(self).frozen() == old(self).frozen()
                &&& (old(self).live()[oid@].node is Some ==> final(self).lru() == seq![oid@] + old(
                    self,
                ).lru().remove(old(self).lru().index_of(oid@)))
                &&& (old(self).live()[oid@].node is None ==> final(self).lru() == old(self).lru())
            }),
            (!old(self).live().contains_key(oid@) && old(self).frozen().contains_key(oid@) && old(
                self,
            ).enrolled().contains(oid@.category)) ==> ({
                let evicted = old(self).max() > 0 && old(self).lru().len() >= old(self).max();
                let victim = old(self).lru().last();
                &&& final(self).live().contains_key(oid@) && final(self).live()[oid@].node is Some
                    && final(self).live()[oid@].servant.serializable()
                &&& final(self).live()[oid@].servant.spec_name() == oid@.name
                &&& final(self).live()[oid@].servant.dump_bytes() == old(self).frozen()[oid@]
                &&& !evicted ==> final(self).live().dom() == old(self).live().dom().insert(oid@)
                    && final(self).lru() == seq![oid@] + old(self).lru() && final(self).frozen()
                    == old(self).frozen().remove(oid@)
                &&& evicted ==> final(self).live().dom() == old(self).live().dom().remove(
                    victim,
                ).insert(oid@) && final(self).lru() == seq![oid@] + old(self).lru().drop_last()
                    && final(self).frozen().dom() == old(self).frozen().dom().insert(victim).remove(
                    oid@,
                ) && final(self).frozen()[victim] == old(self).live()[victim].servant.dump_bytes()
                &&& forall|k: OidView|
                    k != oid@ && !(evicted && k == victim) && old(self).live().contains_key(k)
                        ==> final(self).live()[k] == old(self).live()[k]
            }),
    {
        let ghost pre = *old(self);
        proof {
            lemma_oid_map_contains(pre.servants@, oid@);
        }
        match oid_find(&self.servants, oid) {
            Some(i) => {
                proof {
                    lemma_oid_map_index(pre.servants@, i as int);
                }
                let node = self.servants[i].1.node;
                match node {
                    None => {
                    },
                    Some(ptr) => {
                        proof {
                            assert(pre.evictor.valid(ptr));
                            pre.evictor.lemma_pos_range(ptr);
                        }
                        let ghost kp = pre.evictor.pos(ptr);
                        self.evictor.top(ptr);
                        proof {
                            let ids = pre.evictor@;
                            let n = ids.len() as int;
                            let ids2 = self.evictor@;
                            assert(ids[kp]@ == oid@);
                            assert(ids2 == seq![ids[kp]] + ids.remove(kp));
                            assert forall|m: int| 0 <= m < n implies ids2[m] == (if m == 0 {
                                ids[kp]
                            } else if m - 1 < kp {
                                ids[m - 1]
                            } else {
                                ids[m]
                            }) by {
                                if m > 0 {
                                    assert(ids2[m] == ids.remove(kp)[m - 1]);
                                }
                            }
                            assert forall|j: int| 0 <= j < self.servants@.len() implies {
                                let e = #[trigger] self.servants@[j];
                                match e.1.node {
                                    Some(q) => e.1.servant.serializable() && self.evictor.valid(q)
                                        && self.evictor@[self.evictor.pos(q)]@ == e.0@,
                                    None => !e.1.servant.serializable(),
                                }
                            } by {
                                let e = self.servants@[j];
                                if e.1.node is Some {
                                    let q = e.1.node->0;
                                    assert(pre.evictor.valid(q));
                                    pre.evictor.lemma_pos_range(q);
                                    let kq = pre.evictor.pos(q);
                                    assert(pre.evictor@[kq]@ == e.0@);
                                    if kq < kp {
                                        assert(self.evictor.pos(q) == kq + 1);
                                        assert(ids2[kq + 1] == ids[kq]);
                                    } else if kq > kp {
                                        assert(self.evictor.pos(q) == kq);
                                        assert(ids2[kq] == ids[kq]);
                                    } else {
                                        assert(ids[kq]@ == e.0@);
                                        assert(e.0@ == oid@);
                                        if j != i {
                                            assert(pre.servants@[j].0@ != pre.servants@[i as int].0@);
                                            assert(false);
                                        }
                                        assert(q == ptr);
                                        assert(self.evictor.pos(q) == 0);
                                        assert(ids2[0] == ids[kp]);
                                    }
                                }
                            }
                            assert forall|k1: int, k2: int|
                                0 <= k1 < ids2.len() && 0 <= k2 < ids2.len() && k1 != k2 implies (
                            #[trigger] ids2[k1]@) != (#[trigger] ids2[k2]@) by {
                                let o1 = if k1 == 0 {
                                    kp
                                } else if k1 - 1 < kp {
                                    k1 - 1
                                } else {
                                    k1
                                };
                                let o2 = if k2 == 0 {
                                    kp
                                } else if k2 - 1 < kp {
                                    k2 - 1
                                } else {
                                    k2
                                };
                                assert(ids2[k1] == ids[o1] && ids2[k2] == ids[o2]);
                            }
                            assert forall|k: int| 0 <= k < ids2.len() implies
                                self.live().contains_key((#[trigger] ids2[k])@)
                                && self.live()[ids2[k]@].node is Some by {
                                let o = if k == 0 {
                                    kp
                                } else if k - 1 < kp {
                                    k - 1
                                } else {
                                    k
                                };
                                assert(ids2[k] == ids[o]);
                                assert(pre.live().contains_key(ids[o]@));
                            }
                            assert(self.history@ =~= self.lru_set().union(self.frozen().dom())) by {
                                assert forall|x: OidView| pre.lru_set().contains(x) implies
                                    self.lru_set().contains(x) by {
                                    let k = choose|k: int|
                                        0 <= k < pre.lru().len() && pre.lru()[k] == x;
                                    if k == kp {
                                        assert(self.lru()[0] == x);
                                    } else if k < kp {
                                        assert(self.lru()[k + 1] == x);
                                    } else {
                                        assert(self.lru()[k] == x);
                                    }
                                    assert(self.lru().contains(x));
                                }
                                assert forall|x: OidView| self.lru_set().contains(x) implies
                                    pre.lru_set().contains(x) by {
                                    let k = choose|k: int|
                                        0 <= k < self.lru().len() && self.lru()[k] == x;
                                    let o = if k == 0 {
                                        kp
                                    } else if k - 1 < kp {
                                        k - 1
                                    } else {
                                        k
                                    };
                                    assert(pre.lru()[o] == x);
                                    assert(pre.lru().contains(x));
                                }
                            }
                            assert(pre.lru().index_of(oid@) == kp) by {
                                assert(pre.lru()[kp] == oid@);
                                assert(pre.lru().contains(oid@));
                                let k2 = pre.lru().index_of(oid@);
                                assert(0 <= k2 < pre.lru().len() && pre.lru()[k2] == oid@);
                                if k2 != kp {
                                    assert(pre.evictor@[k2]@ != pre.evictor@[kp]@);
                                }
                            }
                            assert(self.lru() =~= seq![oid@] + pre.lru().remove(kp));
                        }
                    },
                }
                true
            },
            None => {
                let enrolled_hit = self.freeze.is_enrolled(oid.category());
                let frozen_hit = self.freeze.has_frozen(oid);
                if !(enrolled_hit && frozen_hit) {
                    return false;
                }
                proof {
                    assert(!pre.live().contains_key(oid@));
                }
                self.evict_step();
                let ghost mid = *self;
                proof {
                    let evicted = pre.max() > 0 && pre.lru().len() >= pre.max();
                    if evicted {
                        let victim = pre.lru().last();
                        assert(pre.live().contains_key(pre.evictor@[pre.lru().len() - 1]@));
                        assert(victim != oid@);
                        assert(mid.frozen().contains_key(oid@)) by {
                            assert(mid.frozen().dom() == pre.frozen().dom().insert(victim));
                        }
                    }
                    assert(mid.frozen().contains_key(oid@));
                    assert(mid.enrolled().contains(oid@.category));
                }
                let loaded = self.freeze.load(oid);
                let built = match loaded {
                    Some(s) => s,
                    None => {
                        proof {
                            assert(false);
                        }
                        vstd::pervasive::unreached()
                    },
                };
                proof {
                    assert(built.spec_name() == oid@.name);
                    assert(built.serializable());
                    assert(built.dump_bytes() == mid.frozen()[oid@]);
                }
                let ghost mid2 = *self;
                let ptr = self.evictor.push(oid.clone());
                self.servants.push((oid.clone(), ServantRecord { servant: built, node: Some(ptr) }));
                proof {
                    let key = self.servants@.last().0@;
                    assert(key == oid@);
                    lemma_oid_map_push(
                        mid2.servants@,
                        self.servants@.last().0,
                        self.servants@.last().1,
                    );
                    assert(mid2.servants@ == mid.servants@ && mid2.evictor@ == mid.evictor@);
                    assert(mid2.live() == mid.live());
                    assert(!mid2.live().contains_key(key)) by {
                        if pre.max() > 0 && pre.lru().len() >= pre.max() {
                            assert(mid.live() == pre.live().remove(pre.lru().last()));
                        } else {
                            assert(mid.live() == pre.live());
                        }
                    }
                    assert forall|j1: int, j2: int|
                        0 <= j1 < self.servants@.len() && 0 <= j2 < self.servants@.len() && j1 != j2
                        implies (#[trigger] self.servants@[j1].0@) != (
                    #[trigger] self.servants@[j2].0@) by {
                        if j1 == self.servants@.len() - 1 {
                            assert(mid2.servants@[j2] == self.servants@[j2]);
                            lemma_oid_map_index(mid2.servants@, j2);
                        } else if j2 == self.servants@.len() - 1 {
                            assert(mid2.servants@[j1] == self.servants@[j1]);
                            lemma_oid_map_index(mid2.servants@, j1);
                        } else {
                            assert(mid2.servants@[j1] == self.servants@[j1]);
                            assert(mid2.servants@[j2] == self.servants@[j2]);
                        }
                    }
                    assert forall|j: int| 0 <= j < self.servants@.len() implies {
                        let e = #[trigger] self.servants@[j];
                        match e.1.node {
                            Some(q) => e.1.servant.serializable() && self.evictor.valid(q)
                                && self.evictor@[self.evictor.pos(q)]@ == e.0@,
                            None => !e.1.servant.serializable(),
                        }
                    } by {
                        if j < self.servants@.len() - 1 {
                            assert(self.servants@[j] == mid2.servants@[j]);
                            let e = self.servants@[j];
                            if e.1.node is Some {
                                let q = e.1.node->0;
                                assert(mid2.evictor.valid(q));
                                let kq = mid2.evictor.pos(q);
                                mid2.evictor.lemma_pos_range(q);
                                assert(self.evictor.pos(q) == kq + 1);
                                assert(self.evictor@[kq + 1] == (seq![self.servants@.last().0]
                                    + mid2.evictor@)[kq + 1]);
                            }
                        } else {
                            assert(self.evictor.pos(ptr) == 0);
                        }
                    }
                    assert forall|k: int| 0 <= k < self.evictor@.len() implies
                        self.live().contains_key((#[trigger] self.evictor@[k])@)
                        && self.live()[self.evictor@[k]@].node is Some by {
                        if k == 0 {
                            assert(self.live().contains_key(key));
                        } else {
                            assert(self.evictor@[k] == mid2.evictor@[k - 1]);
                            assert(mid2.live().contains_key(mid2.evictor@[k - 1]@));
                            assert(mid2.evictor@[k - 1]@ != key);
                        }
                    }
                    assert forall|k1: int, k2: int|
                        0 <= k1 < self.evictor@.len() && 0 <= k2 < self.evictor@.len() && k1 != k2
                        implies (#[trigger] self.evictor@[k1]@) != (
                    #[trigger] self.evictor@[k2]@) by {
                        if k1 == 0 {
                            assert(self.evictor@[k2]@ == mid2.evictor@[k2 - 1]@);
                            assert(mid2.live().contains_key(mid2.evictor@[k2 - 1]@));
                        } else if k2 == 0 {
                            assert(self.evictor@[k1]@ == mid2.evictor@[k1 - 1]@);
                            assert(mid2.live().contains_key(mid2.evictor@[k1 - 1]@));
                        } else {
                            assert(self.evictor@[k1]@ == mid2.evictor@[k1 - 1]@);
                            assert(self.evictor@[k2]@ == mid2.evictor@[k2 - 1]@);
                        }
                    }
                    assert forall|k: OidView| #[trigger] self.frozen().contains_key(k) implies
                        !self.live().contains_key(k) by {
                        assert(mid2.frozen().contains_key(k));
                        assert(k != key);
                        assert(!mid2.live().contains_key(k));
                    }
                    assert(self.lru() =~= seq![key] + mid2.lru());
                    assert(self.history@ =~= self.lru_set().union(self.frozen().dom())) by {
                        assert(mid.history@ == mid.lru_set().union(mid.frozen().dom()));
                        assert forall|x: OidView| mid.lru_set().union(mid.frozen().dom()).contains(
                            x,
                        ) implies self.lru_set().union(self.frozen().dom()).contains(x) by {
                            if mid.lru_set().contains(x) {
                                let k = choose|k: int|
                                    0 <= k < mid.lru().len() && mid.lru()[k] == x;
                                assert(self.lru()[k + 1] == x);
                                assert(self.lru().contains(x));
                            } else {
                                if x == key {
                                    assert(self.lru()[0] == x);
                                    assert(self.lru().contains(x));
                                } else {
                                    assert(self.frozen().contains_key(x));
                                }
                            }
                        }
                        assert forall|x: OidView| self.lru_set().union(self.frozen().dom()).contains(
                            x,
                        ) implies mid.lru_set().union(mid.frozen().dom()).contains(x) by {
                            if self.lru_set().contains(x) {
                                let k = choose|k: int|
                                    0 <= k < self.lru().len() && self.lru()[k] == x;
                                if k == 0 {
                                    assert(x == key);
                                    assert(mid.frozen().contains_key(x));
                                } else {
                                    assert(mid.lru()[k - 1] == x);
                                    assert(mid.lru().contains(x));
                                }
                            } else {
                                assert(mid.frozen().contains_key(x));
                            }
                        }
                    }
                    if pre.max() > 0 && pre.lru().len() >= pre.max() {
                        assert(self.live().dom() =~= pre.live().dom().remove(
                            pre.lru().last(),
                        ).insert(oid@));
                        assert(self.frozen().dom() =~= pre.frozen().dom().insert(
                            pre.lru().last(),
                        ).remove(oid@));
                        assert(self.lru() =~= seq![oid@] + pre.lru().drop_last());
                        assert(mid.frozen()[oid@] == pre.frozen()[oid@]);
                    } else {
                        assert(self.live().dom() =~= pre.live().dom().insert(oid@));
                        assert(self.lru() =~= seq![oid@] + pre.lru());
                        assert(mid.frozen()[oid@] == pre.frozen()[oid@]);
                    }
                    assert(self.live()[key] == self.servants@.last().1);
                    assert(self.live()[key].servant.spec_name() == oid@.name);
                    assert(self.live()[key].servant.dump_bytes() == pre.frozen()[oid@]);
                }
                true
            },
        }
    }


    /// Serves a two-way request addressed to `oid`: looks the servant up
    /// exactly as `find_servant` does, then hands it the context and the
    /// request bytes.  `None` when the id is not found; the registry is
    /// then unchanged.
    pub fn serve_request(&mut self, oid: &Oid, ctx: Option<crate::oid::Context>, req: Vec<u8>) -> (r:
        Option<Vec<u8>>)
        requires
            old(self).wf(),
        ensures
            final(self).wf(),
            final(self).reports() == old(self).reports(),
            final(self).spec_watch() == old(self).spec_watch(),
            final(self).enrolled() == old(self).enrolled(),
            final(self).max() == old(self).max(),
            final(self).evicts_on_add() == old(self).evicts_on_add(),
            final(self).hist() == old(self).hist(),
            (r is Some) <==> (old(self).live().contains_key(oid@) || (old(
                self,
            ).frozen().contains_key(oid@) && old(self).enrolled().contains(oid@.category))),
            r is None ==> final(self).live() == old(self).live() && final(self).lru() == old(
                self,
            ).lru() && final(self).frozen() == old(self).frozen(),
            r is Some ==> final(self).live().contains_key(oid@),
            old(self).live().contains_key(oid@) ==> ({
                let ctxv = (match ctx {
                    Some(ref c) => Some(c@),
                    None => None,
                });
                &&& final(self).live().dom() == old(self).live().dom()
                &&& forall|k: OidView|
                    k != oid@ && old(self).live().contains_key(k) ==> final(self).live()[k] == old(
                        self,
                    ).live()[k]
                &&& final(self).frozen() == old(self).frozen()
                &&& (old(self).live()[oid@].node is Some ==> final(self).lru() == seq![oid@] + old(
                    self,
                ).lru().remove(old(self).lru().index_of(oid@)))
                &&& (old(self).live()[oid@].node is None ==> final(self).lru() == old(self).lru())
                &&& (r matches Some(b) && b@ == old(self).live()[oid@].servant.serve_result(
                    ctxv,
                    req@,
                ))
                &&& final(self).live()[oid@].servant == old(
                    self,
                ).live()[oid@].servant.serve_update(ctxv, req@)
            }),
            (!old(self).live().contains_key(oid@) && old(self).frozen().contains_key(oid@) && old(
                self,
            ).enrolled().contains(oid@.category)) ==> (exists|s: <R as Rehydrator>::Output|
                {
                    let ctxv = (match ctx {
                        Some(ref c) => Some(c@),
                        None => None,
                    });
                    &&& s.spec_name() == oid@.name
                    &&& s.serializable()
                    &&& (#[trigger] s.dump_bytes()) == old(self).frozen()[oid@]
                    &&& (r matches Some(b) && b@ == s.serve_result(ctxv, req@))
                    &&& final(self).live().contains_key(oid@)
                    &&& final(self).live()[oid@].servant == s.serve_update(ctxv, req@)
                }),
    {
        let found = self.find_servant(oid);
        if !found {
            return None;
        }
        let ghost mid = *self;
        proof {
            lemma_oid_map_contains(mid.servants@, oid@);
        }
        let idx_opt = oid_find(&self.servants, oid);
        proof {
            if idx_opt is None {
                let j = choose|j: int|
                    0 <= j < mid.servants@.len() && (#[trigger] mid.servants@[j].0@) == oid@;
                assert(self.servants@[j].0@ == oid@);
                assert(false);
            }
        }
        let i = idx_opt.unwrap();
        proof {
            lemma_oid_map_index(mid.servants@, i as int);
            lemma_oid_map_remove(mid.servants@, i as int);
        }
        let ghost ctxv = (match ctx {
            Some(ref c) => Some(c@),
            None => None,
        });
        let ghost reqv = req@;
        let mut entry = self.servants.remove(i);
        let ghost target = entry.1.servant;
        let out = entry.1.servant.serve(ctx, req);
        proof {
            assert(out@ == target.serve_result(ctxv, reqv));
            assert(entry.1.servant == target.serve_update(ctxv, reqv));
        }
        self.servants.push(entry);
        proof {
            let now = self.servants@;
            assert forall|j1: int, j2: int|
                0 <= j1 < now.len() && 0 <= j2 < now.len() && j1 != j2 implies (
            #[trigger] now[j1].0@) != (#[trigger] now[j2].0@) by {
                let o1 = if j1 == now.len() - 1 {
                    i as int
                } else if j1 < i {
                    j1
                } else {
                    j1 + 1
                };
                let o2 = if j2 == now.len() - 1 {
                    i as int
                } else if j2 < i {
                    j2
                } else {
                    j2 + 1
                };
                assert(now[j1].0@ == mid.servants@[o1].0@ && now[j2].0@ == mid.servants@[o2].0@);
            }
            lemma_oid_map_push(mid.servants@.remove(i as int), now.last().0, now.last().1);
            assert(self.live() =~= mid.live().insert(oid@, now.last().1));
            assert forall|j: int| 0 <= j < now.len() implies {
                let e = #[trigger] now[j];
                match e.1.node {
                    Some(q) => e.1.servant.serializable() && self.evictor.valid(q)
                        && self.evictor@[self.evictor.pos(q)]@ == e.0@,
                    None => !e.1.servant.serializable(),
                }
            } by {
                let o = if j == now.len() - 1 {
                    i as int
                } else if j < i {
                    j
                } else {
                    j + 1
                };
                let e = now[j];
                assert(e.0@ == mid.servants@[o].0@ && e.1.node == mid.servants@[o].1.node
                    && e.1.servant.serializable() == mid.servants@[o].1.servant.serializable());
            }
            assert forall|k: int| 0 <= k < self.evictor@.len() implies self.live().contains_key((
                #[trigger] self.evictor@[k])@) && self.live()[self.evictor@[k]@].node is Some by {
                assert(mid.live().contains_key(self.evictor@[k]@));
                if self.evictor@[k]@ == oid@ {
                    assert(self.live()[oid@] == now.last().1);
                    assert(mid.live()[oid@] == mid.servants@[i as int].1);
                    assert(now.last().1.node == mid.servants@[i as int].1.node);
                }
            }
            assert forall|k: OidView| #[trigger] self.frozen().contains_key(k) implies
                !self.live().contains_key(k) by {
                assert(!mid.live().contains_key(k));
                if k == oid@ {
                    assert(mid.live().contains_key(oid@));
                }
            }
            assert(self.live().dom() =~= mid.live().dom());
            assert forall|k: OidView| k != oid@ && mid.live().contains_key(k) implies
                self.live()[k] == mid.live()[k] by {}
        }
        Some(out)
    }

}
/// Residency: the ids on the evictor list are live, the passivated ids
/// are not live, together they are exactly the serializable ids ever
/// registered, and — when the register evicts on registration and has a
/// positive capacity — the evictor list never exceeds that capacity.
pub proof fn law_residency<P: ReportServant, W: WatchServant, R: Rehydrator>(
    r: &ServantRegister<P, W, R>,
)
    requires
        r.wf(),
    ensures
        r.hist() == r.lru_set().union(r.frozen().dom()),
        forall|k: OidView| r.lru_set().contains(k) ==> #[trigger] r.live().contains_key(k),
        forall|k: OidView| #[trigger] r.frozen().contains_key(k) ==> !r.live().contains_key(k),
        r.evicts_on_add() && r.max() > 0 ==> r.lru().len() <= r.max(),
{
    assert forall|k: OidView| r.lru_set().contains(k) implies #[trigger] r.live().contains_key(
        k,
    ) by {
        let i = choose|i: int| 0 <= i < r.lru().len() && r.lru()[i] == k;
        assert(r.lru()[i] == r.evictor@[i]@);
        assert(r.live().contains_key(r.evictor@[i]@));
    }
}

/// A serializable servant once registered stays resident: as long as
/// its id is in the history, it is live or passivated — so a lookup by
/// `find_servant` succeeds, directly or by rehydration, whatever
/// evictions ran in between.
pub proof fn law_registered_is_resident<P: ReportServant, W: WatchServant, R: Rehydrator>(
    r: &ServantRegister<P, W, R>,
    key: OidView,
)
    requires
        r.wf(),
        r.hist().contains(key),
    ensures
        r.live().contains_key(key) || r.frozen().contains_key(key),
{
    law_residency(r);
    if r.lru_set().contains(key) {
        assert(r.live().contains_key(key));
    } else {
        assert(r.frozen().dom().contains(key));
    }
}

/// Promotion moves the sought id to the head of the LRU order and keeps
/// the length; promoting anything but the tail leaves the tail — the
/// least recently used id — in place.  `find_servant` establishes
/// exactly this shape for a live serializable id.
pub proof fn law_promote_to_head(pre: Seq<OidView>, post: Seq<OidView>, key: OidView, k: int)
    requires
        0 <= k < pre.len(),
        pre[k] == key,
        post == seq![key] + pre.remove(k),
    ensures
        post.len() == pre.len(),
        post[0] == key,
        k != pre.len() - 1 ==> post[post.len() - 1] == pre[pre.len() - 1],
{
    if k != pre.len() - 1 {
        assert(post[post.len() - 1] == pre.remove(k)[pre.len() - 2]);
    }
}

} // verus!
