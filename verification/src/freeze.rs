//! The passivation store ("freeze").
//!
//! Dumped servant bytes live here while their object id is not in the
//! live map.  A backing [`Storage`] keeps the bytes; per-category
//! [`Rehydrator`]s rebuild servants on demand.  Loading a present id
//! consumes its bytes, so an id is never live and passivated at once.

use vstd::prelude::*;

use crate::oid::Oid;
use crate::oid::OidView;
use crate::oid::ServantError;
use crate::servant::Rehydrator;
use crate::servant::Servant;
use crate::table::lemma_str_map_contains;
use crate::table::lemma_str_map_push;
use crate::table::str_find;
use crate::table::str_keys_distinct;
use crate::table::str_map;
use crate::table::lemma_oid_map_contains;
use crate::table::lemma_oid_map_index;
use crate::table::lemma_oid_map_push;
use crate::table::lemma_oid_map_remove;
use crate::table::oid_find;
use crate::table::oid_keys_distinct;
use crate::table::oid_map;

verus! {

/// An abstract store of dumped bytes, keyed by object id.  `load`
/// consumes the stored entry.
pub trait Storage: Sized {
    /// The bytes the store holds, by object id.
    spec fn contents(&self) -> Map<OidView, Seq<u8>>;

    /// The store's own well-formedness.
    spec fn inv(&self) -> bool;

    /// Must not fail: the registry passivates through this call and has
    /// no way to keep the servant on an error.  A fallible backing store
    /// has to queue or abort internally.
    fn store(&mut self, oid: &Oid, bytes: &Vec<u8>) -> (r: Result<(), ServantError>)
        requires
            old(self).inv(),
        ensures
            final(self).inv(),
            r is Ok,
            final(self).contents() == old(self).contents().insert(oid@, bytes@),
    ;

    fn load(&mut self, oid: &Oid) -> (r: Result<Vec<u8>, ServantError>)
        requires
            old(self).inv(),
        ensures
            final(self).inv(),
            old(self).contents().contains_key(oid@) ==> (r matches Ok(b) && b@ == old(
                self,
            ).contents()[oid@]) && final(self).contents() == old(self).contents().remove(oid@),
            !old(self).contents().contains_key(oid@) ==> r is Err && final(self).contents() == old(
                self,
            ).contents(),
    ;

    fn has(&self, oid: &Oid) -> (r: bool)
        requires
            self.inv(),
        ensures
            r == self.contents().contains_key(oid@),
    ;
}

/// The reference in-memory store: an association vector from object id
/// to bytes.
pub struct MemoryDb {
    entries: Vec<(Oid, Vec<u8>)>,
}

impl MemoryDb {
    pub fn new() -> (r: Self)
        ensures
            r.inv(),
            r.contents() == Map::<OidView, Seq<u8>>::empty(),
    {
        let r = MemoryDb { entries: Vec::new() };
        proof {
            assert(r.contents() =~= Map::<OidView, Seq<u8>>::empty());
        }
        r
    }
}

impl Storage for MemoryDb {
    closed spec fn contents(&self) -> Map<OidView, Seq<u8>> {
        oid_map(self.entries@).map_values(|v: Vec<u8>| v@)
    }

    closed spec fn inv(&self) -> bool {
        oid_keys_distinct(self.entries@)
    }

    /// Always succeeds; an already-present id is overwritten.
    fn store(&mut self, oid: &Oid, bytes: &Vec<u8>) -> (r: Result<(), ServantError>)
        ensures
            r is Ok,
    {
        let ghost pre = self.entries@;
        match oid_find(&self.entries, oid) {
            Some(i) => {
                proof {
                    lemma_oid_map_remove(pre, i as int);
                }
                let _ = self.entries.remove(i);
            },
            None => {
            },
        }
        let ghost mid = self.entries@;
        self.entries.push((oid.clone(), vstd::slice::slice_to_vec(bytes.as_slice())));
        proof {
            lemma_oid_map_push(mid, self.entries@.last().0, self.entries@.last().1);
            assert(self.entries@.drop_last() =~= mid);
            assert forall|j1: int, j2: int|
                0 <= j1 < self.entries@.len() && 0 <= j2 < self.entries@.len() && j1 != j2 implies (
            #[trigger] self.entries@[j1].0@) != (#[trigger] self.entries@[j2].0@) by {
                if j1 == self.entries@.len() - 1 {
                    assert(mid[j2] == self.entries@[j2]);
                    if mid[j2].0@ == oid@ {
                        lemma_oid_map_contains(mid, oid@);
                        lemma_oid_map_contains(pre, oid@);
                    }
                } else if j2 == self.entries@.len() - 1 {
                    assert(mid[j1] == self.entries@[j1]);
                    if mid[j1].0@ == oid@ {
                        lemma_oid_map_contains(mid, oid@);
                        lemma_oid_map_contains(pre, oid@);
                    }
                } else {
                    assert(mid[j1] == self.entries@[j1] && mid[j2] == self.entries@[j2]);
                }
            }
            assert(self.contents() =~= old(self).contents().insert(oid@, bytes@));
        }
        Ok(())
    }

    fn has(&self, oid: &Oid) -> (r: bool) {
        proof {
            lemma_oid_map_contains(self.entries@, oid@);
        }
        oid_find(&self.entries, oid).is_some()
    }

    /// Yields and removes the stored bytes; a missing id is an error.
    fn load(&mut self, oid: &Oid) -> (r: Result<Vec<u8>, ServantError>) {
        let ghost pre = self.entries@;
        proof {
            lemma_oid_map_contains(pre, oid@);
        }
        match oid_find(&self.entries, oid) {
            Some(i) => {
                proof {
                    lemma_oid_map_index(pre, i as int);
                    lemma_oid_map_remove(pre, i as int);
                }
                let entry = self.entries.remove(i);
                proof {
                    assert(self.contents() =~= old(self).contents().remove(oid@));
                }
                Ok(entry.1)
            },
            None => Err(ServantError::other("doesn't exist in db.")),
        }
    }
}

/// The passivation front end: a backing store plus the enrolled
/// per-category rehydrators.
pub struct Freeze<D, R> {
    rehydrators: Vec<(String, R)>,
    db: D,
}

impl<D: Storage, R: Rehydrator> Freeze<D, R> {
    /// The categories with an enrolled rehydrator.
    pub closed spec fn categories(&self) -> Set<Seq<char>> {
        str_map(self.rehydrators@).dom()
    }

    /// The stored bytes, by object id.
    pub closed spec fn frozen(&self) -> Map<OidView, Seq<u8>> {
        self.db.contents()
    }

    pub closed spec fn wf(&self) -> bool {
        str_keys_distinct(self.rehydrators@) && self.db.inv()
    }

    pub fn new(db: D) -> (r: Self)
        requires
            db.inv(),
        ensures
            r.wf(),
            r.frozen() == db.contents(),
            r.categories() == Set::<Seq<char>>::empty(),
    {
        let r = Freeze { rehydrators: Vec::new(), db };
        proof {
            assert(r.categories() =~= Set::<Seq<char>>::empty());
        }
        r
    }

    /// Enrolls a rehydrator for one category; a second enrollment of the
    /// same category is refused.
    pub fn enroll(&mut self, category: &str, builder: R) -> (r: Result<(), ServantError>)
        requires
            old(self).wf(),
        ensures
            final(self).wf(),
            final(self).frozen() == old(self).frozen(),
            !old(self).categories().contains(category@) ==> r is Ok && final(self).categories()
                == old(self).categories().insert(category@),
            old(self).categories().contains(category@) ==> r is Err && final(self).categories()
                == old(self).categories(),
    {
        let ghost pre = self.rehydrators@;
        let key: String = category.to_owned();
        proof {
            lemma_str_map_contains(pre, category@);
        }
        match str_find(&self.rehydrators, &key) {
            Some(_) => Err(ServantError::other("category is duplicate in freeze")),
            None => {
                self.rehydrators.push((key, builder));
                proof {
                    lemma_str_map_push(pre, self.rehydrators@.last().0, self.rehydrators@.last().1);
                    assert forall|j1: int, j2: int|
                        0 <= j1 < self.rehydrators@.len() && 0 <= j2 < self.rehydrators@.len() && j1
                            != j2 implies (#[trigger] self.rehydrators@[j1].0@) != (
                    #[trigger] self.rehydrators@[j2].0@) by {
                        if j1 == self.rehydrators@.len() - 1 {
                            assert(pre[j2] == self.rehydrators@[j2]);
                        } else if j2 == self.rehydrators@.len() - 1 {
                            assert(pre[j1] == self.rehydrators@[j1]);
                        } else {
                            assert(pre[j1] == self.rehydrators@[j1]);
                            assert(pre[j2] == self.rehydrators@[j2]);
                        }
                    }
                }
                Ok(())
            },
        }
    }

    /// Hands dumped bytes to the backing store.
    pub fn store(&mut self, oid: &Oid, bytes: &Vec<u8>) -> (r: Result<(), ServantError>)
        requires
            old(self).wf(),
        ensures
            final(self).wf(),
            final(self).categories() == old(self).categories(),
            r is Ok,
            final(self).frozen() == old(self).frozen().insert(oid@, bytes@),
    {
        self.db.store(oid, bytes)
    }

    /// Whether a rehydrator is enrolled for `category`.
    pub fn is_enrolled(&self, category: &str) -> (r: bool)
        requires
            self.wf(),
        ensures
            r == self.categories().contains(category@),
    {
        let key: String = category.to_owned();
        proof {
            lemma_str_map_contains(self.rehydrators@, key@);
        }
        str_find(&self.rehydrators, &key).is_some()
    }

    /// Whether bytes are stored under `oid`.
    pub fn has_frozen(&self, oid: &Oid) -> (r: bool)
        requires
            self.wf(),
        ensures
            r == self.frozen().contains_key(oid@),
    {
        self.db.has(oid)
    }

    /// Rebuilds the servant stored under `oid`, consuming its bytes:
    /// the result carries the id's name and dumps back to exactly the
    /// stored bytes.  Without an enrolled rehydrator for the category,
    /// or without stored bytes, nothing changes and `None` comes back.
    pub fn load(&mut self, oid: &Oid) -> (r: Option<<R as Rehydrator>::Output>)
        requires
            old(self).wf(),
        ensures
            final(self).wf(),
            final(self).categories() == old(self).categories(),
            (old(self).categories().contains(oid@.category) && old(self).frozen().contains_key(
                oid@,
            )) ==> (r matches Some(s) && s.spec_name() == oid@.name && s.serializable()
                && s.dump_bytes() == old(self).frozen()[oid@]) && final(self).frozen() == old(
                self,
            ).frozen().remove(oid@),
            !(old(self).categories().contains(oid@.category) && old(self).frozen().contains_key(
                oid@,
            )) ==> r is None && final(self).frozen() == old(self).frozen(),
    {
        let key: String = oid.category().to_owned();
        proof {
            lemma_str_map_contains(self.rehydrators@, key@);
        }
        match str_find(&self.rehydrators, &key) {
            None => None,
            Some(idx) => {
                match self.db.load(oid) {
                    Ok(bytes) => {
                        let built = self.rehydrators[idx].1.build(oid.name(), &bytes);
                        Some(built)
                    },
                    Err(_) => None,
                }
            },
        }
    }
}

} // verus!
