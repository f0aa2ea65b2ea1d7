//! The factory endpoint: builds servants by category on request and
//! registers them.

use vstd::prelude::*;

use crate::oid::Context;
use crate::oid::Oid;
use crate::oid::OidView;
use crate::oid::ServantError;
use crate::registry::ServantRegister;
use crate::servant::Rehydrator;
use crate::servant::ReportServant;
use crate::servant::Servant;
use crate::servant::WatchServant;
use crate::table::lemma_str_map_contains;
use crate::table::lemma_str_map_push;
use crate::table::str_find;
use crate::table::str_keys_distinct;
use crate::table::str_map;

verus! {

/// The interface of the factory endpoint, for generated proxies.
pub trait Factory: Sized {
    fn create(&mut self, ctx: Option<Context>, name: String, category: String) -> Result<
        Oid,
        ServantError,
    >;
}

/// Builds a fresh servant of one category from a name.
pub trait Creator: Sized {
    type Output: Servant;

    fn make(&self, name: &str) -> (r: Self::Output)
        ensures
            r.spec_name() == name@,
    ;
}

/// The factory: per-category creators, enrolled once each.
pub struct FactoryEntity<B> {
    creators: Vec<(String, B)>,
}

impl<B: Creator> FactoryEntity<B> {
    /// The categories with an enrolled creator.
    pub closed spec fn categories(&self) -> Set<Seq<char>> {
        str_map(self.creators@).dom()
    }

    pub closed spec fn wf(&self) -> bool {
        str_keys_distinct(self.creators@)
    }

    pub fn new() -> (r: Self)
        ensures
            r.wf(),
            r.categories() == Set::<Seq<char>>::empty(),
    {
        let r = FactoryEntity { creators: Vec::new() };
        proof {
            assert(r.categories() =~= Set::<Seq<char>>::empty());
        }
        r
    }

    /// Enrolls a creator for one category; a second enrollment of the
    /// same category is refused.
    pub fn enroll(&mut self, category: &str, builder: B) -> (r: Result<(), ServantError>)
        requires
            old(self).wf(),
        ensures
            final(self).wf(),
            !old(self).categories().contains(category@) ==> r is Ok && final(self).categories()
                == old(self).categories().insert(category@),
            old(self).categories().contains(category@) ==> r is Err && final(self).categories()
                == old(self).categories(),
    {
        let key: String = category.to_owned();
        let ghost pre = self.creators@;
        proof {
            lemma_str_map_contains(pre, key@);
        }
        match str_find(&self.creators, &key) {
            Some(_) => Err(ServantError::other("category is duplicate in factory")),
            None => {
                self.creators.push((key, builder));
                proof {
                    lemma_str_map_push(pre, self.creators@.last().0, self.creators@.last().1);
                    assert forall|j1: int, j2: int|
                        0 <= j1 < self.creators@.len() && 0 <= j2 < self.creators@.len() && j1 != j2
                        implies (#[trigger] self.creators@[j1].0@) != (
                    #[trigger] self.creators@[j2].0@) by {
                        if j1 == self.creators@.len() - 1 {
                            assert(pre[j2] == self.creators@[j2]);
                        } else if j2 == self.creators@.len() - 1 {
                            assert(pre[j1] == self.creators@[j1]);
                        } else {
                            assert(pre[j1] == self.creators@[j1]);
                            assert(pre[j2] == self.creators@[j2]);
                        }
                    }
                }
                Ok(())
            },
        }
    }

    /// Builds a servant of `category` named `name` and registers it with
    /// `sr`; as the original did, a registration refusal (a duplicate
    /// id) is ignored and the id is handed back regardless.  A category
    /// without a creator is an error.
    pub fn create<P: ReportServant, W: WatchServant, R: Rehydrator<Output = <B as Creator>::Output>>(
        &self,
        sr: &mut ServantRegister<P, W, R>,
        name: &str,
        category: &str,
    ) -> (r: Result<Oid, ServantError>)
        requires
            self.wf(),
            old(sr).wf(),
        ensures
            final(sr).wf(),
            (r is Ok) == self.categories().contains(category@),
            r matches Ok(oid) ==> oid@ == (OidView { name: name@, category: category@ }),
            r is Err ==> *final(sr) == *old(sr),
            ({
                let key = OidView { name: name@, category: category@ };
                let occupied = old(sr).live().contains_key(key) || old(sr).frozen().contains_key(
                    key,
                );
                &&& (r is Ok && !occupied) ==> final(sr).live().contains_key(key) && final(sr).live()[key].servant.spec_name() == name@
                &&& (r is Ok && occupied) ==> final(sr).live() == old(sr).live() && final(sr).lru() == old(sr).lru() && final(sr).frozen() == old(sr).frozen() && final(sr).hist() == old(sr).hist()
            }),
    {
        let key: String = category.to_owned();
        proof {
            lemma_str_map_contains(self.creators@, key@);
        }
        match str_find(&self.creators, &key) {
            None => Err(ServantError::other("create fn doesn't exist in factory")),
            Some(i) => {
                let oid = Oid::new(name, category);
                let entity = self.creators[i].1.make(name);
                let _ = sr.add_servant(category, entity);
                Ok(oid)
            },
        }
    }
}

} // verus!
