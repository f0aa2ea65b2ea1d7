//! The help endpoint: a read-only catalogue of texts, fit to stand
//! behind the watch servant.

use vstd::prelude::*;

use crate::table::lemma_str_map_contains;
use crate::table::lemma_str_map_index;
use crate::table::str_find;
use crate::table::str_keys_distinct;
use crate::table::str_map;

verus! {

/// The interface of the help endpoint, for generated proxies.
pub trait Help: Sized {
    fn about(&self) -> String;

    fn readme(&self) -> String;

    fn version(&self) -> String;

    fn list(&self) -> Vec<String>;

    fn help(&self, key: String) -> Option<String>;
}

/// The texts the help endpoint serves.
pub struct HelpData {
    pub name: String,
    pub about: String,
    pub readme: String,
    pub version: String,
    pub context: Vec<(String, String)>,
}

pub struct HelpEntity {
    h: HelpData,
}

impl HelpEntity {
    pub closed spec fn spec_about(&self) -> Seq<char> {
        self.h.about@
    }

    pub closed spec fn spec_readme(&self) -> Seq<char> {
        self.h.readme@
    }

    pub closed spec fn spec_version(&self) -> Seq<char> {
        self.h.version@
    }

    /// The catalogue of help texts, by key.
    pub closed spec fn entries(&self) -> Map<Seq<char>, String> {
        str_map(self.h.context@)
    }

    pub closed spec fn wf(&self) -> bool {
        str_keys_distinct(self.h.context@)
    }

    pub fn new(h: HelpData) -> (r: Self)
        requires
            str_keys_distinct(h.context@),
        ensures
            r.wf(),
            r.spec_about() == h.about@,
            r.spec_readme() == h.readme@,
            r.spec_version() == h.version@,
            r.entries() == str_map(h.context@),
    {
        HelpEntity { h }
    }
}

impl Help for HelpEntity {
    fn about(&self) -> (r: String)
        ensures
            r@ == self.spec_about(),
    {
        self.h.about.clone()
    }

    fn readme(&self) -> (r: String)
        ensures
            r@ == self.spec_readme(),
    {
        self.h.readme.clone()
    }

    fn version(&self) -> (r: String)
        ensures
            r@ == self.spec_version(),
    {
        self.h.version.clone()
    }

    /// The keys of the catalogue.
    fn list(&self) -> (r: Vec<String>)
        ensures
            forall|i: int| 0 <= i < r@.len() ==> self.entries().contains_key((#[trigger] r@[i])@),
    {
        let mut out: Vec<String> = Vec::new();
        let mut i: usize = 0;
        while i < self.h.context.len()
            invariant
                i <= self.h.context@.len(),
                forall|j: int|
                    0 <= j < out@.len() ==> self.entries().contains_key((#[trigger] out@[j])@),
            decreases self.h.context@.len() - i,
        {
            proof {
                lemma_str_map_contains(self.h.context@, self.h.context@[i as int].0@);
            }
            out.push(self.h.context[i].0.clone());
            i = i + 1;
        }
        out
    }

    /// The text stored under `key`, if any.
    fn help(&self, key: String) -> (r: Option<String>)
        ensures
            self.wf() ==> (match r {
                Some(v) => self.entries().contains_key(key@) && v@ == self.entries()[key@]@,
                None => !self.entries().contains_key(key@),
            }),
    {
        proof {
            lemma_str_map_contains(self.h.context@, key@);
        }
        match str_find(&self.h.context, &key) {
            None => None,
            Some(i) => {
                proof {
                    if str_keys_distinct(self.h.context@) {
                        lemma_str_map_index(self.h.context@, i as int);
                    }
                }
                Some(self.h.context[i].1.clone())
            },
        }
    }
}

} // verus!
