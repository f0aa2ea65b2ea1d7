//! The optional SQL-backed passivation store.
//!
//! A placeholder, as the original kept it: the in-memory store is the
//! reference implementation, and a database-backed one may stand in for
//! it without the registry noticing.

use vstd::prelude::*;

verus! {

pub struct SqliteDb {}

impl SqliteDb {
    pub fn new(file_name: &str) -> (r: Self) {
        let _ = file_name;
        SqliteDb {  }
    }
}

} // verus!
