//! Small general helpers.

use vstd::prelude::*;

verus! {

/// Turns a boolean into an option, eagerly or lazily.
pub trait BoolToOption: Sized {
    /// The boolean the receiver stands for.
    spec fn truth(&self) -> bool;

    fn then_some2<T>(self, t: T) -> (r: Option<T>)
        ensures
            self.truth() ==> r == Some(t),
            !self.truth() ==> r is None,
    ;

    fn then2<T, F: FnOnce() -> T>(self, f: F) -> (r: Option<T>)
        requires
            self.truth() ==> call_requires(f, ()),
        ensures
            !self.truth() ==> r is None,
            self.truth() ==> (r matches Some(v) && call_ensures(f, (), v)),
    ;
}

impl BoolToOption for bool {
    open spec fn truth(&self) -> bool {
        *self
    }

    fn then_some2<T>(self, t: T) -> (r: Option<T>) {
        if self {
            Some(t)
        } else {
            None
        }
    }

    fn then2<T, F: FnOnce() -> T>(self, f: F) -> (r: Option<T>) {
        if self {
            Some(f())
        } else {
            None
        }
    }
}

} // verus!
