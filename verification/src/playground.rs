//! A scratch corner: a tiny owner-and-records exercise, kept as an
//! executable check that a flat record store can be built up and handed to
//! an owner in one move.

use vstd::prelude::*;

verus! {

/// One record.
pub struct C {}

/// A flat store of records, keyed by small integers.
pub struct B {
    pub s: Vec<(i32, C)>,
}

/// An owner of one store.
pub struct A {
    pub data: B,
}

impl A {
    /// Builds a store, files one record under a key, and hands the store to
    /// an owner.
    pub fn test() -> (a: A)
        ensures
            a.data.s@.len() == 1,
            a.data.s@[0].0 == 3,
    {
        let s: Vec<(i32, C)> = Vec::new();
        let mut b = B { s };
        let c = C {};
        b.s.push((3, c));
        A { data: b }
    }
}

} // verus!
