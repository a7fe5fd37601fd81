//! `==` on interners: the same strings in the same order.

use crate::interner::StringInterner;
use crate::symbol::Symbol;
use core::hash::BuildHasher;
use vstd::prelude::*;
use vstd::std_specs::cmp::PartialEqSpecImpl;

verus! {

impl<S: Symbol, H: BuildHasher> PartialEq for StringInterner<S, H> {
    fn eq(&self, other: &Self) -> (equal: bool) {
        self.same_contents(other)
    }
}

impl<S: Symbol, H: BuildHasher> PartialEqSpecImpl for StringInterner<S, H> {
    open spec fn obeys_eq_spec() -> bool {
        true
    }

    open spec fn eq_spec(&self, other: &Self) -> bool {
        self@ == other@
    }
}

impl<S: Symbol, H: BuildHasher> Eq for StringInterner<S, H> {
}

} // verus!
