//! Symbols: small copyable handles that stand for a position in an interner.

use vstd::prelude::*;

verus! {

/// A handle that converts losslessly to and from a zero-based count.
///
/// A symbol type represents the counts `0 .. limit()`; two symbols with the
/// same count are the same symbol.
pub trait Symbol: Copy + Sized {
    /// The count this symbol stands for.
    spec fn count(self) -> nat;

    /// How many counts the type can represent: exactly those below the limit.
    spec fn limit() -> nat;

    /// The symbol for the count `n`.
    fn from_usize(n: usize) -> (sym: Self)
        requires
            (n as nat) < Self::limit(),
        ensures
            sym.count() == n as nat,
    ;

    /// The count of this symbol.
    fn to_usize(self) -> (n: usize)
        ensures
            n as nat == self.count(),
            self.count() < Self::limit(),
    ;

    /// Symbols are determined by their counts.
    proof fn count_is_injective(a: Self, b: Self)
        requires
            a.count() == b.count(),
        ensures
            a == b,
    ;
}

/// The default symbol: a 32-bit index.
#[derive(Debug, Clone, Copy, PartialEq, Eq, PartialOrd, Ord, Hash)]
pub struct Sym {
    index: u32,
}

/// The symbol type used when none is named.
pub type DefaultSymbol = Sym;

impl Symbol for Sym {
    open spec fn count(self) -> nat {
        self.raw() as nat
    }

    open spec fn limit() -> nat {
        0x1_0000_0000
    }

    fn from_usize(n: usize) -> (sym: Self) {
        Sym { index: n as u32 }
    }

    fn to_usize(self) -> (n: usize) {
        self.index as usize
    }

    proof fn count_is_injective(a: Self, b: Self) {
    }
}

impl Sym {
    /// The stored index.
    pub closed spec fn raw(self) -> u32 {
        self.index
    }
}

impl Symbol for usize {
    open spec fn count(self) -> nat {
        self as nat
    }

    open spec fn limit() -> nat {
        usize::MAX as nat + 1
    }

    fn from_usize(n: usize) -> (sym: Self) {
        n
    }

    fn to_usize(self) -> (n: usize) {
        self
    }

    proof fn count_is_injective(a: Self, b: Self) {
    }
}

} // verus!
