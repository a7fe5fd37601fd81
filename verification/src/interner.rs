//! The interner: an arena of owned strings and an index over it, kept in
//! step behind one set of operations.

use crate::arena::Arena;
use crate::index::Index;
use crate::model::{
    intern_all, interned, lemma_intern_all_grows, lemma_intern_all_one, lemma_intern_all_split,
    lookup, resolved, Contents,
};
use crate::symbol::{DefaultSymbol, Symbol};
use core::hash::BuildHasher;
use std::collections::hash_map::RandomState;
use vstd::prelude::*;
use vstd::std_specs::hash::builds_valid_hashers;

verus! {

/// The smaller of two capacities.
pub fn smaller_capacity(first: usize, second: usize) -> (least: usize)
    ensures
        least <= first,
        least <= second,
        least == first || least == second,
{
    if first <= second {
        first
    } else {
        second
    }
}

/// The contents that a slice of strings stands for.
pub open spec fn text_views(texts: Seq<&str>) -> Seq<Seq<char>> {
    texts.map_values(|t: &str| t@)
}

/// Caches strings and associates each distinct one with a symbol.
///
/// The arena owns the strings, in the order of their first interning; a
/// symbol's count is a position in it. The index finds the symbol of a
/// given content.
#[derive(Debug)]
#[verifier::reject_recursive_types(S)]
#[verifier::reject_recursive_types(H)]
pub struct StringInterner<S: Symbol, H: BuildHasher = RandomState> {
    index: Index<S, H>,
    arena: Arena,
}

/// An interner that hands out the default symbol.
pub type DefaultStringInterner = StringInterner<DefaultSymbol>;

impl<S: Symbol, H: BuildHasher> View for StringInterner<S, H> {
    type V = Contents;

    closed spec fn view(&self) -> Contents {
        self.arena@
    }
}

impl<S: Symbol> StringInterner<S, RandomState> {
    /// Creates a new empty interner.
    pub fn new() -> (interner: Self)
        ensures
            interner.wf(),
            interner@ == Contents::empty(),
    {
        StringInterner { index: Index::new(), arena: Arena::new() }
    }

    /// Creates a new empty interner with room for `cap` strings.
    pub fn with_capacity(cap: usize) -> (interner: Self)
        ensures
            interner.wf(),
            interner@ == Contents::empty(),
    {
        StringInterner { index: Index::with_capacity(cap), arena: Arena::with_capacity(cap) }
    }

    /// Creates an interner that holds `texts`, interned in turn: each
    /// string gets the symbol that `get_or_intern` would have given it.
    pub fn from_iter(texts: &[&str]) -> (interner: Self)
        requires
            intern_all(Contents::empty(), text_views(texts@)).len() <= S::limit(),
        ensures
            interner.wf(),
            interner@ == intern_all(Contents::empty(), text_views(texts@)),
    {
        let mut interner = Self::with_capacity(texts.len());
        interner.extend(texts);
        interner
    }
}

impl Default for StringInterner<DefaultSymbol, RandomState> {
    fn default() -> (interner: Self)
        ensures
            interner.wf(),
            interner@ == Contents::empty(),
    {
        StringInterner::new()
    }
}

impl<S: Symbol, H: BuildHasher + Clone> Clone for StringInterner<S, H> {
    /// Copies every string into a new arena, with an index of its own. The
    /// copy shares nothing with the interner it was made from.
    fn clone(&self) -> (copy: Self)
        ensures
            copy@ == self@,
            self.wf() ==> copy.wf(),
            forall|count: nat| #[trigger] resolved(copy@, count) == resolved(self@, count),
            forall|text: Seq<char>| #[trigger] lookup(copy@, text) == lookup(self@, text),
    {
        StringInterner { index: self.index.clone(), arena: self.arena.clone() }
    }
}

impl<S: Symbol, H: BuildHasher> StringInterner<S, H> {
    /// The interner's invariant: the index is the index of the arena, no
    /// string is stored twice, and every position has a symbol.
    pub closed spec fn wf(&self) -> bool {
        &&& self.index.agrees_with(self.arena@)
        &&& self.arena@.no_duplicates()
        &&& self.arena@.len() <= S::limit()
    }

    /// A well-formed interner holds no string twice, and no more strings
    /// than its symbol type can name.
    pub proof fn lemma_wf_contents(&self)
        requires
            self.wf(),
        ensures
            self@.no_duplicates(),
            self@.len() <= S::limit(),
    {
    }

    /// Creates a new empty interner that hashes with `hash_builder`.
    ///
    /// The interner's contracts rest on the hash builder building hashers
    /// that give equal keys equal digests.
    pub fn with_hasher(hash_builder: H) -> (interner: Self)
        requires
            builds_valid_hashers::<H>(),
        ensures
            interner.wf(),
            interner@ == Contents::empty(),
    {
        StringInterner { index: Index::with_hasher(hash_builder), arena: Arena::new() }
    }

    /// Creates a new empty interner with room for `cap` strings in its
    /// arena, that hashes with `hash_builder`.
    pub fn with_capacity_and_hasher(cap: usize, hash_builder: H) -> (interner: Self)
        requires
            builds_valid_hashers::<H>(),
        ensures
            interner.wf(),
            interner@ == Contents::empty(),
    {
        StringInterner { index: Index::with_hasher(hash_builder), arena: Arena::with_capacity(cap) }
    }

    /// Returns the number of strings the interner can hold without
    /// reallocating: the smaller of what its index and its arena report.
    pub fn capacity(&self) -> (capacity: usize) {
        smaller_capacity(self.index.capacity(), self.arena.capacity())
    }

    /// Reserves room for at least `additional` more strings. The contents
    /// and every symbol stay as they are.
    pub fn reserve(&mut self, additional: usize)
        requires
            old(self).wf(),
        ensures
            final(self).wf(),
            final(self)@ == old(self)@,
    {
        self.index.reserve(additional);
        self.arena.reserve(additional);
    }

    /// Gives back unused capacity. The contents and every symbol stay as
    /// they are.
    pub fn shrink_to_fit(&mut self)
        requires
            old(self).wf(),
        ensures
            final(self).wf(),
            final(self)@ == old(self)@,
    {
        self.index.shrink_to_fit();
        self.arena.shrink_to_fit();
    }

    /// Forgets every string. Symbols handed out before resolve to nothing
    /// afterwards, and interning starts again at count zero.
    pub fn clear(&mut self)
        requires
            old(self).wf(),
        ensures
            final(self).wf(),
            final(self)@ == Contents::empty(),
            forall|count: nat| resolved(final(self)@, count) is None,
    {
        proof {
            self.index.lemma_hashers_valid(self.arena@);
        }
        self.index.clear();
        self.arena.clear();
    }

    /// Returns the number of uniquely interned strings.
    pub fn len(&self) -> (n: usize)
        ensures
            n == self@.len(),
    {
        self.arena.len()
    }

    /// Returns true if no string is interned.
    pub fn is_empty(&self) -> (empty: bool)
        ensures
            empty == (self@.len() == 0),
    {
        self.len() == 0
    }

    /// The symbol that the next new string will get.
    fn next_symbol(&self) -> (sym: S)
        requires
            self@.len() < S::limit(),
        ensures
            sym.count() == self@.len(),
    {
        S::from_usize(self.len())
    }

    /// Stores `text`, which is not interned yet, and files its new symbol
    /// in the index.
    fn intern(&mut self, text: &str) -> (sym: S)
        requires
            old(self).wf(),
            !old(self)@.contains(text@),
            old(self)@.len() < S::limit(),
        ensures
            final(self).wf(),
            final(self)@ == old(self)@.push(text@),
            sym.count() == old(self)@.len(),
    {
        let sym = self.next_symbol();
        self.arena.push(text);
        proof {
            assert(self.arena@.drop_last() =~= old(self).arena@);
        }
        self.index.record(&self.arena, sym);
        proof {
            let before = old(self)@;
            assert forall|i: int, j: int|
                0 <= i < self@.len() && 0 <= j < self@.len() && i != j implies self@[i]
                != self@[j] by {
                if i < before.len() && j < before.len() {
                    assert(before[i] != before[j]);
                } else if i < before.len() {
                    assert(before[i] != text@);
                } else {
                    assert(before[j] != text@);
                }
            }
        }
        sym
    }

    /// Interns `text` and returns its symbol: the one it already has, or
    /// the next free one. A new string needs a symbol that the symbol type
    /// can represent.
    pub fn get_or_intern(&mut self, text: &str) -> (sym: S)
        requires
            old(self).wf(),
            old(self)@.contains(text@) || old(self)@.len() < S::limit(),
        ensures
            final(self).wf(),
            final(self)@ == interned(old(self)@, text@),
            lookup(final(self)@, text@) == Some(sym.count() as int),
            resolved(final(self)@, sym.count()) == Some(text@),
            !old(self)@.contains(text@) ==> sym.count() == old(self)@.len(),
    {
        match self.index.probe(&self.arena, text) {
            Some(sym) => sym,
            None => self.intern(text),
        }
    }

    /// Returns the string of `symbol`, or `None` where the interner has
    /// handed out no such symbol.
    pub fn resolve(&self, symbol: S) -> (text: Option<&str>)
        ensures
            match text {
                Some(t) => resolved(self@, symbol.count()) == Some(t@),
                None => resolved(self@, symbol.count()) is None,
            },
    {
        self.arena.get(symbol.to_usize())
    }

    /// Returns the string of `symbol`, which the caller knows to be one
    /// that this interner handed out and has not cleared since.
    pub fn resolve_unchecked(&self, symbol: S) -> (text: &str)
        requires
            symbol.count() < self@.len(),
        ensures
            text@ == self@[symbol.count() as int],
    {
        self.arena.get_unchecked(symbol.to_usize())
    }

    /// Returns the symbol of `text`, if it is interned.
    pub fn get(&self, text: &str) -> (found: Option<S>)
        requires
            self.wf(),
        ensures
            match found {
                Some(sym) => lookup(self@, text@) == Some(sym.count() as int),
                None => lookup(self@, text@) is None,
            },
    {
        self.index.probe(&self.arena, text)
    }

    /// Tells whether two interners hold the same strings in the same
    /// order. The index is derived from the arena and takes no part.
    pub fn same_contents(&self, other: &Self) -> (same: bool)
        ensures
            same == (self@ == other@),
    {
        self.arena.same_contents(&other.arena)
    }

    /// Returns every symbol with its string, in ascending order of the
    /// symbols.
    pub fn iter(&self) -> (pairs: Vec<(S, &str)>)
        requires
            self.wf(),
        ensures
            pairs@.len() == self@.len(),
            forall|i: int|
                0 <= i < pairs@.len() ==> (#[trigger] pairs@[i]).0.count() == i && pairs@[i].1@
                    == self@[i],
    {
        let total = self.arena.len();
        let mut pairs: Vec<(S, &str)> = Vec::with_capacity(total);
        let mut at: usize = 0;
        while at < total
            invariant
                self.wf(),
                total == self@.len(),
                0 <= at <= total,
                pairs@.len() == at,
                forall|i: int|
                    0 <= i < at ==> (#[trigger] pairs@[i]).0.count() == i && pairs@[i].1@
                        == self@[i],
            decreases total - at,
        {
            pairs.push((S::from_usize(at), self.arena.get_unchecked(at)));
            at += 1;
        }
        pairs
    }

    /// Returns the interned strings in the order of their symbols.
    pub fn iter_values(&self) -> (texts: Vec<&str>)
        ensures
            texts@.len() == self@.len(),
            forall|i: int| 0 <= i < texts@.len() ==> (#[trigger] texts@[i])@ == self@[i],
    {
        self.arena.values()
    }

    /// Takes the interner apart: every symbol with its string, now owned by
    /// the caller, in ascending order of the symbols.
    pub fn into_iter(self) -> (pairs: Vec<(S, String)>)
        requires
            self.wf(),
        ensures
            pairs@.len() == self@.len(),
            forall|i: int|
                0 <= i < pairs@.len() ==> (#[trigger] pairs@[i]).0.count() == i && pairs@[i].1@
                    == self@[i],
    {
        let ghost contents = self@;
        let mut rest = self.arena.into_values();
        let total = rest.len();
        let mut stack: Vec<String> = Vec::with_capacity(total);
        while rest.len() > 0
            invariant
                rest@.len() + stack@.len() == total,
                total == contents.len(),
                forall|i: int| 0 <= i < rest@.len() ==> (#[trigger] rest@[i])@ == contents[i],
                forall|i: int|
                    0 <= i < stack@.len() ==> (#[trigger] stack@[i])@ == contents[total - 1 - i],
            decreases rest@.len(),
        {
            match rest.pop() {
                Some(text) => stack.push(text),
                None => {},
            }
        }
        let mut pairs: Vec<(S, String)> = Vec::with_capacity(total);
        while stack.len() > 0
            invariant
                pairs@.len() + stack@.len() == total,
                total == contents.len(),
                total <= S::limit(),
                forall|i: int|
                    0 <= i < stack@.len() ==> (#[trigger] stack@[i])@ == contents[total - 1 - i],
                forall|i: int|
                    0 <= i < pairs@.len() ==> (#[trigger] pairs@[i]).0.count() == i && pairs@[i].1@
                        == contents[i],
            decreases stack@.len(),
        {
            let at = pairs.len();
            match stack.pop() {
                Some(text) => pairs.push((S::from_usize(at), text)),
                None => {},
            }
        }
        pairs
    }

    /// Interns each of `texts` in turn, as repeated calls of
    /// `get_or_intern` would.
    pub fn extend(&mut self, texts: &[&str])
        requires
            old(self).wf(),
            intern_all(old(self)@, text_views(texts@)).len() <= S::limit(),
        ensures
            final(self).wf(),
            final(self)@ == intern_all(old(self)@, text_views(texts@)),
    {
        let mut at: usize = 0;
        assert(text_views(texts@).take(0) =~= Seq::<Seq<char>>::empty());
        while at < texts.len()
            invariant
                self.wf(),
                0 <= at <= texts@.len(),
                self@ == intern_all(old(self)@, text_views(texts@).take(at as int)),
                intern_all(old(self)@, text_views(texts@)).len() <= S::limit(),
            decreases texts@.len() - at,
        {
            proof {
                let all = text_views(texts@);
                assert(all.take(at + 1).drop_last() =~= all.take(at as int));
                assert(all.take(at + 1).last() == texts@[at as int]@);
                let one = seq![texts@[at as int]@];
                let rest = all.skip(at + 1);
                lemma_intern_all_one(self@, texts@[at as int]@);
                lemma_intern_all_split(self@, one, rest);
                lemma_intern_all_grows(interned(self@, texts@[at as int]@), rest);
                lemma_intern_all_split(old(self)@, all.take(at as int), one + rest);
                assert(all.take(at as int) + (one + rest) =~= all);
            }
            self.get_or_intern(texts[at]);
            at += 1;
        }
        assert(text_views(texts@).take(texts@.len() as int) =~= text_views(texts@));
    }
}

} // verus!
