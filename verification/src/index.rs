//! The index: from a string's content to its symbol. It files each symbol
//! under the hash of its string and holds no string itself; what a symbol
//! stands for is read from the arena.

use crate::arena::Arena;
use crate::model::Contents;
use crate::symbol::Symbol;
use core::hash::{BuildHasher, Hasher};
use std::collections::hash_map::{DefaultHasher, RandomState};
use std::collections::HashMap;
use vstd::prelude::*;
use vstd::std_specs::hash::{builds_valid_hashers, DefaultHasherAdditionalSpecFns};
use vstd::utf8::encode_utf8;

verus! {

/// The key under which a string's symbol is filed: the digest of its bytes.
pub open spec fn content_hash(text: Seq<char>) -> u64 {
    DefaultHasher::spec_finish(seq![encode_utf8(text)])
}

/// Computes the key of `text`.
pub fn hash_of(text: &str) -> (key: u64)
    ensures
        key == content_hash(text@),
{
    let mut hasher = DefaultHasher::new();
    hasher.write(text.as_bytes());
    proof {
        assert(hasher@ =~= seq![encode_utf8(text@)]);
    }
    hasher.finish()
}

/// `str`'s `==`: true exactly when the two strings hold the same characters.
#[verifier::external_body]
fn same_text(a: &str, b: &str) -> (same: bool)
    ensures
        same == (a@ == b@),
{
    a == b
}

/// `HashMap::with_hasher`: an empty map that will hash its keys with
/// `hash_builder`.
#[verifier::external_body]
fn empty_buckets<V, H: BuildHasher>(hash_builder: H) -> (fresh: HashMap<u64, V, H>)
    ensures
        fresh@.dom() == Set::<u64>::empty(),
{
    HashMap::with_hasher(hash_builder)
}

/// `HashMap::capacity`: how many entries the map can hold without
/// reallocating. The number is the allocator's; nothing is claimed of it.
#[verifier::external_body]
fn buckets_capacity<V, H: BuildHasher>(buckets: &HashMap<u64, V, H>) -> (capacity: usize) {
    buckets.capacity()
}

/// `HashMap::shrink_to_fit`: gives back unused capacity and leaves the
/// entries as they are.
#[verifier::external_body]
fn shrink_buckets<V, H: BuildHasher>(buckets: &mut HashMap<u64, V, H>)
    ensures
        final(buckets)@ == old(buckets)@,
{
    buckets.shrink_to_fit()
}

/// The symbols filed under `key`: none where there is no such key.
spec fn bucket_of<S>(buckets: Map<u64, Vec<S>>, key: u64) -> Seq<S> {
    if buckets.contains_key(key) {
        buckets[key]@
    } else {
        Seq::empty()
    }
}

/// Entry `j` of `bucket` is the symbol of position `at`.
spec fn bucket_holds<S: Symbol>(bucket: Seq<S>, j: int, at: int) -> bool {
    0 <= j < bucket.len() && bucket[j].count() == at
}

/// The string at position `at` has its symbol in the bucket of its hash.
spec fn filed<S: Symbol>(buckets: Map<u64, Vec<S>>, contents: Contents, at: int) -> bool {
    exists|j: int| bucket_holds(bucket_of(buckets, content_hash(contents[at])), j, at)
}

/// Entry `j` of the bucket of `key` names a string whose hash is `key`.
spec fn entry_sound<S: Symbol>(
    buckets: Map<u64, Vec<S>>,
    contents: Contents,
    key: u64,
    j: int,
) -> bool {
    let sym = bucket_of(buckets, key)[j];
    sym.count() < contents.len() && content_hash(contents[sym.count() as int]) == key
}

/// Every string is filed under its hash, and every entry names a string
/// with the hash it is filed under.
spec fn buckets_agree<S: Symbol>(buckets: Map<u64, Vec<S>>, contents: Contents) -> bool {
    &&& forall|at: int| 0 <= at < contents.len() ==> #[trigger] filed(buckets, contents, at)
    &&& forall|key: u64, j: int|
        0 <= j < bucket_of(buckets, key).len() ==> #[trigger] entry_sound(
            buckets,
            contents,
            key,
            j,
        )
}

/// Appending a string to the contents and its symbol to the bucket of its
/// hash keeps the two in agreement.
proof fn lemma_file_new<S: Symbol>(
    buckets: Map<u64, Vec<S>>,
    contents: Contents,
    text: Seq<char>,
    sym: S,
    bucket: Vec<S>,
)
    requires
        buckets_agree(buckets, contents),
        sym.count() == contents.len(),
        bucket@ == bucket_of(buckets, content_hash(text)).push(sym),
    ensures
        buckets_agree(buckets.insert(content_hash(text), bucket), contents.push(text)),
{
    let key = content_hash(text);
    let new_buckets = buckets.insert(key, bucket);
    let new_contents = contents.push(text);
    let last = bucket@.len() - 1;
    assert(bucket_of(new_buckets, key) == bucket@);
    assert(bucket@[last] == sym);
    assert forall|at: int| 0 <= at < new_contents.len() implies #[trigger] filed(
        new_buckets,
        new_contents,
        at,
    ) by {
        if at < contents.len() {
            let k = content_hash(contents[at]);
            assert(new_contents[at] == contents[at]);
            assert(filed(buckets, contents, at));
            let j = choose|j: int| bucket_holds(bucket_of(buckets, k), j, at);
            if k == key {
                assert(bucket@[j] == bucket_of(buckets, k)[j]);
            } else {
                assert(bucket_of(new_buckets, k) == bucket_of(buckets, k));
            }
            assert(bucket_holds(bucket_of(new_buckets, k), j, at));
        } else {
            assert(new_contents[at] == text);
            assert(bucket_holds(bucket_of(new_buckets, key), last, at));
        }
    }
    assert forall|k: u64, j: int| 0 <= j < bucket_of(new_buckets, k).len() implies #[trigger] entry_sound(
        new_buckets,
        new_contents,
        k,
        j,
    ) by {
        if k == key && j == last {
            assert(new_contents[sym.count() as int] == text);
        } else {
            if k == key {
                assert(bucket@[j] == bucket_of(buckets, k)[j]);
            } else {
                assert(bucket_of(new_buckets, k) == bucket_of(buckets, k));
            }
            assert(entry_sound(buckets, contents, k, j));
            let s = bucket_of(buckets, k)[j];
            assert(new_contents[s.count() as int] == contents[s.count() as int]);
        }
    }
}

/// A text that differs from every string named in the bucket of its hash
/// is not among the contents.
proof fn lemma_absent_from_bucket<S: Symbol>(
    buckets: Map<u64, Vec<S>>,
    contents: Contents,
    text: Seq<char>,
)
    requires
        buckets_agree(buckets, contents),
        forall|k: int|
            0 <= k < bucket_of(buckets, content_hash(text)).len() ==> contents[(#[trigger] bucket_of(
                buckets,
                content_hash(text),
            )[k]).count() as int] != text,
    ensures
        !contents.contains(text),
{
    if contents.contains(text) {
        let i = choose|i: int| 0 <= i < contents.len() && contents[i] == text;
        assert(filed(buckets, contents, i));
        let bucket = bucket_of(buckets, content_hash(text));
        let k = choose|k: int| bucket_holds(bucket, k, i);
        assert(contents[bucket[k].count() as int] != text);
    }
}

/// A lookup table from content to symbol over the strings of an arena.
#[derive(Debug)]
#[verifier::reject_recursive_types(S)]
#[verifier::reject_recursive_types(H)]
pub struct Index<S: Symbol, H: BuildHasher = RandomState> {
    buckets: HashMap<u64, Vec<S>, H>,
}

impl<S: Symbol> Index<S, RandomState> {
    /// Creates an empty index.
    pub fn new() -> (index: Self)
        ensures
            index.agrees_with(Contents::empty()),
    {
        Index { buckets: HashMap::new() }
    }

    /// Creates an empty index with room for `cap` entries.
    pub fn with_capacity(cap: usize) -> (index: Self)
        ensures
            index.agrees_with(Contents::empty()),
    {
        Index { buckets: HashMap::with_capacity(cap) }
    }
}

impl<S: Symbol, H: BuildHasher> Index<S, H> {
    /// The index is the index of `contents`: it files the symbol of every
    /// position under the hash of the string there, and nothing else.
    pub closed spec fn agrees_with(&self, contents: Contents) -> bool {
        &&& builds_valid_hashers::<H>()
        &&& buckets_agree(self.buckets@, contents)
    }

    /// An index agrees with contents only where its hash builder builds
    /// valid hashers.
    pub proof fn lemma_hashers_valid(&self, contents: Contents)
        requires
            self.agrees_with(contents),
        ensures
            builds_valid_hashers::<H>(),
    {
    }

    /// Creates an empty index that hashes with `hash_builder`.
    ///
    /// The contracts of the index rest on the hash builder building
    /// hashers that give equal keys equal digests.
    pub fn with_hasher(hash_builder: H) -> (index: Self)
        requires
            builds_valid_hashers::<H>(),
        ensures
            index.agrees_with(Contents::empty()),
    {
        Index { buckets: empty_buckets(hash_builder) }
    }

    /// Looks `content` up among the strings of `arena`: returns the symbol
    /// of the position that holds it, or `None` where no position does.
    pub fn probe(&self, arena: &Arena, content: &str) -> (found: Option<S>)
        requires
            self.agrees_with(arena@),
        ensures
            match found {
                Some(sym) => sym.count() < arena@.len() && arena@[sym.count() as int]
                    == content@,
                None => !arena@.contains(content@),
            },
    {
        let key = hash_of(content);
        match self.buckets.get(&key) {
            None => {
                proof {
                    assert(bucket_of(self.buckets@, key).len() == 0);
                    lemma_absent_from_bucket(self.buckets@, arena@, content@);
                }
                None
            },
            Some(bucket) => {
                assert(bucket@ == bucket_of(self.buckets@, key));
                let mut j: usize = 0;
                while j < bucket.len()
                    invariant
                        self.agrees_with(arena@),
                        key == content_hash(content@),
                        bucket@ == bucket_of(self.buckets@, key),
                        0 <= j <= bucket@.len(),
                        forall|k: int|
                            0 <= k < j ==> arena@[(#[trigger] bucket@[k]).count() as int]
                                != content@,
                    decreases bucket@.len() - j,
                {
                    let sym = bucket[j];
                    let at = sym.to_usize();
                    assert(entry_sound(self.buckets@, arena@, key, j as int));
                    if same_text(arena.get_unchecked(at), content) {
                        return Some(sym);
                    }
                    j += 1;
                }
                proof {
                    lemma_absent_from_bucket(self.buckets@, arena@, content@);
                }
                None
            },
        }
    }

    /// Files `symbol` for the string that was just appended to `arena`.
    pub fn record(&mut self, arena: &Arena, symbol: S)
        requires
            arena@.len() > 0,
            symbol.count() == arena@.len() - 1,
            old(self).agrees_with(arena@.drop_last()),
        ensures
            final(self).agrees_with(arena@),
    {
        let at = symbol.to_usize();
        let key = hash_of(arena.get_unchecked(at));
        let mut bucket = match self.buckets.remove(&key) {
            Some(bucket) => bucket,
            None => Vec::new(),
        };
        assert(bucket@ == bucket_of(old(self).buckets@, key));
        bucket.push(symbol);
        self.buckets.insert(key, bucket);
        proof {
            assert(self.buckets@ =~= old(self).buckets@.insert(key, bucket));
            lemma_file_new(old(self).buckets@, arena@.drop_last(), arena@.last(), symbol, bucket);
            assert(arena@.drop_last().push(arena@.last()) =~= arena@);
        }
    }

    /// Returns how many entries the index can hold without reallocating.
    pub fn capacity(&self) -> (capacity: usize) {
        buckets_capacity(&self.buckets)
    }

    /// Reserves room for at least `additional` more entries.
    pub fn reserve(&mut self, additional: usize)
        ensures
            forall|contents: Contents|
                old(self).agrees_with(contents) ==> #[trigger] final(self).agrees_with(contents),
    {
        self.buckets.reserve(additional);
    }

    /// Gives back unused capacity.
    pub fn shrink_to_fit(&mut self)
        ensures
            forall|contents: Contents|
                old(self).agrees_with(contents) ==> #[trigger] final(self).agrees_with(contents),
    {
        shrink_buckets(&mut self.buckets);
    }

    /// Drops every entry.
    pub fn clear(&mut self)
        ensures
            builds_valid_hashers::<H>() ==> final(self).agrees_with(Contents::empty()),
    {
        self.buckets.clear();
    }
}

impl<S: Symbol, H: BuildHasher + Clone> Clone for Index<S, H> {
    /// Copies the index. It holds positions only, so the copy is the index
    /// of any arena with the same contents.
    fn clone(&self) -> (copy: Self)
        ensures
            forall|contents: Contents|
                self.agrees_with(contents) ==> #[trigger] copy.agrees_with(contents),
    {
        Index { buckets: self.buckets.clone() }
    }
}

} // verus!
