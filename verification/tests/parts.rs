use std::collections::hash_map::DefaultHasher;
use std::hash::BuildHasherDefault;
use string_interner::index::hash_of;
use string_interner::{Arena, Index, StringInterner, Sym, Symbol};

#[test]
fn arena_push_returns_positions() {
    let mut arena = Arena::new();
    assert_eq!(arena.len(), 0);
    assert_eq!(arena.push("zero"), 0);
    assert_eq!(arena.push("one"), 1);
    assert_eq!(arena.push("zero"), 2);
    assert_eq!(arena.len(), 3);
    assert_eq!(arena.get(0), Some("zero"));
    assert_eq!(arena.get(1), Some("one"));
    assert_eq!(arena.get(2), Some("zero"));
    assert_eq!(arena.get(3), None);
    assert_eq!(arena.get(usize::MAX), None);
    assert_eq!(arena.get_unchecked(1), "one");
}

#[test]
fn arena_keeps_strings_through_growth() {
    let mut arena = Arena::with_capacity(1);
    for n in 0..500usize {
        assert_eq!(arena.push(format!("s{}", n).as_str()), n);
        assert_eq!(arena.get(0), Some("s0"));
    }
    arena.reserve(1000);
    assert!(arena.capacity() >= 1500);
    arena.shrink_to_fit();
    assert!(arena.capacity() >= 500);
    for n in 0..500usize {
        assert_eq!(arena.get(n), Some(format!("s{}", n).as_str()));
    }
    assert_eq!(arena.values().len(), 500);
    assert_eq!(arena.values()[499], "s499");
}

#[test]
fn arena_clear_and_clone() {
    let mut arena = Arena::new();
    arena.push("a");
    arena.push("b");
    let copy = arena.clone();
    assert!(copy.same_contents(&arena));
    arena.clear();
    assert_eq!(arena.len(), 0);
    assert_eq!(arena.get(0), None);
    assert!(!copy.same_contents(&arena));
    assert_eq!(copy.get(1), Some("b"));
    assert_eq!(copy.into_values(), vec![String::from("a"), String::from("b")]);
    assert_eq!(arena.push("c"), 0);
}

#[test]
fn arena_comparison_is_by_content_and_order() {
    let mut left = Arena::new();
    let mut right = Arena::with_capacity(4);
    assert!(left.same_contents(&right));
    left.push("a");
    assert!(!left.same_contents(&right));
    right.push("a");
    assert!(left.same_contents(&right));
    left.push("b");
    left.push("c");
    right.push("c");
    right.push("b");
    assert!(!left.same_contents(&right));
}

#[test]
fn index_probe_after_record() {
    let mut arena = Arena::new();
    let mut index: Index<Sym> = Index::new();
    assert_eq!(index.probe(&arena, "a"), None);
    for text in ["a", "b", "", "ab"] {
        let position = arena.push(text);
        index.record(&arena, Sym::from_usize(position));
    }
    assert_eq!(index.probe(&arena, "a"), Some(Sym::from_usize(0)));
    assert_eq!(index.probe(&arena, "b"), Some(Sym::from_usize(1)));
    assert_eq!(index.probe(&arena, ""), Some(Sym::from_usize(2)));
    assert_eq!(index.probe(&arena, "ab"), Some(Sym::from_usize(3)));
    assert_eq!(index.probe(&arena, "ba"), None);
    assert_eq!(index.probe(&arena, "A"), None);
    let copy = index.clone();
    index.clear();
    assert_eq!(copy.probe(&arena, "ab"), Some(Sym::from_usize(3)));
    arena.clear();
    assert_eq!(index.probe(&arena, "a"), None);
}

#[test]
fn index_capacity_follows_reserve() {
    let mut index: Index<usize> = Index::with_capacity(16);
    assert!(index.capacity() >= 16);
    index.reserve(100);
    assert!(index.capacity() >= 100);
    index.shrink_to_fit();
    assert_eq!(index.capacity(), 0);
    let plain: Index<usize> = Index::new();
    assert_eq!(plain.capacity(), 0);
}

#[test]
fn hash_depends_on_content_only() {
    let owned = String::from("same text");
    assert_eq!(hash_of("same text"), hash_of(owned.as_str()));
    assert_eq!(hash_of(""), hash_of(String::new().as_str()));
    assert_ne!(hash_of("same text"), hash_of("same texu"));
    assert_ne!(hash_of("ab"), hash_of("ba"));
    assert_ne!(hash_of(""), hash_of("\0"));
}

#[test]
fn fixed_hash_builder() {
    let builder: BuildHasherDefault<DefaultHasher> = BuildHasherDefault::default();
    let mut interner: StringInterner<usize, BuildHasherDefault<DefaultHasher>> =
        StringInterner::with_capacity_and_hasher(4, builder);
    assert_eq!(interner.get_or_intern("x"), 0);
    assert_eq!(interner.get_or_intern("y"), 1);
    assert_eq!(interner.get_or_intern("x"), 0);
    let copy = interner.clone();
    assert!(copy == interner);
    assert_eq!(copy.get("y"), Some(1));
    assert_eq!(copy.resolve(1), Some("y"));
    assert_eq!(copy.get("z"), None);
}
