use std::collections::hash_map::RandomState;
use string_interner::interner::smaller_capacity;
use string_interner::{DefaultStringInterner, StringInterner, Sym, Symbol};

fn sym(n: usize) -> Sym {
    Sym::from_usize(n)
}

#[test]
fn literal_sequence_yields_dense_symbols() {
    let mut interner = DefaultStringInterner::new();
    let texts = ["foo", "bar", "baz", "foo", "rofl", "bar", "mao", "foo"];
    let expected = [0usize, 1, 2, 0, 3, 1, 4, 0];
    for (text, count) in texts.iter().zip(expected.iter()) {
        assert_eq!(interner.get_or_intern(text).to_usize(), *count);
    }
    assert_eq!(interner.len(), 5);
    assert_eq!(interner.resolve(sym(2)), Some("baz"));
}

#[test]
fn sequence_with_empty_string() {
    let mut interner = DefaultStringInterner::new();
    let texts = [
        "Hello",
        "World",
        "I am a String",
        "Foo",
        "Bar",
        "I am a String",
        "Next is empty",
        "",
        "I am a String",
        "I am a String",
        "Foo",
    ];
    let expected = [0usize, 1, 2, 3, 4, 2, 5, 6, 2, 2, 3];
    for (text, count) in texts.iter().zip(expected.iter()) {
        assert_eq!(interner.get_or_intern(text).to_usize(), *count);
    }
    assert_eq!(interner.len(), 7);
    assert_eq!(interner.resolve(sym(6)), Some(""));
    assert_eq!(interner.get(""), Some(sym(6)));
}

#[test]
fn same_content_same_symbol() {
    let mut interner = DefaultStringInterner::new();
    let first = interner.get_or_intern("Tiger");
    interner.get_or_intern("Elephant");
    interner.get_or_intern("Horse");
    let owned = String::from("Tiger");
    let second = interner.get_or_intern(owned.as_str());
    assert_eq!(first, second);
    assert_eq!(interner.len(), 3);
}

#[test]
fn distinct_content_distinct_symbols() {
    let mut interner = DefaultStringInterner::default();
    let sym0 = interner.get_or_intern("Elephant");
    let sym1 = interner.get_or_intern("Tiger");
    let sym2 = interner.get_or_intern("Horse");
    let sym3 = interner.get_or_intern("Tiger");
    assert_ne!(sym0, sym1);
    assert_ne!(sym0, sym2);
    assert_ne!(sym1, sym2);
    assert_eq!(sym1, sym3);
}

#[test]
fn symbols_are_dense() {
    let mut interner: StringInterner<usize> = StringInterner::new();
    for text in ["c", "a", "b", "a", "c", "d", "a"] {
        interner.get_or_intern(text);
    }
    assert_eq!(interner.len(), 4);
    for count in 0..4usize {
        assert!(interner.resolve(count).is_some());
    }
    assert_eq!(interner.resolve(4usize), None);
    assert_eq!(interner.resolve(usize::MAX), None);
}

#[test]
fn round_trip() {
    let mut interner = DefaultStringInterner::new();
    for text in ["Banana", "", "Äpfel", "日本語", "a b", "Banana"] {
        let symbol = interner.get_or_intern(text);
        assert_eq!(interner.resolve(symbol), Some(text));
        assert_eq!(interner.resolve_unchecked(symbol), text);
    }
    assert_eq!(interner.len(), 5);
}

#[test]
fn reverse_lookup_gives_first_symbol() {
    let mut interner = DefaultStringInterner::new();
    let texts = ["one", "two", "three", "four"];
    let symbols: Vec<Sym> = texts.iter().map(|t| interner.get_or_intern(t)).collect();
    for (text, symbol) in texts.iter().zip(symbols.iter()) {
        assert_eq!(interner.get(text), Some(*symbol));
    }
    assert_eq!(interner.get("five"), None);
    assert_eq!(interner.get("On"), None);
    assert_eq!(interner.get("onee"), None);
}

#[test]
fn lookup_in_empty_interner() {
    let interner = DefaultStringInterner::new();
    assert_eq!(interner.get("anything"), None);
    assert_eq!(interner.get(""), None);
    assert_eq!(interner.resolve(sym(0)), None);
    assert!(interner.is_empty());
    assert_eq!(interner.len(), 0);
}

#[test]
fn clear_invalidates_symbols() {
    let mut interner = DefaultStringInterner::new();
    let a = interner.get_or_intern("a");
    let b = interner.get_or_intern("b");
    interner.clear();
    assert_eq!(interner.len(), 0);
    assert!(interner.is_empty());
    assert_eq!(interner.resolve(a), None);
    assert_eq!(interner.resolve(b), None);
    assert_eq!(interner.get("a"), None);
    let c = interner.get_or_intern("c");
    assert_eq!(c.to_usize(), 0);
    assert_eq!(interner.resolve(a), Some("c"));
    assert_eq!(interner.get_or_intern("a").to_usize(), 1);
}

#[test]
fn clone_resolves_alike_and_is_independent() {
    let mut source = DefaultStringInterner::new();
    let symbols: Vec<Sym> =
        ["x", "y", "z"].iter().map(|t| source.get_or_intern(t)).collect();
    let mut copy = source.clone();
    for symbol in symbols.iter() {
        assert_eq!(copy.resolve(*symbol), source.resolve(*symbol));
    }
    assert_eq!(copy.get("y"), source.get("y"));
    assert!(copy == source);
    let w = copy.get_or_intern("w");
    assert_eq!(w.to_usize(), 3);
    assert_eq!(copy.len(), 4);
    assert_eq!(source.len(), 3);
    assert_eq!(source.get("w"), None);
    assert_eq!(source.resolve(w), None);
    assert!(copy != source);
    assert_eq!(copy.get_or_intern("x"), symbols[0]);
    drop(source);
    assert_eq!(copy.resolve(symbols[2]), Some("z"));
}

#[test]
fn equality_is_by_strings_in_order() {
    let a = DefaultStringInterner::from_iter(&["a", "b", "c"]);
    let b = DefaultStringInterner::from_iter(&["a", "b", "a", "c", "c"]);
    let c = DefaultStringInterner::from_iter(&["a", "c", "b"]);
    let d = DefaultStringInterner::from_iter(&["a", "b"]);
    assert!(a == b);
    assert!(a.same_contents(&b));
    assert!(a != c);
    assert!(a != d);
    assert!(!d.same_contents(&a));
    assert!(DefaultStringInterner::new() == DefaultStringInterner::with_capacity(8));
}

#[test]
fn capacities() {
    let plain = DefaultStringInterner::new();
    assert_eq!(plain.capacity(), 0);
    let roomy = DefaultStringInterner::with_capacity(10);
    assert!(roomy.capacity() >= 10);
    assert!(roomy.is_empty());
    let hashed: StringInterner<Sym, RandomState> =
        StringInterner::with_capacity_and_hasher(10, RandomState::new());
    assert_eq!(hashed.capacity(), 0);
    assert!(hashed.is_empty());
    assert_eq!(smaller_capacity(3, 7), 3);
    assert_eq!(smaller_capacity(7, 3), 3);
    assert_eq!(smaller_capacity(5, 5), 5);
    assert_eq!(smaller_capacity(0, usize::MAX), 0);
}

#[test]
fn custom_hasher() {
    let mut interner: StringInterner<Sym, RandomState> =
        StringInterner::with_hasher(RandomState::new());
    assert_eq!(interner.get_or_intern("a").to_usize(), 0);
    assert_eq!(interner.get_or_intern("b").to_usize(), 1);
    assert_eq!(interner.get_or_intern("a").to_usize(), 0);
    assert_eq!(interner.get("b"), Some(sym(1)));
    assert_eq!(interner.len(), 2);
}

#[test]
fn reserve_and_shrink_keep_contents() {
    let mut interner = DefaultStringInterner::new();
    let a = interner.get_or_intern("alpha");
    let b = interner.get_or_intern("beta");
    interner.reserve(100);
    assert!(interner.capacity() >= 100);
    assert_eq!(interner.len(), 2);
    assert_eq!(interner.resolve(a), Some("alpha"));
    assert_eq!(interner.get("beta"), Some(b));
    interner.shrink_to_fit();
    assert!(interner.capacity() >= 2);
    assert_eq!(interner.len(), 2);
    assert_eq!(interner.resolve(a), Some("alpha"));
    assert_eq!(interner.resolve(b), Some("beta"));
    assert_eq!(interner.get("alpha"), Some(a));
    assert_eq!(interner.get_or_intern("gamma").to_usize(), 2);
}

#[test]
fn iteration_is_in_symbol_order() {
    let interner = DefaultStringInterner::from_iter(&["Earth", "Water", "Fire", "Water", "Air"]);
    let pairs = interner.iter();
    assert_eq!(
        pairs,
        vec![(sym(0), "Earth"), (sym(1), "Water"), (sym(2), "Fire"), (sym(3), "Air")]
    );
    assert_eq!(interner.iter(), pairs);
    assert_eq!(interner.iter_values(), vec!["Earth", "Water", "Fire", "Air"]);
    let owned = interner.into_iter();
    assert_eq!(
        owned,
        vec![
            (sym(0), String::from("Earth")),
            (sym(1), String::from("Water")),
            (sym(2), String::from("Fire")),
            (sym(3), String::from("Air")),
        ]
    );
}

#[test]
fn iteration_over_empty_interner() {
    let interner = DefaultStringInterner::new();
    assert!(interner.iter().is_empty());
    assert!(interner.iter_values().is_empty());
    assert!(interner.into_iter().is_empty());
}

#[test]
fn bulk_construction_matches_manual_interning() {
    let texts = ["Elephant", "Tiger", "Horse", "Tiger", "", "Elephant", "Mouse"];
    let bulk = DefaultStringInterner::from_iter(&texts);
    let mut manual = DefaultStringInterner::new();
    let mut extended = DefaultStringInterner::new();
    extended.extend(&texts[..3]);
    extended.extend(&texts[3..]);
    for text in texts.iter() {
        let symbol = manual.get_or_intern(text);
        assert_eq!(bulk.get(text), Some(symbol));
        assert_eq!(extended.get(text), Some(symbol));
    }
    assert_eq!(bulk.len(), 5);
    assert!(bulk == manual);
    assert!(extended == manual);
    let none: [&str; 0] = [];
    assert!(DefaultStringInterner::from_iter(&none).is_empty());
}

#[test]
fn many_strings() {
    let mut interner: StringInterner<usize> = StringInterner::new();
    for n in 0..2000usize {
        let text = format!("item-{}", n);
        assert_eq!(interner.get_or_intern(text.as_str()), n);
    }
    for n in 0..2000usize {
        let text = format!("item-{}", n);
        assert_eq!(interner.get_or_intern(text.as_str()), n);
        assert_eq!(interner.get(text.as_str()), Some(n));
        assert_eq!(interner.resolve(n), Some(text.as_str()));
    }
    assert_eq!(interner.len(), 2000);
    assert_eq!(interner.get("item-2000"), None);
}

#[test]
fn symbols_round_trip_through_counts() {
    for n in [0usize, 1, 2, 1000, 0xFFFF_FFFE, 0xFFFF_FFFF] {
        assert_eq!(Sym::from_usize(n).to_usize(), n);
        assert_eq!(<usize as Symbol>::from_usize(n).to_usize(), n);
    }
    assert_eq!(<usize as Symbol>::from_usize(usize::MAX).to_usize(), usize::MAX);
    assert_eq!(Sym::from_usize(7), Sym::from_usize(7));
    assert_ne!(Sym::from_usize(7), Sym::from_usize(8));
    assert!(Sym::from_usize(7) < Sym::from_usize(8));
}
