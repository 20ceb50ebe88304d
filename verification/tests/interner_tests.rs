use string_interner::{FnvHasher, StringInterner, Symbol};

#[test]
fn fresh_instance_is_empty() {
    let interner = StringInterner::new();
    assert_eq!(interner.len(), 0);
    assert!(interner.is_empty());
}

#[test]
fn intern_cat_dog_cat() {
    let mut interner = StringInterner::new();
    let cat1 = interner.get_or_intern("cat");
    let dog = interner.get_or_intern("dog");
    let cat2 = interner.get_or_intern("cat");
    assert_eq!(interner.len(), 2);
    assert_eq!(cat1, cat2);
    assert_ne!(cat1, dog);
    assert_eq!(interner.resolve(dog), Some("dog"));
    assert_eq!(interner.resolve(cat1), Some("cat"));
}

#[test]
fn get_unknown_is_absent_and_pure() {
    let mut interner = StringInterner::new();
    interner.get_or_intern("salmon");
    let before = interner.len();
    assert_eq!(interner.get("fish"), None);
    assert_eq!(interner.len(), before);
}

#[test]
fn dedup_same_content_same_symbol() {
    let mut interner = StringInterner::new();
    let a = interner.get_or_intern("alpha");
    let owned = String::from("alpha");
    let b = interner.get_or_intern(owned.as_str());
    assert_eq!(a, b);
    assert_eq!(interner.len(), 1);
}

#[test]
fn round_trip_resolve() {
    let mut interner = StringInterner::new();
    for s in ["", "a", "hello world", "h\u{e9}llo", "\u{1f980} crab"] {
        let sym = interner.get_or_intern(s);
        assert_eq!(interner.resolve(sym), Some(s));
    }
}

#[test]
fn distinct_content_distinct_symbols() {
    let mut interner = StringInterner::new();
    let a = interner.get_or_intern("one");
    let b = interner.get_or_intern("two");
    assert_ne!(a, b);
}

#[test]
fn idempotent_length() {
    let mut interner = StringInterner::new();
    interner.get_or_intern("again");
    let after_first = interner.len();
    for _ in 0..5 {
        interner.get_or_intern("again");
    }
    assert_eq!(interner.len(), after_first);
    assert_eq!(after_first, 1);
}

#[test]
fn get_matches_intern_after_interning() {
    let mut interner = StringInterner::new();
    assert_eq!(interner.get("pelican"), None);
    let sym = interner.get_or_intern("pelican");
    assert_eq!(interner.get("pelican"), Some(sym));
    assert_eq!(interner.len(), 1);
}

#[test]
fn resolve_unknown_symbol_absent() {
    let interner = StringInterner::new();
    let stray = Symbol::try_from_usize(999).unwrap();
    assert_eq!(interner.resolve(stray), None);

    let mut other = StringInterner::new();
    let big = other.get_or_intern("beyond");
    // an index the first instance never issued
    assert_eq!(interner.resolve(big), None);
}

#[test]
fn empty_string_interns_like_any_other() {
    let mut interner = StringInterner::new();
    let e1 = interner.get_or_intern("");
    let e2 = interner.get_or_intern("");
    assert_eq!(e1, e2);
    assert_eq!(interner.len(), 1);
    assert_eq!(interner.resolve(e1), Some(""));
}

#[test]
fn static_and_transient_unify() {
    let mut interner = StringInterner::new();
    let transient = String::from("shared");
    let t = interner.get_or_intern(transient.as_str());
    let s = interner.get_or_intern_static("shared");
    assert_eq!(t, s);
    assert_eq!(interner.len(), 1);

    let mut other = StringInterner::new();
    let s2 = other.get_or_intern_static("first");
    let t2 = other.get_or_intern("first");
    assert_eq!(s2, t2);
    assert_eq!(other.len(), 1);
}

#[test]
fn clone_preserves_and_isolates() {
    let mut original = StringInterner::new();
    let syms = [
        original.get_or_intern("red"),
        original.get_or_intern("green"),
        original.get_or_intern("blue"),
    ];
    let mut copy = original.clone();
    assert_eq!(copy.len(), 3);
    for sym in syms {
        assert_eq!(copy.resolve(sym), original.resolve(sym));
    }
    copy.get_or_intern("yellow");
    assert_eq!(copy.len(), 4);
    assert_eq!(original.len(), 3);
    assert_eq!(original.get("yellow"), None);
    // the copy's index still resolves into the copy's own backend:
    // re-interning known content dedups instead of growing
    assert_eq!(copy.get_or_intern("red"), syms[0]);
    assert_eq!(copy.get_or_intern("blue"), syms[2]);
    assert_eq!(copy.len(), 4);
}

#[test]
fn constructors_behave_alike() {
    let mut with_cap = StringInterner::with_capacity(100);
    let mut seeded = StringInterner::with_hasher(FnvHasher::with_seed(42));
    let mut both = StringInterner::with_capacity_and_hasher(8, FnvHasher::with_seed(7));
    let mut defaulted = StringInterner::default();
    for interner in [&mut with_cap, &mut seeded, &mut both, &mut defaulted] {
        assert!(interner.is_empty());
        let a = interner.get_or_intern("ibis");
        let b = interner.get_or_intern("ibis");
        assert_eq!(a, b);
        assert_eq!(interner.resolve(a), Some("ibis"));
        assert_eq!(interner.len(), 1);
    }
}

#[test]
fn many_strings_share_buckets() {
    // 200 distinct strings in a table of 16 buckets force chained probes
    let mut interner = StringInterner::new();
    let mut symbols = Vec::new();
    for i in 0..200 {
        let s = format!("entry-{}", i);
        symbols.push(interner.get_or_intern(s.as_str()));
    }
    assert_eq!(interner.len(), 200);
    for i in 0..200 {
        let s = format!("entry-{}", i);
        assert_eq!(interner.get(s.as_str()), Some(symbols[i]));
        assert_eq!(interner.resolve(symbols[i]), Some(s.as_str()));
    }
    for i in 0..200 {
        let s = format!("entry-{}", i);
        assert_eq!(interner.get_or_intern(s.as_str()), symbols[i]);
    }
    assert_eq!(interner.len(), 200);
}

#[test]
fn from_iter_and_extend() {
    let words: Vec<String> = vec![
        String::from("ash"),
        String::from("birch"),
        String::from("ash"),
        String::from("cedar"),
    ];
    let mut interner = StringInterner::from_iter(&words);
    assert_eq!(interner.len(), 3);
    let ash = interner.get("ash").unwrap();
    let birch = interner.get("birch").unwrap();
    let cedar = interner.get("cedar").unwrap();
    assert_eq!(interner.resolve(ash), Some("ash"));
    assert_eq!(interner.resolve(birch), Some("birch"));
    assert_eq!(interner.resolve(cedar), Some("cedar"));
    // first-occurrence order decides the indices
    assert!(ash.to_usize() < birch.to_usize());
    assert!(birch.to_usize() < cedar.to_usize());

    let more: Vec<String> = vec![String::from("cedar"), String::from("dogwood")];
    interner.extend(&more);
    assert_eq!(interner.len(), 4);
    assert_eq!(interner.get("cedar"), Some(cedar));
    assert_eq!(interner.resolve(interner.get("dogwood").unwrap()), Some("dogwood"));
}

#[test]
fn interner_equality_ignores_hasher() {
    let mut a = StringInterner::with_hasher(FnvHasher::with_seed(1));
    let mut b = StringInterner::with_hasher(FnvHasher::with_seed(2));
    a.get_or_intern("x");
    a.get_or_intern("y");
    b.get_or_intern("x");
    b.get_or_intern("y");
    assert!(a == b);
    b.get_or_intern("z");
    assert!(a != b);

    let mut c = StringInterner::new();
    c.get_or_intern("y");
    c.get_or_intern("x");
    // same contents in a different first-intern order differ
    assert!(a != c);
}

#[test]
fn symbol_conversions() {
    let sym = Symbol::try_from_usize(7).unwrap();
    assert_eq!(sym.to_usize(), 7);
    assert_eq!(Symbol::try_from_usize(u32::MAX as usize + 1), None);
    let copy = sym;
    assert_eq!(copy, sym);
}

#[test]
fn pairs_walk_all_entries_in_order() {
    let mut interner = StringInterner::new();
    let north = interner.get_or_intern("north");
    let south = interner.get_or_intern("south");
    interner.get_or_intern("north");
    let pairs = interner.pairs();
    assert_eq!(pairs.len(), 2);
    assert_eq!(pairs[0].0, north);
    assert_eq!(pairs[0].1, "north");
    assert_eq!(pairs[1].0, south);
    assert_eq!(pairs[1].1, "south");
}

#[test]
fn symbols_index_in_intern_order() {
    let mut interner = StringInterner::new();
    let a = interner.get_or_intern("first");
    let b = interner.get_or_intern("second");
    let c = interner.get_or_intern("third");
    assert_eq!(a.to_usize(), 0);
    assert_eq!(b.to_usize(), 1);
    assert_eq!(c.to_usize(), 2);
    // symbols are totally ordered (by no guaranteed meaning beyond identity)
    assert!(a < b && b < c);
    assert_eq!([c, a, b].iter().min(), Some(&a));
}
