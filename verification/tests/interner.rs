use matchbox_vm::vm::intern::StringInterner;

#[test]
fn preserves_first_seen_spelling_while_matching_case_insensitively() {
    let mut interner = StringInterner::new();

    let id1 = interner.intern("acceptAllDevices");
    let id2 = interner.intern("acceptalldevices");

    assert_eq!(id1, id2);
    assert_eq!(interner.resolve(id1), "acceptAllDevices");
    assert_eq!(interner.get_id("ACCEPTALLDEVICES"), Some(id1));
}

#[test]
fn upgrades_lowercase_spelling_when_mixed_case_arrives_later() {
    let mut interner = StringInterner::new();

    let id1 = interner.intern("acceptalldevices");
    let id2 = interner.intern("acceptAllDevices");

    assert_eq!(id1, id2);
    assert_eq!(interner.resolve(id1), "acceptAllDevices");
}

#[test]
fn case_sensitive_interning_keeps_distinct_spellings() {
    let mut interner = StringInterner::new();

    let upper = interner.intern_case_sensitive("Name");
    let lower = interner.intern_case_sensitive("name");

    assert_ne!(upper, lower);
    assert_eq!(interner.resolve(upper), "Name");
    assert_eq!(interner.resolve(lower), "name");
    assert_eq!(interner.get_exact_id("Name"), Some(upper));
    assert_eq!(interner.get_exact_id("name"), Some(lower));
}

#[test]
fn interning_ids_count_up_from_zero() {
    let mut interner = StringInterner::new();
    assert_eq!(interner.intern("a"), 0);
    assert_eq!(interner.intern("b"), 1);
    assert_eq!(interner.intern("B"), 1);
    assert_eq!(interner.intern("c"), 2);
    assert_eq!(interner.get_id("C"), Some(2));
    assert_eq!(interner.get_id("d"), None);
}

#[test]
fn a_later_spelling_is_found_exactly_under_the_shared_id() {
    let mut interner = StringInterner::new();
    let id = interner.intern("Foo");
    assert_eq!(interner.get_exact_id("FOO"), None);
    assert_eq!(interner.intern("FOO"), id);
    assert_eq!(interner.get_exact_id("FOO"), Some(id));
    assert_eq!(interner.resolve(id), "Foo");
}

#[test]
fn case_sensitive_interning_is_stable() {
    let mut interner = StringInterner::new();
    let a = interner.intern_case_sensitive("Key");
    let b = interner.intern_case_sensitive("Key");
    assert_eq!(a, b);
    assert_eq!(interner.get_id("key"), None);
}

#[test]
fn case_sensitive_interning_reuses_an_exact_spelling_seen_by_intern() {
    let mut interner = StringInterner::new();
    let a = interner.intern("Field");
    let b = interner.intern_case_sensitive("Field");
    let c = interner.intern_case_sensitive("field");
    assert_eq!(a, b);
    assert_ne!(a, c);
    assert_eq!(interner.resolve(c), "field");
}

#[test]
fn distinct_lowercase_forms_get_consecutive_ids() {
    let mut i = StringInterner::new();
    assert_eq!(i.intern("Alpha"), 0);
    assert_eq!(i.intern("BETA"), 1);
    assert_eq!(i.intern("alpha"), 0);
    assert_eq!(i.intern("gamma"), 2);
    assert_eq!(i.intern("Beta"), 1);
    assert_eq!(i.resolve(1).to_lowercase(), "beta");
}

#[test]
fn resolving_an_interned_id_gives_the_spelling_up_to_case_after_mixed_use() {
    let mut i = StringInterner::new();
    i.intern_case_sensitive("Foo");
    i.intern("bar");
    i.intern_case_sensitive("BAR");
    for s in ["FOO", "foo", "Bar", "bAR", "baz", "Foo"] {
        let id = i.intern(s);
        assert_eq!(i.resolve(id).to_lowercase(), s.to_lowercase());
    }
}
