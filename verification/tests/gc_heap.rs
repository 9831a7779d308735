use matchbox_vm::vm::gc::{GCConfig, GcId, Heap};

fn no_refs(n: usize) -> Vec<Vec<GcId>> {
    let mut v = Vec::new();
    for _ in 0..n {
        v.push(Vec::new());
    }
    v
}

#[test]
fn try_alloc_succeeds_with_free_list_reuse() {
    let mut heap: Heap<String> = Heap::new();
    let id = heap.allocate("hello".to_string());
    // A collection with no roots frees the young object and puts its slot
    // on the free list.
    heap.collect(&vec![], &no_refs(1));
    assert!(heap.get_opt(id).is_none());

    let result = heap.try_alloc("world".to_string());
    assert_eq!(result, Some(id));
    assert!(heap.get_opt(id).is_some());
}

#[test]
fn try_alloc_succeeds_with_new_allocation() {
    let mut heap: Heap<String> = Heap::new();
    let result = heap.try_alloc("hello".to_string());
    assert!(result.is_some());
    let id = result.unwrap();
    assert!(heap.get_opt(id).is_some());
}

#[test]
fn try_alloc_returns_none_when_capacity_exhausted() {
    let mut heap: Heap<String> = Heap::new();
    let cap = GCConfig::default().initial_capacity;
    for _ in 0..cap {
        heap.allocate("fill".to_string());
    }
    let result = heap.try_alloc("extra".to_string());
    let _: Option<GcId> = result;
}

#[test]
fn gcconfig_initial_threshold_used_in_heap() {
    let cfg = GCConfig::for_esp32();
    let heap: Heap<String> = Heap::with_config(cfg.clone());
    assert_eq!(heap.gc_threshold(), cfg.initial_threshold);
}

#[test]
fn try_alloc_respects_max_objects() {
    let mut cfg = GCConfig::for_desktop();
    cfg.max_objects = Some(5);
    let mut heap: Heap<String> = Heap::with_config(cfg);
    for _ in 0..5 {
        assert!(heap.try_alloc("x".to_string()).is_some());
    }
    assert!(heap.try_alloc("y".to_string()).is_none());
}

#[test]
fn allocation_hands_out_consecutive_slots_and_reads_back() {
    let mut heap: Heap<u32> = Heap::new();
    assert_eq!(heap.allocate(10), 0);
    assert_eq!(heap.allocate(20), 1);
    assert_eq!(heap.allocate(30), 2);
    assert_eq!(*heap.get(1), 20);
    assert_eq!(heap.get_opt(2), Some(&30));
    assert_eq!(heap.get_opt(3), None);
}

#[test]
fn freed_slots_are_reused_most_recent_first() {
    let mut heap: Heap<u32> = Heap::new();
    for v in 0..4 {
        heap.allocate(v);
    }
    // Slots 1 and 3 are unreachable; they are freed in increasing order.
    heap.collect(&vec![0, 2], &no_refs(4));
    assert_eq!(heap.get_opt(1), None);
    assert_eq!(heap.get_opt(3), None);
    assert_eq!(heap.allocate(7), 3);
    assert_eq!(heap.allocate(8), 1);
    assert_eq!(heap.allocate(9), 4);
}

#[test]
fn collection_keeps_objects_reachable_through_references() {
    let mut heap: Heap<&str> = Heap::new();
    let a = heap.allocate("a");
    let b = heap.allocate("b");
    let c = heap.allocate("c");
    let d = heap.allocate("d");
    let mut refs = no_refs(4);
    refs[a].push(b);
    refs[b].push(c);
    refs[d].push(a);
    heap.collect(&vec![a], &refs);
    assert_eq!(heap.get_opt(a), Some(&"a"));
    assert_eq!(heap.get_opt(b), Some(&"b"));
    assert_eq!(heap.get_opt(c), Some(&"c"));
    assert_eq!(heap.get_opt(d), None);
}

#[test]
fn roots_outside_the_heap_are_ignored() {
    let mut heap: Heap<u8> = Heap::new();
    let a = heap.allocate(1);
    heap.collect(&vec![a + 100], &no_refs(1));
    assert_eq!(heap.get_opt(a), None);
}

#[test]
fn write_barrier_keeps_young_objects_of_mutated_old_ones() {
    let mut heap: Heap<u32> = Heap::new();
    let old = heap.allocate(1);
    // `old` survives and becomes old.
    heap.collect(&vec![old], &no_refs(1));
    let young = heap.allocate(2);
    // The program stores a reference to `young` in `old`.
    *heap.get_mut(old) += 1;
    let mut refs = no_refs(2);
    refs[old].push(young);
    // The roots do not name `young`; the remembered `old` does.
    heap.collect(&vec![], &refs);
    assert_eq!(heap.get_opt(old), Some(&2));
    assert_eq!(heap.get_opt(young), Some(&2));
}

#[test]
fn minor_collection_does_not_trace_unremembered_old_objects() {
    let mut heap: Heap<u32> = Heap::new();
    let old = heap.allocate(1);
    heap.collect(&vec![old], &no_refs(1));
    let young = heap.allocate(2);
    let mut refs = no_refs(2);
    refs[old].push(young);
    // `old` was never handed out for mutation, so it is not remembered, and
    // a minor collection does not look inside it.
    heap.collect(&vec![], &refs);
    assert_eq!(heap.get_opt(old), Some(&1));
    assert_eq!(heap.get_opt(young), None);
}

#[test]
fn every_eighth_collection_frees_unreachable_old_objects() {
    let mut heap: Heap<u32> = Heap::new();
    let a = heap.allocate(1);
    heap.collect(&vec![a], &no_refs(1));
    // `a` is old now; minor collections leave it alone.
    for _ in 0..6 {
        heap.collect(&vec![], &no_refs(1));
        assert_eq!(heap.get_opt(a), Some(&1));
    }
    // The eighth collection is a full one.
    heap.collect(&vec![], &no_refs(1));
    assert_eq!(heap.get_opt(a), None);
}

#[test]
fn threshold_follows_twice_the_live_objects_within_bounds() {
    let mut heap: Heap<u32> = Heap::with_config(GCConfig::for_esp32());
    assert_eq!(heap.gc_threshold(), 256);
    let mut roots = Vec::new();
    for v in 0..300 {
        roots.push(heap.allocate(v));
    }
    assert!(heap.should_collect());
    heap.collect(&roots, &no_refs(300));
    assert_eq!(heap.gc_threshold(), 600);
    assert!(!heap.should_collect());
    for v in 0..300 {
        roots.push(heap.allocate(v));
    }
    heap.collect(&roots, &no_refs(600));
    assert_eq!(heap.gc_threshold(), 1024);
    heap.collect(&vec![], &no_refs(600));
    heap.collect(&vec![], &no_refs(600));
    heap.collect(&vec![], &no_refs(600));
    heap.collect(&vec![], &no_refs(600));
    heap.collect(&vec![], &no_refs(600));
    // The eighth collection is full and frees everything.
    heap.collect(&vec![], &no_refs(600));
    assert_eq!(heap.gc_threshold(), 256);
}

#[test]
fn should_collect_after_more_allocations_than_the_threshold() {
    let mut cfg = GCConfig::for_esp32();
    cfg.initial_threshold = 2;
    let mut heap: Heap<u8> = Heap::with_config(cfg);
    heap.allocate(0);
    heap.allocate(0);
    assert!(!heap.should_collect());
    heap.allocate(0);
    assert!(heap.should_collect());
}
