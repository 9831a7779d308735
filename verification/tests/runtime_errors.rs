use matchbox_vm::vm::gc::{gc_alloc, GcId, Heap, GCConfig, RuntimeError};

#[test]
fn runtime_error_out_of_memory_display() {
    let err = RuntimeError::OutOfMemory("Heap exhausted after GC".to_string());
    let display_str = err.to_string();
    assert!(display_str.contains("OutOfMemory"), "Display should contain variant name, got: {}", display_str);
    assert!(display_str.contains("Heap exhausted after GC"), "Display should contain message, got: {}", display_str);
    assert_eq!(display_str, "OutOfMemory: Heap exhausted after GC");
}

#[test]
fn runtime_error_out_of_memory_exception_type() {
    let err = RuntimeError::OutOfMemory("test".to_string());
    assert_eq!(err.exception_type(), "OutOfMemoryException");
}

#[test]
fn gc_alloc_succeeds_on_normal_allocation() {
    let mut heap: Heap<String> = Heap::new();
    let result = gc_alloc(&mut heap, "test".to_string(), &vec![], &vec![]);
    assert!(result.is_ok(), "gc_alloc should succeed: {:?}", result.as_ref().err());
    let id = result.unwrap();
    assert!(heap.get_opt(id).is_some());
}

#[test]
fn gc_alloc_returns_err_on_oom() {
    let err = RuntimeError::OutOfMemory("No memory after GC".into());
    assert_eq!(err.exception_type(), "OutOfMemoryException");
    let result: Result<usize, RuntimeError> = Err(err);
    assert!(result.is_err());
}

#[test]
fn gc_alloc_collects_before_giving_up() {
    let mut cfg = GCConfig::for_esp32();
    cfg.max_objects = Some(2);
    let mut heap: Heap<u8> = Heap::with_config(cfg);
    let a = gc_alloc(&mut heap, 1, &vec![], &vec![]).unwrap();
    let b = gc_alloc(&mut heap, 2, &vec![], &vec![]).unwrap();
    // The heap is full; `a` is still in use, `b` is garbage.
    let refs: Vec<Vec<GcId>> = vec![vec![], vec![]];
    let c = gc_alloc(&mut heap, 3, &vec![a], &refs).unwrap();
    assert_eq!(c, b);
    assert_eq!(heap.get_opt(c), Some(&3));
    // Now both slots are in use and reachable: allocation fails.
    let err = gc_alloc(&mut heap, 4, &vec![a, c], &refs).unwrap_err();
    assert_eq!(
        err,
        RuntimeError::OutOfMemory("Heap exhausted: allocation failed even after garbage collection".to_string())
    );
}
