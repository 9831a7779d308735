use matchbox_vm::vm::chunk::{ChunkProgram, ChunkRuntime, IcEntry};

#[test]
fn programs_start_empty() {
    let p: ChunkProgram<u8> = ChunkProgram::new("main.bxs");
    assert!(p.code.is_empty());
    assert!(p.constants.is_empty());
    assert!(p.lines.is_empty());
    assert_eq!(p.filename, "main.bxs");
    assert_eq!(p.source, "");
    let sub = p.new_sub_program();
    assert_eq!(sub.filename, "main.bxs");
    assert!(sub.code.is_empty());
    let d: ChunkProgram<u8> = ChunkProgram::default();
    assert_eq!(d.filename, "");
}

#[test]
fn ensure_caches_grows_but_never_shrinks() {
    let mut rt = ChunkRuntime::default();
    rt.ensure_caches(3);
    assert_eq!(rt.caches, vec![None, None, None]);
    rt.ensure_caches(1);
    assert_eq!(rt.caches.len(), 3);
}

#[test]
fn cache_set_then_get_reads_back() {
    let mut rt = ChunkRuntime::default();
    assert_eq!(rt.cache_get(5), None);
    rt.cache_set(5, IcEntry::Global { index: 7 });
    assert_eq!(rt.caches.len(), 6);
    assert_eq!(rt.cache_get(5), Some(IcEntry::Global { index: 7 }));
    assert_eq!(rt.cache_get(4), None);
    rt.cache_set(1, IcEntry::Megamorphic);
    assert_eq!(rt.cache_get(1), Some(IcEntry::Megamorphic));
    assert_eq!(rt.cache_get(5), Some(IcEntry::Global { index: 7 }));
}

#[test]
fn add_shape_widens_mono_poly_mega() {
    let mut rt = ChunkRuntime::default();
    rt.cache_add_shape(0, 10, 1);
    assert_eq!(rt.cache_get(0), Some(IcEntry::Monomorphic { shape_id: 10, index: 1 }));
    rt.cache_add_shape(0, 10, 5);
    assert_eq!(rt.cache_get(0), Some(IcEntry::Monomorphic { shape_id: 10, index: 1 }));
    rt.cache_add_shape(0, 11, 2);
    assert_eq!(
        rt.cache_get(0),
        Some(IcEntry::Polymorphic { entries: [(10, 1), (11, 2), (0, 0), (0, 0)], count: 2 })
    );
    rt.cache_add_shape(0, 11, 9);
    rt.cache_add_shape(0, 12, 3);
    rt.cache_add_shape(0, 13, 4);
    assert_eq!(
        rt.cache_get(0),
        Some(IcEntry::Polymorphic { entries: [(10, 1), (11, 2), (12, 3), (13, 4)], count: 4 })
    );
    rt.cache_add_shape(0, 14, 5);
    assert_eq!(rt.cache_get(0), Some(IcEntry::Megamorphic));
    rt.cache_add_shape(0, 15, 6);
    assert_eq!(rt.cache_get(0), Some(IcEntry::Megamorphic));
}

#[test]
fn add_shape_leaves_global_entries_alone() {
    let mut rt = ChunkRuntime::default();
    rt.cache_set(2, IcEntry::Global { index: 3 });
    rt.cache_add_shape(2, 1, 1);
    assert_eq!(rt.cache_get(2), Some(IcEntry::Global { index: 3 }));
}

#[test]
fn cache_slice_reads_past_the_end_as_empty() {
    let mut rt = ChunkRuntime::default();
    rt.cache_set(1, IcEntry::Megamorphic);
    assert_eq!(rt.cache_slice(0, 4), vec![None, Some(IcEntry::Megamorphic), None, None]);
    assert_eq!(rt.cache_slice(1, 1), vec![Some(IcEntry::Megamorphic)]);
    assert!(rt.cache_slice(3, 0).is_empty());
}
