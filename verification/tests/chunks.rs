use matchbox_vm::vm::chunk::{Chunk, ConstantKey, ConstantModel, IcEntry};
use matchbox_vm::vm::opcode::op;

#[test]
fn emit_packs_opcode_and_first_operand_into_one_word() {
    let mut c: Chunk<u8> = Chunk::new("main.bxs");
    c.emit0(7, 1);
    c.emit1(9, 0x12345, 2);
    c.emit2(3, 5, 0xdead_beef, 3);
    c.emit3(4, 1, 2, 3, 4);
    assert_eq!(
        c.code(),
        &vec![7, 9 | (0x12345 << 8), 3 | (5 << 8), 0xdead_beef, 4 | (1 << 8), 2, 3]
    );
    assert_eq!(c.lines(), &vec![1, 2, 3, 3, 4, 4, 4]);
    assert_eq!(c.runtime.caches.len(), 7);
    let w = c.code()[1];
    assert_eq!(w & 0xff, 9);
    assert_eq!(w >> 8, 0x12345);
}

#[test]
fn emit1_drops_operand_bits_above_twenty_four() {
    let mut c: Chunk<u8> = Chunk::new("main.bxs");
    c.emit1(1, 0x0100_0002, 1);
    assert_eq!(c.code()[0], 1 | (2 << 8));
}

#[test]
fn iter_next_encodes_cursor_flag_and_exit_placeholder() {
    let mut c: Chunk<u8> = Chunk::new("main.bxs");
    c.emit_iter_next(4, 6, true, 10);
    c.emit_iter_next(4, 6, false, 11);
    assert_eq!(
        c.code(),
        &vec![
            (op::ITER_NEXT as u32) | (4 << 8),
            6 | 0x8000_0000,
            0,
            (op::ITER_NEXT as u32) | (4 << 8),
            6,
            0
        ]
    );
}

#[test]
fn constants_with_equal_keys_share_a_slot() {
    let mut c: Chunk<&str> = Chunk::new("main.bxs");
    let a = c.add_constant("a", Some(ConstantKey::String("a".to_string())));
    let b = c.add_constant("b", Some(ConstantKey::String("b".to_string())));
    let a2 = c.add_constant("a again", Some(ConstantKey::String("a".to_string())));
    let n1 = c.add_constant("1.5", Some(ConstantKey::Number(1.5f64.to_bits())));
    let n2 = c.add_constant("1.5", Some(ConstantKey::Number(1.5f64.to_bits())));
    let arr = c.add_constant(
        "[x, y]",
        Some(ConstantKey::StringArray(vec!["x".to_string(), "y".to_string()])),
    );
    let arr2 = c.add_constant(
        "[x, z]",
        Some(ConstantKey::StringArray(vec!["x".to_string(), "z".to_string()])),
    );
    assert_eq!((a, b, a2), (0, 1, 0));
    assert_eq!((n1, n2), (2, 2));
    assert_eq!((arr, arr2), (3, 4));
    assert_eq!(c.constants(), &vec!["a", "b", "1.5", "[x, y]", "[x, z]"]);
}

#[test]
fn constants_without_keys_are_always_added() {
    let mut c: Chunk<&str> = Chunk::new("main.bxs");
    assert_eq!(c.add_constant("class", None), 0);
    assert_eq!(c.add_constant("class", None), 1);
    assert_eq!(c.add_constant("null", Some(ConstantKey::Null)), 2);
    assert_eq!(c.add_constant("null", Some(ConstantKey::Null)), 2);
    assert_eq!(c.add_constant("true", Some(ConstantKey::Boolean(true))), 3);
    assert_eq!(c.add_constant("fn", Some(ConstantKey::Function("null".to_string()))), 4);
}

#[test]
fn cloning_without_runtime_keeps_the_program_and_drops_caches() {
    let mut c: Chunk<u32> = Chunk::new("main.bxs");
    c.set_source("x = 1".to_string());
    c.emit1(2, 3, 1);
    c.add_constant(42, Some(ConstantKey::Number(42)));
    c.cache_set(0, IcEntry::Global { index: 1 });
    let d = c.clone_without_runtime_caches();
    assert_eq!(d.code(), c.code());
    assert_eq!(d.constants(), &vec![42]);
    assert_eq!(d.filename(), "main.bxs");
    assert_eq!(d.source(), "x = 1");
    assert_eq!(d.cache_get(0), None);
    assert!(d.runtime.caches.is_empty());
    assert_eq!(c.cache_get(0), Some(IcEntry::Global { index: 1 }));
    // The fresh runtime has no recorded keys, so the constant is added again.
    let mut d = d;
    assert_eq!(d.add_constant(42, Some(ConstantKey::Number(42))), 1);
}

#[test]
fn sub_chunks_share_only_the_file_name() {
    let mut c: Chunk<u8> = Chunk::new("lib.bx");
    c.emit0(1, 1);
    c.set_filename("other.bx".to_string());
    let sub = c.new_sub_chunk();
    assert_eq!(sub.filename(), "other.bx");
    assert!(sub.code().is_empty());
    let mut c = c;
    c.code_mut().push(99);
    c.lines_mut().push(5);
    c.constants_mut().push(8);
    c.ensure_caches();
    assert_eq!(c.code(), &vec![1, 99]);
    assert_eq!(c.runtime.caches.len(), 2);
    assert_eq!(c.constants(), &vec![8]);
    let d: Chunk<u8> = Chunk::default();
    assert_eq!(d.filename(), "");
}

#[test]
fn constant_keys_come_from_the_constant() {
    assert_eq!(
        ConstantKey::from_constant(&ConstantModel::Number(2.5f64.to_bits())),
        Some(ConstantKey::Number(2.5f64.to_bits()))
    );
    assert_eq!(
        ConstantKey::from_constant(&ConstantModel::CompiledFunction("f".to_string())),
        Some(ConstantKey::Function("f".to_string()))
    );
    assert_eq!(
        ConstantKey::from_constant(&ConstantModel::StringArray(vec!["a".to_string()])),
        Some(ConstantKey::StringArray(vec!["a".to_string()]))
    );
    assert_eq!(ConstantKey::from_constant(&ConstantModel::Class), None);
    assert_eq!(ConstantKey::from_constant(&ConstantModel::Interface), None);
}

#[test]
fn model_constants_share_slots_by_key() {
    let mut c: Chunk<&str> = Chunk::new("main.bxs");
    let a = c.add_model_constant("f", &ConstantModel::CompiledFunction("f".to_string()));
    let b = c.add_model_constant("f again", &ConstantModel::CompiledFunction("f".to_string()));
    let k1 = c.add_model_constant("class", &ConstantModel::Class);
    let k2 = c.add_model_constant("class", &ConstantModel::Class);
    let n = c.add_model_constant("-0", &ConstantModel::Number((-0.0f64).to_bits()));
    let z = c.add_model_constant("0", &ConstantModel::Number(0.0f64.to_bits()));
    assert_eq!((a, b, k1, k2, n, z), (0, 0, 1, 2, 3, 4));
}
