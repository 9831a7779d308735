use matchbox_vm::script::chunk::Chunk;
use matchbox_vm::script::opcode::OpCode;
use matchbox_vm::script::types::{BxClass, BxCompiledFunction};

#[test]
fn script_chunk_records_instructions_lines_and_constants() {
    let mut c: Chunk<String> = Chunk::new("hello.bxs");
    let i = c.add_constant("hi".to_string());
    c.write(OpCode::OpConstant(i), 1);
    c.write(OpCode::OpPrintln(1), 1);
    c.write(OpCode::OpReturn, 2);
    assert_eq!(i, 0);
    assert_eq!(c.add_constant("hi".to_string()), 1);
    assert_eq!(c.code, vec![OpCode::OpConstant(0), OpCode::OpPrintln(1), OpCode::OpReturn]);
    assert_eq!(c.lines, vec![1, 1, 2]);
    assert_eq!(c.filename, "hello.bxs");
    let d: Chunk<String> = Chunk::default();
    assert!(d.code.is_empty() && d.constants.is_empty() && d.filename.is_empty());
}

#[test]
fn classes_hold_compiled_methods() {
    let mut body: Chunk<u8> = Chunk::new("c.bx");
    body.write(OpCode::OpReturn, 3);
    let f = BxCompiledFunction { name: "greet".to_string(), arity: 1, chunk: body };
    let class = BxClass {
        name: "Greeter".to_string(),
        constructor: Chunk::new("c.bx"),
        methods: vec![("greet".to_string(), f.clone())],
    };
    assert_eq!(class.methods[0].1.arity, 1);
    assert_eq!(class.methods[0].1, f);
}
