use matchbox_vm::vm::opcode::{op, opcode_name};
use matchbox_vm::script::opcode::OpCode;

#[test]
fn names_of_known_opcodes() {
    assert_eq!(opcode_name(op::INC_LOCAL), "INC_LOCAL");
    assert_eq!(opcode_name(op::CONSTANT), "CONSTANT");
    assert_eq!(opcode_name(op::ITER_NEXT), "ITER_NEXT");
    assert_eq!(opcode_name(op::SAFE_INDEX), "SAFE_INDEX");
    assert_eq!(opcode_name(44), "CALL");
}

#[test]
fn unknown_opcodes() {
    assert_eq!(opcode_name(91), "UNKNOWN");
    assert_eq!(opcode_name(255), "UNKNOWN");
}

#[test]
fn opcode_numbers() {
    assert_eq!(op::INC_LOCAL, 0);
    assert_eq!(op::RETURN, 24);
    assert_eq!(op::STRICT_NOT_EQUAL, 89);
    assert_eq!(op::SAFE_INDEX, 90);
}

#[test]
fn script_opcodes_compare_by_variant_and_operands() {
    let a = OpCode::OpConstant(3);
    assert_eq!(a.clone(), OpCode::OpConstant(3));
    assert_ne!(a, OpCode::OpReturn);
    assert_eq!(OpCode::OpIterNext(1, 2, 3, true), OpCode::OpIterNext(1, 2, 3, true));
}
