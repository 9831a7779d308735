//! Flat u32 opcode encoding.
//!
//! Word 0: low 8 bits = opcode, high 24 bits = first operand (op0).
//! Multi-word instructions have additional 32-bit words for extra operands.
//!
//! Instruction widths:
//!   1-word: most instructions
//!   2-word: COMPARE_JUMP, CALL_NAMED, INVOKE
//!   3-word: LOCAL_COMPARE_JUMP, GLOBAL_COMPARE_JUMP, INVOKE_NAMED, INVOKE_NAMED_SPREAD, ITER_NEXT,
//!   LOCAL_JUMP_IF_NE_CONST, FOR_LOOP_STEP
use vstd::prelude::*;

pub mod op;

verus! {

/// The mnemonic of each opcode, indexed by its number.
pub open spec fn opcode_names() -> Seq<Seq<char>> {
    seq![
        "INC_LOCAL"@,
        "LOCAL_COMPARE_JUMP"@,
        "COMPARE_JUMP"@,
        "INC_GLOBAL"@,
        "GLOBAL_COMPARE_JUMP"@,
        "GET_LOCAL"@,
        "SET_LOCAL"@,
        "SET_LOCAL_POP"@,
        "CONSTANT"@,
        "ADD_INT"@,
        "ADD_FLOAT"@,
        "ADD"@,
        "SUBTRACT"@,
        "SUB_INT"@,
        "SUB_FLOAT"@,
        "MULTIPLY"@,
        "MUL_INT"@,
        "MUL_FLOAT"@,
        "DIVIDE"@,
        "DIV_FLOAT"@,
        "POP"@,
        "JUMP_IF_FALSE"@,
        "JUMP"@,
        "LOOP"@,
        "RETURN"@,
        "GET_GLOBAL"@,
        "SET_GLOBAL"@,
        "SET_GLOBAL_POP"@,
        "DEFINE_GLOBAL"@,
        "GET_PRIVATE"@,
        "SET_PRIVATE"@,
        "DUP"@,
        "SWAP"@,
        "OVER"@,
        "INC"@,
        "DEC"@,
        "ARRAY"@,
        "STRUCT"@,
        "INDEX"@,
        "SET_INDEX"@,
        "MEMBER"@,
        "SET_MEMBER"@,
        "INC_MEMBER"@,
        "STRING_CONCAT"@,
        "CALL"@,
        "CALL_NAMED"@,
        "CALL_SPREAD"@,
        "INVOKE"@,
        "INVOKE_NAMED"@,
        "NEW"@,
        "EQUAL"@,
        "NOT_EQUAL"@,
        "LESS"@,
        "LESS_EQUAL"@,
        "GREATER"@,
        "GREATER_EQUAL"@,
        "NOT"@,
        "ITER_NEXT"@,
        "LOCAL_JUMP_IF_NE_CONST"@,
        "PUSH_HANDLER"@,
        "POP_HANDLER"@,
        "THROW"@,
        "PRINT"@,
        "PRINTLN"@,
        "FOR_LOOP_STEP"@,
        "JUMP_IF_NULL"@,
        "MODULO"@,
        "BIT_OR"@,
        "BIT_AND"@,
        "BIT_XOR"@,
        "BIT_NOT"@,
        "BIT_SHL"@,
        "BIT_SHR"@,
        "BIT_USHR"@,
        "POW"@,
        "XOR_OP"@,
        "EQV_OP"@,
        "RANGE"@,
        "BUFFER_WRITE"@,
        "CONTAINS"@,
        "ARRAY_SPREAD"@,
        "STRUCT_SPREAD"@,
        "INSTANCEOF"@,
        "CASTAS"@,
        "CALL_NAMED_SPREAD"@,
        "INVOKE_NAMED_SPREAD"@,
        "END_FINALLY"@,
        "INTEGER_DIVIDE"@,
        "STRICT_EQUAL"@,
        "STRICT_NOT_EQUAL"@,
        "SAFE_INDEX"@,
    ]
}

/// The mnemonic of an opcode; `UNKNOWN` for a number that names none.
pub fn opcode_name(op: u8) -> (r: &'static str)
    ensures
        r@ == (if (op as int) < opcode_names().len() {
            opcode_names()[op as int]
        } else {
            "UNKNOWN"@
        }),
{
    match op {
        op::INC_LOCAL => "INC_LOCAL",
        op::LOCAL_COMPARE_JUMP => "LOCAL_COMPARE_JUMP",
        op::COMPARE_JUMP => "COMPARE_JUMP",
        op::INC_GLOBAL => "INC_GLOBAL",
        op::GLOBAL_COMPARE_JUMP => "GLOBAL_COMPARE_JUMP",
        op::GET_LOCAL => "GET_LOCAL",
        op::SET_LOCAL => "SET_LOCAL",
        op::SET_LOCAL_POP => "SET_LOCAL_POP",
        op::CONSTANT => "CONSTANT",
        op::ADD_INT => "ADD_INT",
        op::ADD_FLOAT => "ADD_FLOAT",
        op::ADD => "ADD",
        op::SUBTRACT => "SUBTRACT",
        op::SUB_INT => "SUB_INT",
        op::SUB_FLOAT => "SUB_FLOAT",
        op::MULTIPLY => "MULTIPLY",
        op::MUL_INT => "MUL_INT",
        op::MUL_FLOAT => "MUL_FLOAT",
        op::DIVIDE => "DIVIDE",
        op::DIV_FLOAT => "DIV_FLOAT",
        op::POP => "POP",
        op::JUMP_IF_FALSE => "JUMP_IF_FALSE",
        op::JUMP => "JUMP",
        op::LOOP => "LOOP",
        op::RETURN => "RETURN",
        op::GET_GLOBAL => "GET_GLOBAL",
        op::SET_GLOBAL => "SET_GLOBAL",
        op::SET_GLOBAL_POP => "SET_GLOBAL_POP",
        op::DEFINE_GLOBAL => "DEFINE_GLOBAL",
        op::GET_PRIVATE => "GET_PRIVATE",
        op::SET_PRIVATE => "SET_PRIVATE",
        op::DUP => "DUP",
        op::SWAP => "SWAP",
        op::OVER => "OVER",
        op::INC => "INC",
        op::DEC => "DEC",
        op::ARRAY => "ARRAY",
        op::STRUCT => "STRUCT",
        op::INDEX => "INDEX",
        op::SET_INDEX => "SET_INDEX",
        op::MEMBER => "MEMBER",
        op::SET_MEMBER => "SET_MEMBER",
        op::INC_MEMBER => "INC_MEMBER",
        op::STRING_CONCAT => "STRING_CONCAT",
        op::CALL => "CALL",
        op::CALL_NAMED => "CALL_NAMED",
        op::CALL_SPREAD => "CALL_SPREAD",
        op::INVOKE => "INVOKE",
        op::INVOKE_NAMED => "INVOKE_NAMED",
        op::NEW => "NEW",
        op::EQUAL => "EQUAL",
        op::NOT_EQUAL => "NOT_EQUAL",
        op::LESS => "LESS",
        op::LESS_EQUAL => "LESS_EQUAL",
        op::GREATER => "GREATER",
        op::GREATER_EQUAL => "GREATER_EQUAL",
        op::NOT => "NOT",
        op::ITER_NEXT => "ITER_NEXT",
        op::LOCAL_JUMP_IF_NE_CONST => "LOCAL_JUMP_IF_NE_CONST",
        op::PUSH_HANDLER => "PUSH_HANDLER",
        op::POP_HANDLER => "POP_HANDLER",
        op::THROW => "THROW",
        op::PRINT => "PRINT",
        op::PRINTLN => "PRINTLN",
        op::FOR_LOOP_STEP => "FOR_LOOP_STEP",
        op::JUMP_IF_NULL => "JUMP_IF_NULL",
        op::MODULO => "MODULO",
        op::BIT_OR => "BIT_OR",
        op::BIT_AND => "BIT_AND",
        op::BIT_XOR => "BIT_XOR",
        op::BIT_NOT => "BIT_NOT",
        op::BIT_SHL => "BIT_SHL",
        op::BIT_SHR => "BIT_SHR",
        op::BIT_USHR => "BIT_USHR",
        op::POW => "POW",
        op::XOR_OP => "XOR_OP",
        op::EQV_OP => "EQV_OP",
        op::RANGE => "RANGE",
        op::BUFFER_WRITE => "BUFFER_WRITE",
        op::CONTAINS => "CONTAINS",
        op::ARRAY_SPREAD => "ARRAY_SPREAD",
        op::STRUCT_SPREAD => "STRUCT_SPREAD",
        op::INSTANCEOF => "INSTANCEOF",
        op::CASTAS => "CASTAS",
        op::CALL_NAMED_SPREAD => "CALL_NAMED_SPREAD",
        op::INVOKE_NAMED_SPREAD => "INVOKE_NAMED_SPREAD",
        op::END_FINALLY => "END_FINALLY",
        op::INTEGER_DIVIDE => "INTEGER_DIVIDE",
        op::STRICT_EQUAL => "STRICT_EQUAL",
        op::STRICT_NOT_EQUAL => "STRICT_NOT_EQUAL",
        op::SAFE_INDEX => "SAFE_INDEX",
        _ => "UNKNOWN",
    }
}

} // verus!
