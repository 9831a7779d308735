//! The opcode numbers.
use vstd::prelude::*;

verus! {

pub const INC_LOCAL: u8 = 0;
/// 3-word: op0=slot, w1=const_idx, w2=offset
pub const LOCAL_COMPARE_JUMP: u8 = 1;
/// 2-word: op0=const_idx, w1=offset
pub const COMPARE_JUMP: u8 = 2;
pub const INC_GLOBAL: u8 = 3;
/// 3-word: op0=name_idx, w1=const_idx, w2=offset
pub const GLOBAL_COMPARE_JUMP: u8 = 4;
pub const GET_LOCAL: u8 = 5;
pub const SET_LOCAL: u8 = 6;
pub const SET_LOCAL_POP: u8 = 7;
pub const CONSTANT: u8 = 8;
pub const ADD_INT: u8 = 9;
pub const ADD_FLOAT: u8 = 10;
pub const ADD: u8 = 11;
pub const SUBTRACT: u8 = 12;
pub const SUB_INT: u8 = 13;
pub const SUB_FLOAT: u8 = 14;
pub const MULTIPLY: u8 = 15;
pub const MUL_INT: u8 = 16;
pub const MUL_FLOAT: u8 = 17;
pub const DIVIDE: u8 = 18;
pub const DIV_FLOAT: u8 = 19;
pub const POP: u8 = 20;
pub const JUMP_IF_FALSE: u8 = 21;
pub const JUMP: u8 = 22;
pub const LOOP: u8 = 23;
pub const RETURN: u8 = 24;
pub const GET_GLOBAL: u8 = 25;
pub const SET_GLOBAL: u8 = 26;
pub const SET_GLOBAL_POP: u8 = 27;
pub const DEFINE_GLOBAL: u8 = 28;
pub const GET_PRIVATE: u8 = 29;
pub const SET_PRIVATE: u8 = 30;
pub const DUP: u8 = 31;
pub const SWAP: u8 = 32;
pub const OVER: u8 = 33;
pub const INC: u8 = 34;
pub const DEC: u8 = 35;
pub const ARRAY: u8 = 36;
pub const STRUCT: u8 = 37;
pub const INDEX: u8 = 38;
pub const SET_INDEX: u8 = 39;
pub const MEMBER: u8 = 40;
pub const SET_MEMBER: u8 = 41;
pub const INC_MEMBER: u8 = 42;
pub const STRING_CONCAT: u8 = 43;
pub const CALL: u8 = 44;
/// 2-word: op0=total_count, w1=names_idx
pub const CALL_NAMED: u8 = 45;
/// 1-word: op0=arg_entry_count
pub const CALL_SPREAD: u8 = 46;
/// 2-word: op0=name_idx, w1=arg_count
pub const INVOKE: u8 = 47;
/// 3-word: op0=name_idx, w1=total_count, w2=names_idx
pub const INVOKE_NAMED: u8 = 48;
pub const NEW: u8 = 49;
pub const EQUAL: u8 = 50;
pub const NOT_EQUAL: u8 = 51;
pub const LESS: u8 = 52;
pub const LESS_EQUAL: u8 = 53;
pub const GREATER: u8 = 54;
pub const GREATER_EQUAL: u8 = 55;
pub const NOT: u8 = 56;
/// 3-word: op0=collection_slot, w1=cursor_slot|(has_index<<31), w2=exit_offset
pub const ITER_NEXT: u8 = 57;
/// 3-word: op0=slot, w1=const_idx, w2=offset
pub const LOCAL_JUMP_IF_NE_CONST: u8 = 58;
/// 2-word: op0=absolute catch ip or 0, w1=absolute finally ip or 0
pub const PUSH_HANDLER: u8 = 59;
pub const POP_HANDLER: u8 = 60;
pub const THROW: u8 = 61;
pub const PRINT: u8 = 62;
pub const PRINTLN: u8 = 63;
/// 3-word: op0=slot, w1=const_idx, w2=offset — increment local, compare < const, jump back if true
pub const FOR_LOOP_STEP: u8 = 64;
pub const JUMP_IF_NULL: u8 = 65;
pub const MODULO: u8 = 66;
pub const BIT_OR: u8 = 67;
pub const BIT_AND: u8 = 68;
pub const BIT_XOR: u8 = 69;
pub const BIT_NOT: u8 = 70;
pub const BIT_SHL: u8 = 71;
pub const BIT_SHR: u8 = 72;
pub const BIT_USHR: u8 = 73;
pub const POW: u8 = 74;
pub const XOR_OP: u8 = 75;
pub const EQV_OP: u8 = 76;
pub const RANGE: u8 = 77;
pub const BUFFER_WRITE: u8 = 78;
pub const CONTAINS: u8 = 79;
pub const ARRAY_SPREAD: u8 = 80;
pub const STRUCT_SPREAD: u8 = 81;
pub const INSTANCEOF: u8 = 82;
pub const CASTAS: u8 = 83;
/// 1-word: op0=arg_entry_count
pub const CALL_NAMED_SPREAD: u8 = 84;
/// 3-word: op0=name_idx, w1=arg_entry_count, w2=unused
pub const INVOKE_NAMED_SPREAD: u8 = 85;
pub const END_FINALLY: u8 = 86;
pub const INTEGER_DIVIDE: u8 = 87;
pub const STRICT_EQUAL: u8 = 88;
pub const STRICT_NOT_EQUAL: u8 = 89;
pub const SAFE_INDEX: u8 = 90;

} // verus!
