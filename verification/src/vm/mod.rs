pub mod trace;
pub mod call;
pub mod report;
pub mod member;
pub mod type_hint;
pub mod gc;
pub mod opcode;
pub mod intern;
pub mod shape;
pub mod chunk;
