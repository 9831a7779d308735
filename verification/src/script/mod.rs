//! The bytecode of the stand-alone script runner: an instruction enum with
//! inline operands, chunks that hold it, and compiled functions and classes.
pub mod opcode;
pub mod chunk;
pub mod types;
pub mod ast;
pub mod codegen;
pub mod compiler;
