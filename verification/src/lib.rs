//! MatchBox virtual-machine support library: the bytecode opcode table and
//! instruction encoding, compiled chunks with their constant tables and
//! per-chunk inline caches, the generational garbage-collected heap and its
//! presets, the string interner, hidden-class shapes, member-method
//! resolution and type hints, the script runner's
//! bytecode, the embedded route table, and Query of Queries (SQL over
//! in-memory results): lexer, parser, column planning, parameter binding
//! and the arithmetic-free parts of execution.

pub mod text;
pub mod assoc;
pub mod qoq;
pub mod vm;
pub mod script;
pub mod embedded;
