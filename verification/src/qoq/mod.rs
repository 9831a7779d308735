//! Query of Queries: SQL over in-memory query results.
pub mod token;
pub mod lexer;
pub mod ast;
pub mod parser;
pub mod walk;
pub mod plan;
pub mod bind;
pub mod value;
pub mod exec;
pub mod rows;
