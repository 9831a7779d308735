//! The route table an embedded build carries: the compiled application
//! lifecycle file and one entry per routed source file.
use vstd::prelude::*;

verus! {

/// The compiled application and routes of an embedded build.
#[derive(Debug, Clone, PartialEq)]
pub struct EmbeddedRouteTable {
    pub application: Option<EmbeddedApplicationEntry>,
    pub routes: Vec<EmbeddedRouteTableEntry>,
}

/// The compiled `Application.bx` lifecycle file.
#[derive(Debug, Clone, PartialEq)]
pub struct EmbeddedApplicationEntry {
    pub source_path: String,
    pub bytecode: Vec<u8>,
}

/// One routed source file: its HTTP method and path, whether it is a
/// `template` or a `script`, where it came from, and its bytecode.
#[derive(Debug, Clone, PartialEq)]
pub struct EmbeddedRouteTableEntry {
    pub method: String,
    pub path: String,
    pub source_kind: String,
    pub source_path: String,
    pub bytecode: Vec<u8>,
}

} // verus!
