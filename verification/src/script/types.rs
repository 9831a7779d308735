use vstd::prelude::*;
use crate::script::chunk::Chunk;

verus! {

/// A compiled function: its name, how many arguments it takes, and its code.
#[derive(Debug, Clone, PartialEq)]
pub struct BxCompiledFunction<V> {
    pub name: String,
    pub arity: usize,
    pub chunk: Chunk<V>,
}

/// A compiled class: its name, the code that initialises an instance, and
/// its methods by lower-case name.
#[derive(Debug, Clone, PartialEq)]
pub struct BxClass<V> {
    pub name: String,
    pub constructor: Chunk<V>,
    pub methods: Vec<(String, BxCompiledFunction<V>)>,
}

} // verus!
