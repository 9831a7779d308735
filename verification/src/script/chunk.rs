use vstd::prelude::*;
use crate::script::opcode::OpCode;

verus! {

/// A compiled script: instructions with their source lines, the constants
/// they refer to (of type `V`), and the file name.
#[derive(Debug, Clone, PartialEq)]
pub struct Chunk<V> {
    pub code: Vec<OpCode>,
    pub constants: Vec<V>,
    pub lines: Vec<usize>,
    pub filename: String,
}

impl<V> Default for Chunk<V> {
    fn default() -> (c: Self)
        ensures
            c.code@.len() == 0,
            c.constants@.len() == 0,
            c.lines@.len() == 0,
            c.filename@.len() == 0,
    {
        Chunk { code: Vec::new(), constants: Vec::new(), lines: Vec::new(), filename: String::new() }
    }
}

impl<V> Chunk<V> {
    /// An empty chunk for `filename`.
    pub fn new(filename: &str) -> (c: Self)
        ensures
            c.code@.len() == 0,
            c.constants@.len() == 0,
            c.lines@.len() == 0,
            c.filename@ == filename@,
    {
        Chunk { code: Vec::new(), constants: Vec::new(), lines: Vec::new(), filename: filename.to_owned() }
    }

    /// Appends an instruction from source line `line`.
    pub fn write(&mut self, opcode: OpCode, line: usize)
        ensures
            final(self).code@ == old(self).code@.push(opcode),
            final(self).lines@ == old(self).lines@.push(line),
            final(self).constants@ == old(self).constants@,
            final(self).filename@ == old(self).filename@,
    {
        self.code.push(opcode);
        self.lines.push(line);
    }

    /// Appends a constant and gives its index.
    pub fn add_constant(&mut self, value: V) -> (idx: usize)
        ensures
            idx == old(self).constants@.len(),
            final(self).constants@ == old(self).constants@.push(value),
            final(self).code@ == old(self).code@,
            final(self).lines@ == old(self).lines@,
            final(self).filename@ == old(self).filename@,
    {
        self.constants.push(value);
        self.constants.len() - 1
    }
}

} // verus!
