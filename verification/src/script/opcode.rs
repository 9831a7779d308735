use vstd::prelude::*;

verus! {

/// The script runner's instruction set: one variant per instruction,
/// operands inline.
#[derive(Debug, Clone, Copy, PartialEq, Eq, Structural)]
pub enum OpCode {
    /// Index into the constant pool.
    OpConstant(usize),
    OpAdd,
    OpSubtract,
    OpMultiply,
    OpDivide,
    OpStringConcat,
    OpEqual,
    OpNotEqual,
    OpLess,
    OpLessEqual,
    OpGreater,
    OpGreaterEqual,
    /// Argument count.
    OpPrint(usize),
    /// Argument count.
    OpPrintln(usize),
    OpPop,
    /// Index of the name in the constant pool.
    OpDefineGlobal(usize),
    /// Index of the name in the constant pool.
    OpGetGlobal(usize),
    /// Index of the name in the constant pool.
    OpSetGlobal(usize),
    /// Index on the stack.
    OpGetLocal(usize),
    /// Index on the stack.
    OpSetLocal(usize),
    /// Element count.
    OpArray(usize),
    /// Pair count.
    OpStruct(usize),
    /// Bracket access `[idx]`.
    OpIndex,
    /// Dot access `.member` (index in constants).
    OpMember(usize),
    /// Argument count.
    OpCall(usize),
    /// Offset to jump forward.
    OpJump(usize),
    /// Offset to jump forward if the top of the stack is falsey.
    OpJumpIfFalse(usize),
    /// Offset to jump backward.
    OpLoop(usize),
    /// Collection slot, cursor slot, offset if done, whether to push the index.
    OpIterNext(usize, usize, usize, bool),
    OpReturn,
    /// Offset of the catch block from the instruction after this one.
    OpPushHandler(usize),
    OpPopHandler,
    OpThrow,
    /// Argument count.
    OpNew(usize),
    /// Index of the name in the constant pool.
    OpGetPrivate(usize),
    /// Index of the name in the constant pool.
    OpSetPrivate(usize),
    /// Index of the member name in the constant pool.
    OpSetMember(usize),
    OpSetIndex,
    /// Index of the method name in the constant pool, argument count.
    OpInvoke(usize, usize),
    OpInc,
    OpDec,
    OpDup,
    OpSwap,
    OpOver,
}

} // verus!
