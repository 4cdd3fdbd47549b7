//! The failures a program can run into, while it is loaded or while it runs.
use vstd::prelude::*;

verus! {

/// List of virtual machine errors. The first failure ends the run.
#[derive(Debug, PartialEq, Eq)]
pub enum Error {
    /// No such integer register: the number of registers, then the register asked for.
    NoSuchIntegerRegister(usize, usize),
    /// No such floating register: the number of registers, then the register asked for.
    NoSuchFloatingRegister(usize, usize),
    /// A function has no end, or another function starts inside it. Names the
    /// function that has no end, or the inner one.
    BrokenFunctionDefinition(&'static str),
    /// The named function is called for, and the program does not define it.
    FunctionIsNotDefined(&'static str),
    /// There are more returns than calls.
    ReturnStackExhausted,
    /// A function's start or end marker was met while running.
    OpcodeMustBeUnreachable,
    /// A jump names a label that the running function does not hold.
    LabelDoesNotExist(&'static str),
    /// The named variable does not exist in the function asked.
    VariableDoesNotExist(&'static str),
    /// A variable has no bytes, or bytes that lie outside the data segment.
    DataSegmentError,
    /// A label of the named function points outside that function.
    RestrictedJumpOutOfScope(&'static str),
    /// The destination of a store cannot be written to: it is a constant.
    UnsupportedOperation,
    /// A value is of another kind than the place or the operation takes.
    UnsupportedOperand,
    /// The addressing mode or operation is reserved for later.
    NotImplemented,
}

} // verus!
