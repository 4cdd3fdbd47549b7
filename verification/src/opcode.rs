//! The instruction set.
use vstd::prelude::*;
use crate::operand::OperandType;

verus! {

/// Operation code: one instruction of a program.
#[derive(Debug, Clone, Copy)]
pub enum Opcode {
    /// Special marker that defines function start.
    FunctionStart(&'static str),
    /// Function end.
    FunctionEnd,
    /// Call function by its name.
    Call(&'static str),
    /// Return from function to previous execution place.
    Return,
    /// Label is also an opcode, but dummy. Used to be jumped to.
    Label(&'static str),
    /// Unconditional jump.
    Jump(&'static str),
    /// Jump if operand equals zero.
    JumpZero(&'static str, OperandType),
    /// Jump if operand is NOT zero.
    JumpNotZero(&'static str, OperandType),
    /// Jump if arg1 < arg2.
    JumpBelow(&'static str, OperandType, OperandType),
    /// Jump if arg1 <= arg2.
    JumpBelowEqual(&'static str, OperandType, OperandType),
    /// Jump if arg1 > arg2.
    JumpAbove(&'static str, OperandType, OperandType),
    /// Jump if arg1 >= arg2.
    JumpAboveEqual(&'static str, OperandType, OperandType),
    /// Jump if arg1 == arg2.
    JumpEqual(&'static str, OperandType, OperandType),
    /// Jump if arg1 != arg2.
    JumpNotEqual(&'static str, OperandType, OperandType),
    /// Move a value into a register. Destination can't be a constant.
    Move(OperandType, OperandType),
    /// Stores into the destination (first argument) the sum of two arbitrary operands.
    Add(OperandType, OperandType, OperandType),
    /// Stores into the destination (first argument) the difference of two arbitrary operands.
    Sub(OperandType, OperandType, OperandType),
    /// 8 bits variable (1 byte).
    I08(&'static str),
    /// 16 bits variable (2 bytes).
    I16(&'static str),
    /// 32 bits variable (4 bytes).
    I32(&'static str),
    /// 64 bits variable (8 bytes).
    I64(&'static str),
}

impl Opcode {
    /// Whether the opcode starts a function of the name given.
    pub open spec fn starts(self, name: Seq<char>) -> bool {
        self is FunctionStart && self->FunctionStart_0@ == name
    }

    /// Whether the opcode is a label of the name given.
    pub open spec fn marks(self, name: Seq<char>) -> bool {
        self is Label && self->Label_0@ == name
    }
}

} // verus!
