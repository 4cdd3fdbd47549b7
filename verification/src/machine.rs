//! The state of the machine as mathematical values, and what one turn does to it.
use vstd::prelude::*;
use crate::error::Error;
use crate::function::FunctionView;
use crate::opcode::Opcode;
use crate::operand::OperandType;
use crate::operand::OperandValue;

verus! {

/// The state of a machine: what its registers hold, where it stands in the
/// program, and the calls that have not returned yet.
pub ghost struct Machine {
    pub integer_register: Seq<i64>,
    /// The place in the program of the opcode to run next.
    pub opcode_pointer: usize,
    /// The sum of the frame sizes of the calls under way.
    pub stack_pointer: usize,
    /// One record for each call under way, the latest last: the name of the
    /// calling function, the place to go on from, and its stack pointer.
    pub return_stack: Seq<(&'static str, usize, usize)>,
}

/// The functions of a program by name.
pub type FunctionTable = Map<Seq<char>, FunctionView>;

impl Opcode {
    /// Whether the opcode is one of the jumps.
    pub open spec fn is_jump(self) -> bool {
        match self {
            Opcode::Jump(_)
            | Opcode::JumpZero(_, _)
            | Opcode::JumpNotZero(_, _)
            | Opcode::JumpBelow(_, _, _)
            | Opcode::JumpBelowEqual(_, _, _)
            | Opcode::JumpAbove(_, _, _)
            | Opcode::JumpAboveEqual(_, _, _)
            | Opcode::JumpEqual(_, _, _)
            | Opcode::JumpNotEqual(_, _, _) => true,
            _ => false,
        }
    }

    /// The label that a jump goes to.
    pub open spec fn jump_label(self) -> &'static str {
        match self {
            Opcode::Jump(name)
            | Opcode::JumpZero(name, _)
            | Opcode::JumpNotZero(name, _)
            | Opcode::JumpBelow(name, _, _)
            | Opcode::JumpBelowEqual(name, _, _)
            | Opcode::JumpAbove(name, _, _)
            | Opcode::JumpAboveEqual(name, _, _)
            | Opcode::JumpEqual(name, _, _)
            | Opcode::JumpNotEqual(name, _, _) => name,
            _ => "",
        }
    }

    /// The two operands that a jump compares. Where the opcode gives fewer,
    /// the constant zero stands in.
    pub open spec fn jump_operands(self) -> (OperandType, OperandType) {
        match self {
            Opcode::JumpZero(_, arg1) | Opcode::JumpNotZero(_, arg1) => (
                arg1,
                OperandType::IntegerConstant(0),
            ),
            Opcode::JumpBelow(_, arg1, arg2)
            | Opcode::JumpBelowEqual(_, arg1, arg2)
            | Opcode::JumpAbove(_, arg1, arg2)
            | Opcode::JumpAboveEqual(_, arg1, arg2)
            | Opcode::JumpEqual(_, arg1, arg2)
            | Opcode::JumpNotEqual(_, arg1, arg2) => (arg1, arg2),
            _ => (OperandType::IntegerConstant(0), OperandType::IntegerConstant(0)),
        }
    }

    /// Whether a jump is taken when its operands hold `x` and `y`.
    pub open spec fn jump_taken(self, x: i64, y: i64) -> bool {
        match self {
            Opcode::Jump(_) => true,
            Opcode::JumpZero(_, _) => x == 0,
            Opcode::JumpNotZero(_, _) => x != 0,
            Opcode::JumpBelow(_, _, _) => x < y,
            Opcode::JumpBelowEqual(_, _, _) => x <= y,
            Opcode::JumpAbove(_, _, _) => x > y,
            Opcode::JumpAboveEqual(_, _, _) => x >= y,
            Opcode::JumpEqual(_, _, _) => x == y,
            Opcode::JumpNotEqual(_, _, _) => x != y,
            _ => false,
        }
    }
}

impl Machine {
    /// The machine with other registers.
    pub open spec fn with_registers(self, integer_register: Seq<i64>) -> Machine {
        Machine { integer_register, ..self }
    }

    /// The machine at another place in the program.
    pub open spec fn at(self, opcode_pointer: usize) -> Machine {
        Machine { opcode_pointer, ..self }
    }

    /// The machine one opcode further on.
    pub open spec fn next(self) -> Machine {
        self.at((self.opcode_pointer + 1) as usize)
    }

    /// What a register holds. There is no register beyond the last.
    pub open spec fn register(self, reg_number: usize) -> Result<i64, Error> {
        if reg_number < self.integer_register.len() {
            Ok(self.integer_register[reg_number as int])
        } else {
            Err(Error::NoSuchIntegerRegister(self.integer_register.len() as usize, reg_number))
        }
    }

    /// The value of an operand: what the register holds, or the constant
    /// itself. Memory cannot be read.
    pub open spec fn fetch(self, operand: OperandType) -> Result<OperandValue, Error> {
        match operand {
            OperandType::IntegerRegister(n) => match self.register(n) {
                Ok(val) => Ok(OperandValue::IntegerValue(val)),
                Err(e) => Err(e),
            },
            OperandType::IntegerConstant(n) => Ok(OperandValue::IntegerValue(n)),
            OperandType::Memory(_) => Err(Error::NotImplemented),
        }
    }

    /// The value of an operand as an integer.
    pub open spec fn fetch_integer(self, operand: OperandType) -> Result<i64, Error> {
        match self.fetch(operand) {
            Ok(value) => value.integer(),
            Err(e) => Err(e),
        }
    }

    /// The machine after a value went to an operand. Only a register takes a
    /// value, and only an integer; no other register changes.
    pub open spec fn store(self, operand: OperandType, new_value: OperandValue) -> Result<
        Machine,
        Error,
    > {
        match operand {
            OperandType::IntegerRegister(n) => match new_value.integer() {
                Ok(val) => if n < self.integer_register.len() {
                    Ok(self.with_registers(self.integer_register.update(n as int, val)))
                } else {
                    Err(
                        Error::NoSuchIntegerRegister(self.integer_register.len() as usize, n),
                    )
                },
                Err(e) => Err(e),
            },
            OperandType::IntegerConstant(_) => Err(Error::UnsupportedOperation),
            OperandType::Memory(_) => Err(Error::NotImplemented),
        }
    }

    /// What a jump needs before it decides: the place of its label, which
    /// must be a label of the running function and lie inside it, and the
    /// integers that its two operands hold.
    pub open spec fn jump_target(
        self,
        current: FunctionView,
        label_name: &'static str,
        arg1: OperandType,
        arg2: OperandType,
    ) -> Result<(usize, i64, i64), Error> {
        if !current.labels.contains_key(label_name@) {
            Err(Error::LabelDoesNotExist(label_name))
        } else if !current.contains(current.labels[label_name@]) {
            Err(Error::RestrictedJumpOutOfScope(current.name))
        } else {
            match self.fetch_integer(arg1) {
                Ok(x) => match self.fetch_integer(arg2) {
                    Ok(y) => Ok((current.labels[label_name@], x, y)),
                    Err(e) => Err(e),
                },
                Err(e) => Err(e),
            }
        }
    }

    /// The machine after a jump that found its target: at the target if the
    /// jump is taken, else one opcode further on.
    pub open spec fn jumped(self, target: usize, taken: bool) -> Machine {
        if taken {
            self.at(target)
        } else {
            self.next()
        }
    }

    /// The machine after an addition or a subtraction whose operands were
    /// read and combined into `value`: it stands one opcode further on even
    /// where the destination then refuses the value.
    pub open spec fn computed(self, dst: OperandType, value: Result<OperandValue, Error>) -> (
        Machine,
        Result<(), Error>,
    ) {
        match value {
            Ok(v) => match self.next().store(dst, v) {
                Ok(after) => (after, Ok(())),
                Err(e) => (self.next(), Err(e)),
            },
            Err(e) => (self.next(), Err(e)),
        }
    }

    /// The machine after the call of a function, made from `current`.
    pub open spec fn called(self, current: FunctionView, callee: FunctionView) -> Machine {
        Machine {
            integer_register: self.integer_register,
            opcode_pointer: callee.opcodes_range.start,
            stack_pointer: (self.stack_pointer + callee.stackframe_size) as usize,
            return_stack: self.return_stack.push(
                (current.name, (self.opcode_pointer + 1) as usize, self.stack_pointer),
            ),
        }
    }

    /// The machine with the latest return record taken off, not yet acted on.
    pub open spec fn popped(self) -> Machine {
        Machine { return_stack: self.return_stack.drop_last(), ..self }
    }

    /// The machine after a return: the latest record is gone, and the machine
    /// stands where that record says.
    pub open spec fn returned(self) -> Machine {
        Machine {
            integer_register: self.integer_register,
            opcode_pointer: self.return_stack.last().1,
            stack_pointer: self.return_stack.last().2,
            return_stack: self.return_stack.drop_last(),
        }
    }

    /// One turn: the machine after `operation` ran inside `current`, and the
    /// function that runs next or the error that ended the turn. On an error
    /// the machine is the one that the turn had reached by then.
    pub open spec fn turn(
        self,
        operation: Opcode,
        current: FunctionView,
        functions: FunctionTable,
    ) -> (Machine, Result<FunctionView, Error>) {
        match operation {
            Opcode::FunctionStart(_) | Opcode::FunctionEnd => (
                self,
                Err(Error::OpcodeMustBeUnreachable),
            ),
            Opcode::I08(_) | Opcode::I16(_) | Opcode::I32(_) | Opcode::I64(_) | Opcode::Label(
                _,
            ) => (self.next(), Ok(current)),
            Opcode::Call(name) => if functions.contains_key(name@) {
                (self.called(current, functions[name@]), Ok(functions[name@]))
            } else {
                (self, Err(Error::FunctionIsNotDefined(name)))
            },
            Opcode::Return => if self.return_stack.len() == 0 {
                (self, Err(Error::ReturnStackExhausted))
            } else if functions.contains_key(self.return_stack.last().0@) {
                (self.returned(), Ok(functions[self.return_stack.last().0@]))
            } else {
                (self.popped(), Err(Error::FunctionIsNotDefined(self.return_stack.last().0)))
            },
            Opcode::Move(dst, src) => match self.fetch(src) {
                Ok(value) => match self.store(dst, value) {
                    Ok(after) => (after.next(), Ok(current)),
                    Err(e) => (self, Err(e)),
                },
                Err(e) => (self, Err(e)),
            },
            Opcode::Add(dst, src1, src2) => match self.fetch(src1) {
                Ok(x) => match self.fetch(src2) {
                    Ok(y) => {
                        let (after, done) = self.computed(dst, x.sum(y));
                        match done {
                            Ok(_) => (after, Ok(current)),
                            Err(e) => (after, Err(e)),
                        }
                    },
                    Err(e) => (self, Err(e)),
                },
                Err(e) => (self, Err(e)),
            },
            Opcode::Sub(dst, src1, src2) => match self.fetch(src1) {
                Ok(x) => match self.fetch(src2) {
                    Ok(y) => {
                        let (after, done) = self.computed(dst, x.difference(y));
                        match done {
                            Ok(_) => (after, Ok(current)),
                            Err(e) => (after, Err(e)),
                        }
                    },
                    Err(e) => (self, Err(e)),
                },
                Err(e) => (self, Err(e)),
            },
            _ => match self.jump_target(
                current,
                operation.jump_label(),
                operation.jump_operands().0,
                operation.jump_operands().1,
            ) {
                Ok((target, x, y)) => (
                    self.jumped(target, operation.jump_taken(x, y)),
                    Ok(current),
                ),
                Err(e) => (self, Err(e)),
            },
        }
    }

    /// Whether the counters of the machine have room for the turn that runs
    /// `operation`: the opcode pointer can advance, unless the opcode does
    /// not move it that way, and the stack pointer can grow by the frame of
    /// the function that it calls, if it calls one.
    pub open spec fn has_room(self, operation: Opcode, functions: FunctionTable) -> bool {
        match operation {
            Opcode::FunctionStart(_) | Opcode::FunctionEnd | Opcode::Return => true,
            Opcode::Call(name) => functions.contains_key(name@) ==> self.opcode_pointer
                < usize::MAX && self.stack_pointer + functions[name@].stackframe_size
                <= usize::MAX,
            _ => self.opcode_pointer < usize::MAX,
        }
    }
}

/// A call that is followed at once by the return of the function called
/// puts the machine behind the call, with the stack pointer, the return stack
/// and the registers as they were before it, in the function that made the
/// call.
pub proof fn lemma_call_then_return(
    machine: Machine,
    name: &'static str,
    current: FunctionView,
    functions: FunctionTable,
)
    requires
        functions.contains_key(name@),
        functions.contains_key(current.name@),
        functions[current.name@] == current,
        machine.has_room(Opcode::Call(name), functions),
    ensures
        ({
            let (inside, callee) = machine.turn(Opcode::Call(name), current, functions);
            let (behind, caller) = inside.turn(Opcode::Return, callee->Ok_0, functions);
            &&& callee == Ok::<FunctionView, Error>(functions[name@])
            &&& caller == Ok::<FunctionView, Error>(current)
            &&& behind == machine.next()
            &&& behind.opcode_pointer == machine.opcode_pointer + 1
            &&& behind.stack_pointer == machine.stack_pointer
        }),
{
    let (inside, callee) = machine.turn(Opcode::Call(name), current, functions);
    let (behind, caller) = inside.turn(Opcode::Return, callee->Ok_0, functions);
    assert(behind.return_stack =~= machine.return_stack);
}

/// Whether the opcode is a move, an addition or a subtraction whose
/// destination is a constant.
pub open spec fn writes_to_constant(operation: Opcode) -> bool {
    match operation {
        Opcode::Move(dst, _) | Opcode::Add(dst, _, _) | Opcode::Sub(dst, _, _) => dst
            is IntegerConstant,
        _ => false,
    }
}

/// Whether the machine can read the operands that the opcode takes its
/// values from.
pub open spec fn reads_well(machine: Machine, operation: Opcode) -> bool {
    match operation {
        Opcode::Move(_, src) => machine.fetch(src) is Ok,
        Opcode::Add(_, src1, src2) | Opcode::Sub(_, src1, src2) => machine.fetch(src1) is Ok
            && machine.fetch(src2) is Ok,
        _ => true,
    }
}

/// An opcode whose destination is a constant fails as an unsupported
/// operation and leaves every register as it was, provided that its sources
/// can be read: a source that cannot be read fails the turn before the
/// destination is looked at.
pub proof fn lemma_constant_destination(
    machine: Machine,
    operation: Opcode,
    current: FunctionView,
    functions: FunctionTable,
)
    requires
        writes_to_constant(operation),
        reads_well(machine, operation),
    ensures
        machine.turn(operation, current, functions).1 == Err::<FunctionView, Error>(
            Error::UnsupportedOperation,
        ),
        machine.turn(operation, current, functions).0.integer_register
            == machine.integer_register,
{
}

} // verus!
