//! Programs whose `main` only moves and computes: what they leave in the
//! registers, worked out without a machine.
use vstd::prelude::*;
use crate::error::Error;
use crate::execution::advance;
use crate::execution::can_turn;
use crate::execution::completes;
use crate::execution::lemma_run_to_end;
use crate::execution::Progress;
use crate::execution::run_to_end;
use crate::execution::started;
use crate::function::FunctionView;
use crate::machine::FunctionTable;
use crate::machine::Machine;
use crate::opcode::Opcode;
use crate::operand::OperandType;
use crate::operand::wrapping_difference;
use crate::operand::wrapping_sum;
use crate::program::definition_at;
use crate::program::has_nested;
use crate::program::is_definition_at;
use crate::program::is_first_end;
use crate::program::lemma_definition;
use crate::program::lemma_first_end_is;
use crate::program::lemma_loaded;
use crate::program::loaded;
use crate::program::loads_cleanly;
use crate::program::redefines;

verus! {

/// Whether the opcode is a move, an addition or a subtraction.
pub open spec fn is_plain(opcode: Opcode) -> bool {
    opcode is Move || opcode is Add || opcode is Sub
}

/// The integer that an operand stands for, given what the registers hold.
pub open spec fn operand_integer(registers: Seq<i64>, operand: OperandType) -> Result<i64, Error> {
    match operand {
        OperandType::IntegerRegister(n) => if n < registers.len() {
            Ok(registers[n as int])
        } else {
            Err(Error::NoSuchIntegerRegister(registers.len() as usize, n))
        },
        OperandType::IntegerConstant(value) => Ok(value),
        OperandType::Memory(_) => Err(Error::NotImplemented),
    }
}

/// The registers after an integer went to a destination.
pub open spec fn assigned(registers: Seq<i64>, dst: OperandType, value: i64) -> Result<
    Seq<i64>,
    Error,
> {
    match dst {
        OperandType::IntegerRegister(n) => if n < registers.len() {
            Ok(registers.update(n as int, value))
        } else {
            Err(Error::NoSuchIntegerRegister(registers.len() as usize, n))
        },
        OperandType::IntegerConstant(_) => Err(Error::UnsupportedOperation),
        OperandType::Memory(_) => Err(Error::NotImplemented),
    }
}

/// The registers after a move, an addition or a subtraction. Sums and
/// differences wrap around in 64 bits.
pub open spec fn applied(registers: Seq<i64>, opcode: Opcode) -> Result<Seq<i64>, Error> {
    match opcode {
        Opcode::Move(dst, src) => match operand_integer(registers, src) {
            Ok(value) => assigned(registers, dst, value),
            Err(e) => Err(e),
        },
        Opcode::Add(dst, src1, src2) => match operand_integer(registers, src1) {
            Ok(x) => match operand_integer(registers, src2) {
                Ok(y) => assigned(registers, dst, wrapping_sum(x, y)),
                Err(e) => Err(e),
            },
            Err(e) => Err(e),
        },
        Opcode::Sub(dst, src1, src2) => match operand_integer(registers, src1) {
            Ok(x) => match operand_integer(registers, src2) {
                Ok(y) => assigned(registers, dst, wrapping_difference(x, y)),
                Err(e) => Err(e),
            },
            Err(e) => Err(e),
        },
        _ => Ok(registers),
    }
}

/// The registers after the opcodes were applied in order, and the error of
/// the first that failed, if one did: the registers are then those that it
/// found, and the opcodes behind it are not applied.
pub open spec fn evaluated(registers: Seq<i64>, opcodes: Seq<Opcode>) -> (
    Seq<i64>,
    Option<Error>,
)
    decreases opcodes.len(),
{
    if opcodes.len() == 0 {
        (registers, None)
    } else {
        match applied(registers, opcodes.first()) {
            Ok(after) => evaluated(after, opcodes.drop_first()),
            Err(e) => (registers, Some(e)),
        }
    }
}

/// A turn that runs a move, an addition or a subtraction applies it to the
/// registers and goes one opcode further; if it fails, the registers are as
/// they were.
pub proof fn lemma_plain_turn(
    machine: Machine,
    opcode: Opcode,
    current: FunctionView,
    functions: FunctionTable,
)
    requires
        is_plain(opcode),
    ensures
        match applied(machine.integer_register, opcode) {
            Ok(after) => machine.turn(opcode, current, functions) == (
                machine.with_registers(after).next(),
                Ok::<FunctionView, Error>(current),
            ),
            Err(e) => machine.turn(opcode, current, functions).1 == Err::<FunctionView, Error>(e)
                && machine.turn(opcode, current, functions).0.integer_register
                == machine.integer_register,
        },
{
}

/// A stretch of `count` moves, additions and subtractions inside the running
/// function takes `count` turns and leaves the registers as evaluated; if
/// one of them fails, the run fails with its error.
pub proof fn lemma_plain_stretch(
    program: Seq<Opcode>,
    functions: FunctionTable,
    machine: Machine,
    current: FunctionView,
    count: nat,
    turns: nat,
)
    requires
        machine.return_stack.len() > 0,
        current.opcodes_range.start <= machine.opcode_pointer,
        machine.opcode_pointer + count <= current.opcodes_range.end <= program.len(),
        forall|i: int|
            machine.opcode_pointer <= i < machine.opcode_pointer + count ==> is_plain(program[i]),
        count <= turns,
    ensures
        ({
            let (registers, failure) = evaluated(
                machine.integer_register,
                program.subrange(
                    machine.opcode_pointer as int,
                    machine.opcode_pointer + count,
                ),
            );
            match failure {
                None => advance(program, functions, machine, current, turns) == advance(
                    program,
                    functions,
                    machine.with_registers(registers).at(
                        (machine.opcode_pointer + count) as usize,
                    ),
                    current,
                    (turns - count) as nat,
                ),
                Some(e) => advance(program, functions, machine, current, turns).1
                    == Progress::Failed(e) && advance(
                    program,
                    functions,
                    machine,
                    current,
                    turns,
                ).0.integer_register == registers,
            }
        }),
    decreases count,
{
    let place = machine.opcode_pointer as int;
    let opcodes = program.subrange(place, place + count);
    if count == 0 {
        assert(machine.with_registers(machine.integer_register).at(place as usize) == machine);
    } else {
        assert(can_turn(program, functions, machine, current));
        assert(opcodes.first() == program[place]);
        assert(opcodes.drop_first() =~= program.subrange(place + 1, place + count));
        lemma_plain_turn(machine, program[place], current, functions);
        match applied(machine.integer_register, program[place]) {
            Ok(after) => {
                let next = machine.with_registers(after).next();
                lemma_plain_stretch(
                    program,
                    functions,
                    next,
                    current,
                    (count - 1) as nat,
                    (turns - 1) as nat,
                );
                let (registers, failure) = evaluated(after, opcodes.drop_first());
                if failure is None {
                    assert(next.with_registers(registers).at((place + count) as usize)
                        == machine.with_registers(registers).at((place + count) as usize));
                }
            },
            Err(e) => {},
        }
    }
}

/// A program whose `main` holds moves, additions and subtractions and then
/// its return comes to an end, and the registers are then as evaluated: the
/// run finishes if every opcode could be applied, and fails with the error of
/// the first that could not.
pub proof fn lemma_straight_line_main(machine: Machine, program: Seq<Opcode>, count: nat)
    requires
        8 * program.len() <= usize::MAX,
        machine.return_stack.len() == 0,
        loads_cleanly(program),
        loaded(program, program.len() as int) is Ok,
        loaded(program, program.len() as int)->Ok_0.contains_key("main"@),
        ({
            let main = loaded(program, program.len() as int)->Ok_0["main"@];
            &&& main.opcodes_range.start + count < main.opcodes_range.end
            &&& forall|i: int|
                main.opcodes_range.start <= i < main.opcodes_range.start + count ==> is_plain(
                    program[i],
                )
            &&& program[main.opcodes_range.start + count] is Return
        }),
    ensures
        completes(machine, program),
        ({
            let main = loaded(program, program.len() as int)->Ok_0["main"@];
            let (registers, failure) = evaluated(
                machine.integer_register,
                program.subrange(
                    main.opcodes_range.start as int,
                    main.opcodes_range.start + count,
                ),
            );
            &&& run_to_end(machine, program).0.integer_register == registers
            &&& run_to_end(machine, program).1 == match failure {
                None => Progress::Finished,
                Some(e) => Progress::Failed(e),
            }
        }),
{
    let functions = loaded(program, program.len() as int)->Ok_0;
    let main = functions["main"@];
    lemma_loaded(program, program.len() as int);
    let index = choose|i: int|
        is_definition_at(program, program.len() as int, "main"@, i, main);
    lemma_definition(
        program[index]->FunctionStart_0,
        index as usize,
        program.subrange(index, program.len() as int),
    );
    let start = started(machine, main);
    lemma_plain_stretch(program, functions, start, main, count, count + 1);
    let (registers, failure) = evaluated(
        machine.integer_register,
        program.subrange(main.opcodes_range.start as int, main.opcodes_range.start + count),
    );
    if failure is None {
        let last = start.with_registers(registers).at(
            (main.opcodes_range.start + count) as usize,
        );
        assert(can_turn(program, functions, last, main));
        assert(last.return_stack.last() == ("main", main.opcodes_range.end, 0usize));
        let (after, outcome) = last.turn(Opcode::Return, main, functions);
        assert(after.return_stack.len() == 0);
        assert(advance(program, functions, after, main, 0) == (after, Progress::Finished));
        assert(advance(program, functions, last, main, 1) == (after, Progress::Finished));
    }
    lemma_run_to_end(machine, program, count + 1);
}

/// The program that holds `main` alone: its start, the body given, a return
/// and the end.
pub open spec fn main_of(body: Seq<Opcode>) -> Seq<Opcode> {
    seq![Opcode::FunctionStart("main")] + body + seq![Opcode::Return, Opcode::FunctionEnd]
}

/// Where no function starts, no function is added to the table.
proof fn lemma_no_more_functions(program: Seq<Opcode>, from: int, upto: int)
    requires
        0 <= from <= upto,
        forall|i: int| from <= i < upto ==> !(program[i] is FunctionStart),
    ensures
        loaded(program, upto) == loaded(program, from),
    decreases upto - from,
{
    if from < upto {
        lemma_no_more_functions(program, from, upto - 1);
    }
}

/// A program that is `main` alone, with a body of moves, additions and
/// subtractions, comes to an end, and the registers are then as the body
/// evaluates: the run finishes if every opcode could be applied, and fails
/// with the error of the first that could not.
pub proof fn lemma_main_alone(machine: Machine, body: Seq<Opcode>)
    requires
        8 * (body.len() + 3) <= usize::MAX,
        machine.return_stack.len() == 0,
        forall|i: int| 0 <= i < body.len() ==> is_plain(body[i]),
    ensures
        completes(machine, main_of(body)),
        run_to_end(machine, main_of(body)).0.integer_register == evaluated(
            machine.integer_register,
            body,
        ).0,
        run_to_end(machine, main_of(body)).1 == match evaluated(
            machine.integer_register,
            body,
        ).1 {
            None => Progress::Finished,
            Some(e) => Progress::Failed(e),
        },
{
    let program = main_of(body);
    let end = body.len() as int + 2;
    assert(program.len() == body.len() + 3);
    assert(program[0] == Opcode::FunctionStart("main"));
    assert forall|i: int| 1 <= i < end - 1 implies program[i] == body[i - 1] by {}
    assert(program[end - 1] == Opcode::Return);
    assert(program[end] == Opcode::FunctionEnd);
    assert(program.subrange(0, program.len() as int) =~= program);
    assert(is_first_end(program, end));
    lemma_first_end_is(program, end);
    assert(!has_nested(program, end));
    assert(definition_at(program, 0) is Ok);
    reveal_with_fuel(loaded, 2);
    assert(loaded(program, 1) is Ok);
    lemma_no_more_functions(program, 1, program.len() as int);
    let main = loaded(program, program.len() as int)->Ok_0["main"@];
    assert(main.opcodes_range.start == 1 && main.opcodes_range.end == end);
    assert(loads_cleanly(program)) by {
        assert forall|at: int| 0 <= at < program.len() implies !redefines(program, at) by {}
    }
    assert(program.subrange(1, end - 1) =~= body);
    lemma_straight_line_main(machine, program, body.len());
}

} // verus!
