//! What it is to run a program: turn after turn, from the start of `main`
//! until the last call has returned.
use vstd::prelude::*;
use crate::error::Error;
use crate::function::FunctionView;
use crate::machine::FunctionTable;
use crate::machine::Machine;
use crate::opcode::Opcode;
use crate::program::lemma_load_error_is_broken_function;
use crate::program::lemma_load_error_stays;
use crate::program::lemma_loaded;
use crate::program::lemma_nested_function_is_broken;
use crate::program::loaded;
use crate::program::loads_cleanly;

verus! {

/// How far a run has come.
pub ghost enum Progress {
    /// Calls are under way, and the function given runs next.
    Running(FunctionView),
    /// The last call has returned: the run is over.
    Finished,
    /// A turn failed with the error given: the run is over.
    Failed(Error),
    /// The run cannot go on and has no result: the program gives a name to
    /// two functions, the opcode pointer has left the running function, or a
    /// counter of the machine has no room left.
    Stranded,
}

impl Progress {
    /// Whether the run is over and has a result.
    pub open spec fn is_over(self) -> bool {
        self is Finished || self is Failed
    }
}

/// Whether the machine can take its next turn: the opcode pointer stands
/// inside the running function and inside the program, and the counters have
/// room.
pub open spec fn can_turn(
    program: Seq<Opcode>,
    functions: FunctionTable,
    machine: Machine,
    current: FunctionView,
) -> bool {
    &&& current.contains(machine.opcode_pointer)
    &&& machine.opcode_pointer < program.len()
    &&& machine.has_room(program[machine.opcode_pointer as int], functions)
}

/// The machine after at most `turns` turns, and how far the run has come by
/// then. The run is over when no call is under way any more, or with the
/// first turn that fails.
pub open spec fn advance(
    program: Seq<Opcode>,
    functions: FunctionTable,
    machine: Machine,
    current: FunctionView,
    turns: nat,
) -> (Machine, Progress)
    decreases turns,
{
    if machine.return_stack.len() == 0 {
        (machine, Progress::Finished)
    } else if !can_turn(program, functions, machine, current) {
        (machine, Progress::Stranded)
    } else if turns == 0 {
        (machine, Progress::Running(current))
    } else {
        let (after, outcome) = machine.turn(
            program[machine.opcode_pointer as int],
            current,
            functions,
        );
        match outcome {
            Ok(next) => advance(program, functions, after, next, (turns - 1) as nat),
            Err(e) => (after, Progress::Failed(e)),
        }
    }
}

/// The machine at the start of a run: at the first opcode of `main`, with a
/// stack pointer of zero and one more return record, which leads to the end
/// of `main`. The registers are as they were.
pub open spec fn started(machine: Machine, main: FunctionView) -> Machine {
    Machine {
        integer_register: machine.integer_register,
        opcode_pointer: main.opcodes_range.start,
        stack_pointer: 0,
        return_stack: machine.return_stack.push(("main", main.opcodes_range.end, 0usize)),
    }
}

/// A run of at most `turns` turns: the machine after it, and how far it came.
///
/// The functions of the program are loaded first. A broken function fails
/// the run, and so does a program without `main`, both before any turn, with
/// the machine as it was.
pub open spec fn run_for(machine: Machine, program: Seq<Opcode>, turns: nat) -> (
    Machine,
    Progress,
) {
    if !loads_cleanly(program) {
        (machine, Progress::Stranded)
    } else {
        match loaded(program, program.len() as int) {
            Ok(functions) => if functions.contains_key("main"@) {
                advance(
                    program,
                    functions,
                    started(machine, functions["main"@]),
                    functions["main"@],
                    turns,
                )
            } else {
                (machine, Progress::Failed(Error::FunctionIsNotDefined("main")))
            },
            Err(e) => (machine, Progress::Failed(e)),
        }
    }
}

/// Whether a run of the program comes to an end with a result, after however
/// many turns.
pub open spec fn completes(machine: Machine, program: Seq<Opcode>) -> bool {
    exists|turns: nat| run_for(machine, program, turns).1.is_over()
}

/// The machine after a run that comes to an end, and how it ended.
pub open spec fn run_to_end(machine: Machine, program: Seq<Opcode>) -> (Machine, Progress) {
    run_for(machine, program, choose|turns: nat| run_for(machine, program, turns).1.is_over())
}

/// What a run reports, leaving out the time it took: that it finished, or the
/// error it failed with.
pub open spec fn report(result: Result<u64, Error>) -> Progress {
    match result {
        Ok(_) => Progress::Finished,
        Err(e) => Progress::Failed(e),
    }
}

/// A program in which a function starts inside another one is not run: it
/// fails as a broken function, with the machine as it was.
pub proof fn lemma_run_with_nested_function(
    machine: Machine,
    program: Seq<Opcode>,
    outer: int,
    inner: int,
    turns: nat,
)
    requires
        loads_cleanly(program),
        0 <= outer < inner < program.len(),
        program[outer] is FunctionStart,
        program[inner] is FunctionStart,
        forall|i: int| outer <= i < inner ==> !(program[i] is FunctionEnd),
    ensures
        run_for(machine, program, turns).0 == machine,
        run_for(machine, program, turns).1 is Failed,
        run_for(machine, program, turns).1->Failed_0 is BrokenFunctionDefinition,
{
    let rest = program.subrange(outer, program.len() as int);
    assert forall|i: int| 0 <= i < inner - outer implies !(rest[i] is FunctionEnd) by {
        assert(rest[i] == program[outer + i]);
    }
    lemma_nested_function_is_broken(
        program[outer]->FunctionStart_0,
        outer as usize,
        rest,
        inner - outer,
    );
    if loaded(program, outer) is Err {
        lemma_load_error_stays(program, outer, outer + 1);
    }
    assert(loaded(program, outer + 1) is Err);
    lemma_load_error_stays(program, outer + 1, program.len() as int);
    lemma_load_error_is_broken_function(program, program.len() as int);
}

/// A program without a function `main`, and with no broken function, fails
/// before its first turn, with the machine as it was: `main` is not defined.
pub proof fn lemma_run_without_main(machine: Machine, program: Seq<Opcode>, turns: nat)
    requires
        loads_cleanly(program),
        loaded(program, program.len() as int) is Ok,
        forall|i: int| 0 <= i < program.len() ==> !program[i].starts("main"@),
    ensures
        run_for(machine, program, turns) == (
            machine,
            Progress::Failed(Error::FunctionIsNotDefined("main")),
        ),
{
    lemma_loaded(program, program.len() as int);
}

/// A run that is over stays as it is, however many more turns it is given.
pub proof fn lemma_advance_is_settled(
    program: Seq<Opcode>,
    functions: FunctionTable,
    machine: Machine,
    current: FunctionView,
    turns: nat,
    more: nat,
)
    requires
        advance(program, functions, machine, current, turns).1.is_over(),
        turns <= more,
    ensures
        advance(program, functions, machine, current, more) == advance(
            program,
            functions,
            machine,
            current,
            turns,
        ),
    decreases turns,
{
    if machine.return_stack.len() > 0 && can_turn(program, functions, machine, current) {
        let (after, outcome) = machine.turn(
            program[machine.opcode_pointer as int],
            current,
            functions,
        );
        if outcome is Ok {
            lemma_advance_is_settled(
                program,
                functions,
                after,
                outcome->Ok_0,
                (turns - 1) as nat,
                (more - 1) as nat,
            );
        }
    }
}

/// A run comes to one end only: whatever number of turns brings it to an
/// end, the machine and the result are those of `run_to_end`.
pub proof fn lemma_run_to_end(machine: Machine, program: Seq<Opcode>, turns: nat)
    requires
        run_for(machine, program, turns).1.is_over(),
    ensures
        completes(machine, program),
        run_to_end(machine, program) == run_for(machine, program, turns),
{
    let chosen = choose|turns: nat| run_for(machine, program, turns).1.is_over();
    if loads_cleanly(program) && loaded(program, program.len() as int) is Ok {
        let functions = loaded(program, program.len() as int)->Ok_0;
        if functions.contains_key("main"@) {
            let main = functions["main"@];
            if chosen <= turns {
                lemma_advance_is_settled(
                    program,
                    functions,
                    started(machine, main),
                    main,
                    chosen,
                    turns,
                );
            } else {
                lemma_advance_is_settled(
                    program,
                    functions,
                    started(machine, main),
                    main,
                    turns,
                    chosen,
                );
            }
        }
    }
}

/// A run is settled by the program, the registers and the calls under way:
/// two machines that agree in these end a run of one program in the same way
/// and in the same state, wherever the two stood before and however long
/// either takes.
pub proof fn lemma_run_again(first: Machine, second: Machine, program: Seq<Opcode>)
    requires
        first.integer_register == second.integer_register,
        first.return_stack == second.return_stack,
        completes(first, program),
    ensures
        completes(second, program),
        run_to_end(second, program).1 == run_to_end(first, program).1,
        run_to_end(second, program).0.integer_register == run_to_end(
            first,
            program,
        ).0.integer_register,
{
    let turns = choose|turns: nat| run_for(first, program, turns).1.is_over();
    if loads_cleanly(program) && loaded(program, program.len() as int) is Ok {
        let functions = loaded(program, program.len() as int)->Ok_0;
        if functions.contains_key("main"@) {
            assert(started(first, functions["main"@]) == started(second, functions["main"@]));
        }
    }
    assert(run_for(second, program, turns).1 == run_for(first, program, turns).1);
    lemma_run_to_end(second, program, turns);
}

} // verus!
