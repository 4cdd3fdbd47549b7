//! Why a run never leaves the function it is in, but by a call or a return.
use vstd::prelude::*;
use crate::error::Error;
use crate::execution::advance;
use crate::execution::can_turn;
use crate::execution::Progress;
use crate::execution::run_for;
use crate::execution::started;
use crate::function::FunctionView;
use crate::machine::FunctionTable;
use crate::machine::Machine;
use crate::opcode::Opcode;
use crate::program::definition;
use crate::program::first_end;
use crate::program::is_definition_at;
use crate::program::lemma_definition;
use crate::program::lemma_first_end_exists;
use crate::program::lemma_labels_before;
use crate::program::lemma_load_error_is_broken_function;
use crate::program::lemma_loaded;
use crate::program::loaded;
use crate::program::loads_cleanly;

verus! {

/// Whether the table holds functions of the program: each under its own
/// name, each in order, each the stretch of the program between a start
/// marker of that name and an end marker, without a marker in it.
pub open spec fn describes(functions: FunctionTable, program: Seq<Opcode>) -> bool {
    forall|name: Seq<char>| #[trigger]
        functions.contains_key(name) ==> {
            let f = functions[name];
            &&& f.name@ == name
            &&& 0 < f.opcodes_range.start <= f.opcodes_range.end < program.len()
            &&& program[f.opcodes_range.start - 1].starts(name)
            &&& program[f.opcodes_range.end as int] is FunctionEnd
            &&& forall|i: int|
                f.opcodes_range.start <= i < f.opcodes_range.end ==> !(program[i]
                    is FunctionStart) && !(program[i] is FunctionEnd)
            &&& f.is_sound()
        }
}

/// Whether a return record leads into the function that it names, or to
/// the end of that function.
pub open spec fn leads_back(
    functions: FunctionTable,
    record: (&'static str, usize, usize),
) -> bool {
    &&& functions.contains_key(record.0@)
    &&& functions[record.0@].opcodes_range.start <= record.1
        <= functions[record.0@].opcodes_range.end
}

/// Whether the machine stands inside the running function or at its end,
/// the running function is one of the table, and every return record leads
/// into the function it names or to its end.
pub open spec fn in_scope(
    functions: FunctionTable,
    machine: Machine,
    current: FunctionView,
) -> bool {
    &&& functions.contains_key(current.name@)
    &&& functions[current.name@] == current
    &&& current.opcodes_range.start <= machine.opcode_pointer <= current.opcodes_range.end
    &&& forall|k: int|
        0 <= k < machine.return_stack.len() ==> leads_back(
            functions,
            #[trigger] machine.return_stack[k],
        )
}

/// Whether the error is one that only a fault of the machine itself could
/// cause: a label outside its function, a marker that is run, or a return
/// without a call.
pub open spec fn is_defensive(error: Error) -> bool {
    error is RestrictedJumpOutOfScope || error is OpcodeMustBeUnreachable || error
        is ReturnStackExhausted
}

/// The table that a program loads holds functions of that program.
pub proof fn lemma_loaded_describes(program: Seq<Opcode>)
    requires
        8 * program.len() <= usize::MAX,
        loaded(program, program.len() as int) is Ok,
    ensures
        describes(loaded(program, program.len() as int)->Ok_0, program),
{
    let functions = loaded(program, program.len() as int)->Ok_0;
    lemma_loaded(program, program.len() as int);
    assert forall|name: Seq<char>| #[trigger] functions.contains_key(name) implies {
        let f = functions[name];
        &&& f.name@ == name
        &&& 0 < f.opcodes_range.start <= f.opcodes_range.end < program.len()
        &&& program[f.opcodes_range.start - 1].starts(name)
        &&& program[f.opcodes_range.end as int] is FunctionEnd
        &&& forall|i: int|
            f.opcodes_range.start <= i < f.opcodes_range.end ==> !(program[i] is FunctionStart)
                && !(program[i] is FunctionEnd)
        &&& f.is_sound()
    } by {
        let f = functions[name];
        let at = choose|i: int| is_definition_at(program, program.len() as int, name, i, f);
        let rest = program.subrange(at, program.len() as int);
        lemma_definition(program[at]->FunctionStart_0, at as usize, rest);
        assert(rest[first_end(rest)] == program[at + first_end(rest)]);
        assert forall|i: int| f.opcodes_range.start <= i < f.opcodes_range.end implies !(
        program[i] is FunctionStart) && !(program[i] is FunctionEnd) by {
            assert(rest[i - at] == program[i]);
        }
    }
}

/// A turn inside a function of the program leaves the machine inside the
/// function that runs next, and fails with no defensive error.
pub proof fn lemma_turn_keeps_scope(
    program: Seq<Opcode>,
    functions: FunctionTable,
    machine: Machine,
    current: FunctionView,
)
    requires
        describes(functions, program),
        in_scope(functions, machine, current),
        machine.return_stack.len() > 0,
        can_turn(program, functions, machine, current),
    ensures
        match machine.turn(program[machine.opcode_pointer as int], current, functions).1 {
            Ok(next) => in_scope(
                functions,
                machine.turn(program[machine.opcode_pointer as int], current, functions).0,
                next,
            ),
            Err(e) => !is_defensive(e),
        },
{
    let operation = program[machine.opcode_pointer as int];
    let (after, outcome) = machine.turn(operation, current, functions);
    assert(functions.contains_key(current.name@));
    match operation {
        Opcode::Call(name) => {
            if functions.contains_key(name@) {
                assert forall|k: int| 0 <= k < after.return_stack.len() implies leads_back(
                    functions,
                    #[trigger] after.return_stack[k],
                ) by {
                    if k < machine.return_stack.len() {
                        assert(after.return_stack[k] == machine.return_stack[k]);
                    }
                }
            }
        },
        Opcode::Return => {
            assert(leads_back(functions, machine.return_stack[machine.return_stack.len() - 1]));
            assert forall|k: int| 0 <= k < after.return_stack.len() implies leads_back(
                functions,
                #[trigger] after.return_stack[k],
            ) by {
                assert(after.return_stack[k] == machine.return_stack[k]);
            }
        },
        _ => {},
    }
}

/// Whether the machine stands where no turn can be taken: at the end marker
/// of a function, or at a call for whose frame the stack pointer has no room.
pub open spec fn is_stuck(
    program: Seq<Opcode>,
    functions: FunctionTable,
    machine: Machine,
) -> bool {
    &&& machine.opcode_pointer < program.len()
    &&& {
        ||| program[machine.opcode_pointer as int] is FunctionEnd
        ||| program[machine.opcode_pointer as int] is Call && !machine.has_room(
            program[machine.opcode_pointer as int],
            functions,
        )
    }
}

/// Turn after turn the machine stays in scope, no run fails with a defensive
/// error, and a run strands only where the machine is stuck.
pub proof fn lemma_advance_keeps_scope(
    program: Seq<Opcode>,
    functions: FunctionTable,
    machine: Machine,
    current: FunctionView,
    turns: nat,
)
    requires
        describes(functions, program),
        in_scope(functions, machine, current),
    ensures
        match advance(program, functions, machine, current, turns).1 {
            Progress::Running(next) => in_scope(
                functions,
                advance(program, functions, machine, current, turns).0,
                next,
            ),
            Progress::Failed(e) => !is_defensive(e),
            Progress::Stranded => is_stuck(
                program,
                functions,
                advance(program, functions, machine, current, turns).0,
            ),
            Progress::Finished => true,
        },
    decreases turns,
{
    if machine.return_stack.len() > 0 && can_turn(program, functions, machine, current) && turns
        > 0 {
        lemma_turn_keeps_scope(program, functions, machine, current);
        let (after, outcome) = machine.turn(
            program[machine.opcode_pointer as int],
            current,
            functions,
        );
        if outcome is Ok {
            lemma_advance_keeps_scope(
                program,
                functions,
                after,
                outcome->Ok_0,
                (turns - 1) as nat,
            );
        }
    }
}

/// A run that starts with no call under way never leaves the function it is
/// in but by a call or a return: while it runs, the machine stands inside
/// the running function or at its end, and it fails with no defensive error.
/// It strands only if the program gives a name to two functions, or where
/// the machine is stuck.
pub proof fn lemma_run_stays_in_scope(machine: Machine, program: Seq<Opcode>, turns: nat)
    requires
        8 * program.len() <= usize::MAX,
        machine.return_stack.len() == 0,
    ensures
        match run_for(machine, program, turns).1 {
            Progress::Running(current) => {
                &&& loaded(program, program.len() as int) is Ok
                &&& in_scope(
                    loaded(program, program.len() as int)->Ok_0,
                    run_for(machine, program, turns).0,
                    current,
                )
            },
            Progress::Failed(e) => !is_defensive(e),
            Progress::Stranded => !loads_cleanly(program) || {
                &&& loaded(program, program.len() as int) is Ok
                &&& is_stuck(
                    program,
                    loaded(program, program.len() as int)->Ok_0,
                    run_for(machine, program, turns).0,
                )
            },
            Progress::Finished => true,
        },
{
    if loads_cleanly(program) {
        match loaded(program, program.len() as int) {
            Ok(functions) => {
                if functions.contains_key("main"@) {
                    lemma_loaded_describes(program);
                    let main = functions["main"@];
                    let start = started(machine, main);
                    assert(start.return_stack.len() == 1);
                    assert(start.return_stack[0] == ("main", main.opcodes_range.end, 0usize));
                    assert(in_scope(functions, start, main));
                    lemma_advance_keeps_scope(program, functions, start, main, turns);
                }
            },
            Err(e) => {
                lemma_load_error_is_broken_function(program, program.len() as int);
            },
        }
    }
}

/// Two functions of a program lie apart: one ends before the other starts.
pub proof fn lemma_functions_lie_apart(
    program: Seq<Opcode>,
    functions: FunctionTable,
    first: Seq<char>,
    second: Seq<char>,
)
    requires
        describes(functions, program),
        functions.contains_key(first),
        functions.contains_key(second),
        first != second,
    ensures
        functions[first].opcodes_range.end < functions[second].opcodes_range.start
            || functions[second].opcodes_range.end < functions[first].opcodes_range.start,
{
    let f = functions[first];
    let g = functions[second];
    let f_start = f.opcodes_range.start - 1;
    let g_start = g.opcodes_range.start - 1;
    if f_start < g_start {
        if g_start <= f.opcodes_range.end {
            assert(program[g_start] is FunctionStart);
        }
    } else if g_start < f_start {
        if f_start <= g.opcodes_range.end {
            assert(program[f_start] is FunctionStart);
        }
    }
}

/// A jump to a label that does not stand among the opcodes of the running
/// function fails: the label does not exist, whatever labels the other
/// functions hold.
pub proof fn lemma_jump_to_foreign_label(
    machine: Machine,
    operation: Opcode,
    fname: &'static str,
    index: usize,
    program: Seq<Opcode>,
    functions: FunctionTable,
)
    requires
        operation.is_jump(),
        definition(fname, index, program) is Ok,
        index + program.len() <= usize::MAX,
        forall|i: int| 0 <= i < first_end(program) ==> !program[i].marks(operation.jump_label()@),
    ensures
        machine.turn(operation, definition(fname, index, program)->Ok_0, functions) == (
            machine,
            Err::<FunctionView, Error>(Error::LabelDoesNotExist(operation.jump_label())),
        ),
{
    lemma_first_end_exists(program);
    lemma_labels_before(program, index, first_end(program));
}

} // verus!
