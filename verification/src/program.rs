//! How a program divides into functions: where each one ends, and the labels
//! and variables that it holds.
use std::ops::Range;
use vstd::prelude::*;
use crate::error::Error;
use crate::function::Function;
use crate::function::FunctionView;
use crate::machine::FunctionTable;
use crate::opcode::Opcode;

verus! {

/// Whether the program holds a function end.
pub open spec fn has_end(program: Seq<Opcode>) -> bool {
    exists|i: int| 0 <= i < program.len() && program[i] is FunctionEnd
}

/// Whether `end` is the place of the first function end of the program.
pub open spec fn is_first_end(program: Seq<Opcode>, end: int) -> bool {
    &&& 0 <= end < program.len()
    &&& program[end] is FunctionEnd
    &&& forall|i: int| 0 <= i < end ==> !(program[i] is FunctionEnd)
}

/// The place of the first function end of a program that has one.
pub open spec fn first_end(program: Seq<Opcode>) -> int {
    choose|end: int| is_first_end(program, end)
}

/// Whether a function starts after the first opcode and before `end`.
pub open spec fn has_nested(program: Seq<Opcode>, end: int) -> bool {
    exists|i: int| 0 < i < end && program[i] is FunctionStart
}

/// Whether `at` is the place of the first function start after the first
/// opcode and before `end`.
pub open spec fn is_first_nested(program: Seq<Opcode>, end: int, at: int) -> bool {
    &&& 0 < at < end
    &&& program[at] is FunctionStart
    &&& forall|i: int| 0 < i < at ==> !(program[i] is FunctionStart)
}

/// The place of the first function start after the first opcode and before
/// `end`, where there is one.
pub open spec fn first_nested(program: Seq<Opcode>, end: int) -> int {
    choose|at: int| is_first_nested(program, end, at)
}

/// The number of bytes that an opcode declares: those of its variable, and
/// none if it declares no variable.
pub open spec fn declared_size(opcode: Opcode) -> nat {
    match opcode {
        Opcode::I08(_) => 1,
        Opcode::I16(_) => 2,
        Opcode::I32(_) => 4,
        Opcode::I64(_) => 8,
        _ => 0,
    }
}

/// The name of the variable that an opcode declares.
pub open spec fn declared_name(opcode: Opcode) -> &'static str {
    match opcode {
        Opcode::I08(name) | Opcode::I16(name) | Opcode::I32(name) | Opcode::I64(name) => name,
        _ => "",
    }
}

/// The number of bytes that the opcodes before `upto` declare together.
pub open spec fn bytes_before(program: Seq<Opcode>, upto: int) -> nat
    decreases upto,
{
    if upto <= 0 {
        0
    } else {
        bytes_before(program, upto - 1) + declared_size(program[upto - 1])
    }
}

/// The labels among the opcodes before `upto`, each with its place in the
/// whole program, of which `program` is the part that starts at `index`.
/// Of two labels with one name the later one counts.
pub open spec fn labels_before(program: Seq<Opcode>, index: usize, upto: int) -> Map<
    Seq<char>,
    usize,
>
    decreases upto,
{
    if upto <= 0 {
        Map::empty()
    } else {
        let earlier = labels_before(program, index, upto - 1);
        match program[upto - 1] {
            Opcode::Label(name) => earlier.insert(name@, (index + upto - 1) as usize),
            _ => earlier,
        }
    }
}

/// The variables that the opcodes before `upto` declare, each with its
/// offset and size in bytes. A variable lies behind all those declared
/// before it. Of two variables with one name the later one counts.
pub open spec fn variables_before(program: Seq<Opcode>, upto: int) -> Map<
    Seq<char>,
    (usize, usize),
>
    decreases upto,
{
    if upto <= 0 {
        Map::empty()
    } else {
        let earlier = variables_before(program, upto - 1);
        let opcode = program[upto - 1];
        if declared_size(opcode) > 0 {
            earlier.insert(
                declared_name(opcode)@,
                (bytes_before(program, upto - 1) as usize, declared_size(opcode) as usize),
            )
        } else {
            earlier
        }
    }
}

/// The size of the stack frame that every function is given.
pub const STACKFRAME_SIZE: usize = 10;

/// The function that starts with the first opcode of `program`, a part of a
/// whole program that starts at `index` of it.
///
/// The function ends with the first function end. It is broken if the first
/// opcode does not start a function, if there is no function end, or if
/// another function starts before that end: the error then names that other
/// function, the first of them, and else `fname`. The function runs from
/// behind its start up to its end, and holds the labels and variables in
/// between, with a data segment of zeros for the variables.
pub open spec fn definition(fname: &'static str, index: usize, program: Seq<Opcode>) -> Result<
    FunctionView,
    Error,
> {
    if !(program[0] is FunctionStart) || !has_end(program) {
        Err(Error::BrokenFunctionDefinition(fname))
    } else if has_nested(program, first_end(program)) {
        Err(
            Error::BrokenFunctionDefinition(
                program[first_nested(program, first_end(program))]->FunctionStart_0,
            ),
        )
    } else {
        Ok(
            FunctionView {
                name: fname,
                opcodes_range: Range {
                    start: (index + 1) as usize,
                    end: (index + first_end(program)) as usize,
                },
                stackframe_size: STACKFRAME_SIZE,
                labels: labels_before(program, index, first_end(program)),
                variables: variables_before(program, first_end(program)),
                data_segment: Seq::new(
                    bytes_before(program, first_end(program)),
                    |i: int| 0u8,
                ),
            },
        )
    }
}

/// What `define_function` hands back, with the function as mathematical values.
pub open spec fn defined(result: Result<Function, Error>) -> Result<FunctionView, Error> {
    match result {
        Ok(f) => Ok(f@),
        Err(e) => Err(e),
    }
}

/// The function that starts at `at` of the program.
pub open spec fn definition_at(program: Seq<Opcode>, at: int) -> Result<FunctionView, Error> {
    definition(
        program[at]->FunctionStart_0,
        at as usize,
        program.subrange(at, program.len() as int),
    )
}

/// Whether `f` is the function of the name given that starts at `at`, before
/// `upto`.
pub open spec fn is_definition_at(
    program: Seq<Opcode>,
    upto: int,
    name: Seq<char>,
    at: int,
    f: FunctionView,
) -> bool {
    &&& 0 <= at < upto
    &&& program[at].starts(name)
    &&& definition_at(program, at) == Ok::<FunctionView, Error>(f)
}

/// The table of the functions that start before `upto`, or the error of the
/// first of them that is broken. The functions are taken in the order of the
/// program.
pub open spec fn loaded(program: Seq<Opcode>, upto: int) -> Result<FunctionTable, Error>
    decreases upto,
{
    if upto <= 0 {
        Ok(Map::empty())
    } else {
        match loaded(program, upto - 1) {
            Ok(functions) => match program[upto - 1] {
                Opcode::FunctionStart(name) => match definition_at(program, upto - 1) {
                    Ok(f) => Ok(functions.insert(name@, f)),
                    Err(e) => Err(e),
                },
                _ => Ok(functions),
            },
            Err(e) => Err(e),
        }
    }
}

/// Whether the function that starts at `at` has the name of a function that
/// starts before it.
pub open spec fn redefines(program: Seq<Opcode>, at: int) -> bool {
    &&& program[at] is FunctionStart
    &&& exists|before: int|
        0 <= before < at && program[before].starts(program[at]->FunctionStart_0@)
}

/// Whether the functions of the program can be taken into a table: no
/// function has the name of an earlier one, unless a broken function comes
/// before it and ends the loading there.
pub open spec fn loads_cleanly(program: Seq<Opcode>) -> bool {
    forall|at: int|
        0 <= at < program.len() && redefines(program, at) ==> loaded(program, at) is Err
}

/// A program has one first function end.
pub proof fn lemma_first_end_is(program: Seq<Opcode>, end: int)
    requires
        is_first_end(program, end),
    ensures
        has_end(program),
        first_end(program) == end,
{
    let chosen = first_end(program);
    assert(is_first_end(program, chosen));
    if chosen < end {
        assert(!(program[chosen] is FunctionEnd));
    }
    if end < chosen {
        assert(!(program[end] is FunctionEnd));
    }
}

/// A function has one first function start inside it, if it has any.
pub proof fn lemma_first_nested_is(program: Seq<Opcode>, end: int, at: int)
    requires
        is_first_nested(program, end, at),
    ensures
        has_nested(program, end),
        first_nested(program, end) == at,
{
    let chosen = first_nested(program, end);
    assert(is_first_nested(program, end, chosen));
    if chosen < at {
        assert(!(program[chosen] is FunctionStart));
    }
    if at < chosen {
        assert(!(program[at] is FunctionStart));
    }
}

/// Once a function is broken, the loading has failed, whatever follows.
pub proof fn lemma_load_error_stays(program: Seq<Opcode>, upto: int, later: int)
    requires
        loaded(program, upto) is Err,
        upto <= later,
    ensures
        loaded(program, later) == loaded(program, upto),
    decreases later - upto,
{
    if upto < later {
        lemma_load_error_stays(program, upto, later - 1);
    }
}

/// A program that holds a function end has a first one.
pub proof fn lemma_first_end_exists(program: Seq<Opcode>)
    requires
        has_end(program),
    ensures
        is_first_end(program, first_end(program)),
{
    let some = choose|i: int| 0 <= i < program.len() && program[i] is FunctionEnd;
    lemma_end_before(program, some);
}

proof fn lemma_end_before(program: Seq<Opcode>, at: int)
    requires
        0 <= at < program.len(),
        program[at] is FunctionEnd,
    ensures
        exists|end: int| is_first_end(program, end),
    decreases at,
{
    if exists|i: int| 0 <= i < at && program[i] is FunctionEnd {
        let earlier = choose|i: int| 0 <= i < at && program[i] is FunctionEnd;
        lemma_end_before(program, earlier);
    } else {
        assert(is_first_end(program, at));
    }
}

/// A function that holds a function start has a first one.
pub proof fn lemma_first_nested_exists(program: Seq<Opcode>, end: int)
    requires
        has_nested(program, end),
    ensures
        is_first_nested(program, end, first_nested(program, end)),
{
    let some = choose|i: int| 0 < i < end && program[i] is FunctionStart;
    lemma_nested_before(program, end, some);
}

proof fn lemma_nested_before(program: Seq<Opcode>, end: int, at: int)
    requires
        0 < at < end,
        program[at] is FunctionStart,
    ensures
        exists|first: int| is_first_nested(program, end, first),
    decreases at,
{
    if exists|i: int| 0 < i < at && program[i] is FunctionStart {
        let earlier = choose|i: int| 0 < i < at && program[i] is FunctionStart;
        lemma_nested_before(program, end, earlier);
    } else {
        assert(is_first_nested(program, end, at));
    }
}

/// The labels of a function are those that stand among its opcodes, and each
/// points to a label of its name: the last of them.
pub proof fn lemma_labels_before(program: Seq<Opcode>, index: usize, upto: int)
    requires
        0 <= upto <= program.len(),
        index + upto <= usize::MAX,
    ensures
        forall|name: Seq<char>|
            labels_before(program, index, upto).contains_key(name) <==> exists|i: int|
                0 <= i < upto && program[i].marks(name),
        forall|name: Seq<char>| #[trigger]
            labels_before(program, index, upto).contains_key(name) ==> {
                let place = labels_before(program, index, upto)[name] - index;
                &&& 0 <= place < upto
                &&& program[place].marks(name)
                &&& forall|i: int| place < i < upto ==> !program[i].marks(name)
            },
    decreases upto,
{
    if upto > 0 {
        lemma_labels_before(program, index, upto - 1);
        let earlier = labels_before(program, index, upto - 1);
        let now = labels_before(program, index, upto);
        assert forall|name: Seq<char>| now.contains_key(name) implies exists|i: int|
            0 <= i < upto && program[i].marks(name) by {
            if earlier.contains_key(name) {
                let i = choose|i: int| 0 <= i < upto - 1 && program[i].marks(name);
                assert(0 <= i < upto && program[i].marks(name));
            } else {
                assert(program[upto - 1].marks(name));
            }
        }
        assert forall|name: Seq<char>|
            (exists|i: int| 0 <= i < upto && program[i].marks(name)) implies now.contains_key(
            name,
        ) by {
            let i = choose|i: int| 0 <= i < upto && program[i].marks(name);
            if i < upto - 1 {
                assert(earlier.contains_key(name));
            }
        }
    }
}

/// The variables of a function lie inside the bytes declared, one behind the
/// other, and each takes 1, 2, 4 or 8 bytes.
pub proof fn lemma_variables_before(program: Seq<Opcode>, upto: int)
    requires
        0 <= upto <= program.len(),
        8 * upto <= usize::MAX,
    ensures
        bytes_before(program, upto) <= 8 * upto,
        forall|name: Seq<char>| #[trigger]
            variables_before(program, upto).contains_key(name) ==> {
                let (offset, size) = variables_before(program, upto)[name];
                &&& size == 1 || size == 2 || size == 4 || size == 8
                &&& offset + size <= bytes_before(program, upto)
            },
    decreases upto,
{
    if upto > 0 {
        lemma_variables_before(program, upto - 1);
        let earlier = variables_before(program, upto - 1);
        let now = variables_before(program, upto);
        let opcode = program[upto - 1];
        assert forall|name: Seq<char>| #[trigger] now.contains_key(name) implies {
            let (offset, size) = now[name];
            &&& size == 1 || size == 2 || size == 4 || size == 8
            &&& offset + size <= bytes_before(program, upto)
        } by {
            if declared_size(opcode) > 0 && name == declared_name(opcode)@ {
            } else {
                assert(earlier.contains_key(name));
                assert(now[name] == earlier[name]);
            }
        }
    }
}

/// A function that is not broken starts behind its start marker and ends at
/// its end marker, inside the program; between the two no function starts or
/// ends. It is in order: its labels lie inside it, and its variables inside
/// its data segment.
pub proof fn lemma_definition(fname: &'static str, index: usize, program: Seq<Opcode>)
    requires
        definition(fname, index, program) is Ok,
        index + program.len() <= usize::MAX,
        8 * program.len() <= usize::MAX,
    ensures
        ({
            let f = definition(fname, index, program)->Ok_0;
            &&& is_first_end(program, first_end(program))
            &&& f.name == fname
            &&& f.opcodes_range.start == index + 1
            &&& f.opcodes_range.end == index + first_end(program)
            &&& f.opcodes_range.start <= f.opcodes_range.end < index + program.len()
            &&& forall|i: int| 0 < i < first_end(program) ==> !(program[i] is FunctionStart)
            &&& f.is_sound()
        }),
{
    lemma_first_end_exists(program);
    let end = first_end(program);
    lemma_labels_before(program, index, end);
    lemma_variables_before(program, end);
    let f = definition(fname, index, program)->Ok_0;
    assert forall|name: Seq<char>| #[trigger] f.labels.contains_key(name) implies f.contains(
        f.labels[name],
    ) by {
        let place = f.labels[name] - index;
        assert(program[place] is Label);
    }
}

/// A function that starts inside another one, wherever between the start of
/// that one and its end, makes that one a broken function.
pub proof fn lemma_nested_function_is_broken(
    fname: &'static str,
    index: usize,
    program: Seq<Opcode>,
    inner: int,
)
    requires
        program[0] is FunctionStart,
        0 < inner < program.len(),
        program[inner] is FunctionStart,
        forall|i: int| 0 <= i < inner ==> !(program[i] is FunctionEnd),
    ensures
        definition(fname, index, program) is Err,
        definition(fname, index, program)->Err_0 is BrokenFunctionDefinition,
{
    if has_end(program) {
        lemma_first_end_exists(program);
        let end = first_end(program);
        if end < inner {
            assert(!(program[end] is FunctionEnd));
        }
        assert(has_nested(program, end));
        lemma_first_nested_exists(program, end);
    }
}

/// Every error that loading gives is a broken function.
pub proof fn lemma_load_error_is_broken_function(program: Seq<Opcode>, upto: int)
    requires
        loaded(program, upto) is Err,
    ensures
        loaded(program, upto)->Err_0 is BrokenFunctionDefinition,
    decreases upto,
{
    if upto > 0 && loaded(program, upto - 1) is Err {
        lemma_load_error_is_broken_function(program, upto - 1);
    }
}

/// The table holds the functions that start in the program, by name: each
/// entry is the definition of a function of that name.
pub proof fn lemma_loaded(program: Seq<Opcode>, upto: int)
    requires
        0 <= upto <= program.len(),
        loaded(program, upto) is Ok,
    ensures
        forall|name: Seq<char>|
            loaded(program, upto)->Ok_0.contains_key(name) <==> exists|i: int|
                0 <= i < upto && program[i].starts(name),
        forall|name: Seq<char>| #[trigger]
            loaded(program, upto)->Ok_0.contains_key(name) ==> exists|i: int|
                is_definition_at(program, upto, name, i, loaded(program, upto)->Ok_0[name]),
    decreases upto,
{
    if upto > 0 {
        lemma_loaded(program, upto - 1);
        let before = upto - 1;
        let earlier = loaded(program, before)->Ok_0;
        let now = loaded(program, upto)->Ok_0;
        assert forall|name: Seq<char>| now.contains_key(name) implies exists|i: int|
            is_definition_at(program, upto, name, i, now[name]) by {
            if program[before].starts(name) {
                assert(is_definition_at(program, upto, name, before, now[name]));
            } else {
                assert(earlier.contains_key(name));
                let i = choose|i: int| is_definition_at(program, before, name, i, earlier[name]);
                assert(is_definition_at(program, upto, name, i, now[name]));
            }
        }
        assert forall|name: Seq<char>|
            (exists|i: int| 0 <= i < upto && program[i].starts(name)) implies now.contains_key(
            name,
        ) by {
            let i = choose|i: int| 0 <= i < upto && program[i].starts(name);
            if i < before {
                assert(earlier.contains_key(name));
            }
        }
        assert forall|name: Seq<char>| now.contains_key(name) implies exists|i: int|
            0 <= i < upto && program[i].starts(name) by {
            let i = choose|i: int| is_definition_at(program, upto, name, i, now[name]);
            assert(0 <= i < upto && program[i].starts(name));
        }
    }
}

} // verus!
