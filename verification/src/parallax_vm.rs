//! The virtual machine: its registers, and the turns it takes through a program.
use std::ops::Range;
use std::time::Instant;
use vstd::prelude::*;
use vstd::slice::slice_subrange;
use vstd::hash_map::StringHashMap;
use crate::error::Error;
use crate::execution::advance;
use crate::execution::can_turn;
use crate::execution::completes;
use crate::execution::report;
use crate::execution::run_for;
use crate::execution::run_to_end;
use crate::function::Function;
use crate::function::FunctionView;
use crate::machine::FunctionTable;
use crate::machine::Machine;
use crate::opcode::Opcode;
use crate::operand::OperandType;
use crate::operand::OperandValue;
use crate::program::bytes_before;
use crate::program::defined;
use crate::program::definition;
use crate::program::has_end;
use crate::program::is_first_end;
use crate::program::labels_before;
use crate::program::lemma_definition;
use crate::program::lemma_first_end_is;
use crate::program::lemma_first_nested_is;
use crate::program::lemma_load_error_stays;
use crate::program::loaded;
use crate::program::loads_cleanly;
use crate::program::redefines;
use crate::program::STACKFRAME_SIZE;
use crate::program::variables_before;

verus! {

/// A simple virtual machine with a stack.
#[derive(Debug)]
pub struct ParallaxVm {
    integer_register: [i64; 32],
    opcode_pointer: usize,
    stack_pointer: usize,
    /// This stack holds return address and a stack frame index:
    /// function name, opcode pointer and stack pointer.
    return_stack: Vec<(&'static str, usize, usize)>,
}

impl View for ParallaxVm {
    type V = Machine;

    closed spec fn view(&self) -> Machine {
        Machine {
            integer_register: self.integer_register@,
            opcode_pointer: self.opcode_pointer,
            stack_pointer: self.stack_pointer,
            return_stack: self.return_stack@,
        }
    }
}

impl Default for ParallaxVm {
    /// A fresh machine: 32 registers that hold zero, and no call under way.
    fn default() -> (vm: ParallaxVm)
        ensures
            vm@.integer_register == Seq::new(32, |i: int| 0i64),
            vm@.opcode_pointer == 0,
            vm@.stack_pointer == 0,
            vm@.return_stack == Seq::<(&'static str, usize, usize)>::empty(),
    {
        let vm = ParallaxVm {
            integer_register: [0i64; 32],
            opcode_pointer: 0,
            stack_pointer: 0,
            return_stack: Vec::new(),
        };
        vm
    }
}

/// The functions of a table as mathematical values, by name.
pub open spec fn table_view(functions: &StringHashMap<Function>) -> FunctionTable {
    functions@.map_values(|f: Function| f@)
}

/// What collecting the functions hands back, with the table as mathematical
/// values.
pub open spec fn collected(outcome: Result<StringHashMap<Function>, Error>) -> Result<
    FunctionTable,
    Error,
> {
    match outcome {
        Ok(functions) => Ok(table_view(&functions)),
        Err(e) => Err(e),
    }
}

/// What a turn hands back, with the function as mathematical values.
pub open spec fn outcome_view(outcome: Result<&Function, Error>) -> Result<FunctionView, Error> {
    match outcome {
        Ok(f) => Ok(f@),
        Err(e) => Err(e),
    }
}

impl ParallaxVm {
    /// Every machine has 32 integer registers.
    pub proof fn lemma_register_count(&self)
        ensures
            self@.integer_register.len() == 32,
    {
    }

    /// Get value depending on operands.
    fn prefetch_operand(&self, operand: OperandType) -> (result: Result<OperandValue, Error>)
        ensures
            result == self@.fetch(operand),
    {
        match operand {
            OperandType::IntegerRegister(n) => Ok(
                OperandValue::IntegerValue(self.get_int_register(n)?),
            ),
            OperandType::IntegerConstant(n) => Ok(OperandValue::IntegerValue(n)),
            OperandType::Memory(_address) => Err(Error::NotImplemented),
        }
    }

    /// Set value depending on operands.
    fn store_value(&mut self, operand: OperandType, new_value: OperandValue) -> (result: Result<
        (),
        Error,
    >)
        ensures
            match old(self)@.store(operand, new_value) {
                Ok(after) => result == Ok::<(), Error>(()) && final(self)@ == after,
                Err(e) => result == Err::<(), Error>(e) && final(self)@ == old(self)@,
            },
    {
        match operand {
            OperandType::IntegerRegister(n) => self.set_int_register(
                n,
                new_value.unwrap_integer()?,
            ),
            OperandType::IntegerConstant(_n) => Err(Error::UnsupportedOperation),
            OperandType::Memory(_address) => Err(Error::NotImplemented),
        }
    }

    /// Generic implementation of all kinds of jumps: goes to the label if
    /// `predicate` says so of the two operands, and one opcode further on if
    /// it does not.
    fn jump_generic<'x, F>(
        &mut self,
        current_func: &'x Function,
        label_name: &'static str,
        predicate: F,
        arg1: OperandType,
        arg2: OperandType,
    ) -> (result: Result<&'x Function, Error>) where F: FnOnce(i64, i64) -> bool
        requires
            old(self)@.opcode_pointer < usize::MAX,
            forall|x: i64, y: i64| call_requires(predicate, (x, y)),
        ensures
            match old(self)@.jump_target(current_func@, label_name, arg1, arg2) {
                Ok((target, x, y)) => {
                    &&& result == Ok::<&Function, Error>(current_func)
                    &&& {
                        ||| call_ensures(predicate, (x, y), true) && final(self)@ == old(
                            self,
                        )@.jumped(target, true)
                        ||| call_ensures(predicate, (x, y), false) && final(self)@ == old(
                            self,
                        )@.jumped(target, false)
                    }
                },
                Err(e) => result == Err::<&Function, Error>(e) && final(self)@ == old(self)@,
            },
    {
        let jmp_dst: usize = match current_func.labels.get(label_name) {
            Some(place) => *place,
            None => {
                return Err(Error::LabelDoesNotExist(label_name));
            },
        };
        if current_func.is_opcode_in_range(jmp_dst) {
            let arg_val1: i64 = (self.prefetch_operand(arg1)?).unwrap_integer()?;
            let arg_val2: i64 = (self.prefetch_operand(arg2)?).unwrap_integer()?;
            let taken = predicate(arg_val1, arg_val2);
            if taken {
                self.opcode_pointer = jmp_dst;
            } else {
                self.opcode_pointer += 1;
            }
            Ok(current_func)
        } else {
            // Only a function put together by hand can have such a label.
            Err(Error::RestrictedJumpOutOfScope(current_func.name))
        }
    }

    /// Performs an "action" on 2 arguments and stores the result into dst.
    /// The opcode pointer moves on before the result is stored.
    fn two_operand_action_generic<F>(
        &mut self,
        action: F,
        dst: OperandType,
        arg1: OperandType,
        arg2: OperandType,
    ) -> (result: Result<(), Error>) where
        F: FnOnce(OperandValue, OperandValue) -> Result<OperandValue, Error>,

        requires
            old(self)@.opcode_pointer < usize::MAX,
            forall|x: OperandValue, y: OperandValue| call_requires(action, (x, y)),
        ensures
            match old(self)@.fetch(arg1) {
                Ok(x) => match old(self)@.fetch(arg2) {
                    Ok(y) => exists|value: Result<OperandValue, Error>|
                        call_ensures(action, (x, y), value) && (final(self)@, result) == old(
                            self,
                        )@.computed(dst, value),
                    Err(e) => result == Err::<(), Error>(e) && final(self)@ == old(self)@,
                },
                Err(e) => result == Err::<(), Error>(e) && final(self)@ == old(self)@,
            },
    {
        let src_val1 = self.prefetch_operand(arg1)?;
        let src_val2 = self.prefetch_operand(arg2)?;
        // The increment comes before the action, so that no temporary
        // result has to be kept.
        self.opcode_pointer += 1;
        let value = action(src_val1, src_val2);
        let result = match value {
            Ok(v) => self.store_value(dst, v),
            Err(e) => Err(e),
        };
        proof {
            assert((self@, result) == old(self)@.computed(dst, value));
        }
        result
    }

    /// A single "turn" of a virtual machine, i.e. processing a single operation.
    /// Returns reference to the function that runs next.
    ///
    /// The counters of the machine must have room for the turn, which
    /// `has_room` tells.
    pub fn turn<'v>(
        &mut self,
        operation: &Opcode,
        current_func: &'v Function,
        functions: &'v StringHashMap<Function>,
    ) -> (result: Result<&'v Function, Error>)
        requires
            old(self)@.has_room(*operation, table_view(functions)),
        ensures
            (final(self)@, outcome_view(result)) == old(self)@.turn(
                *operation,
                current_func@,
                table_view(functions),
            ),
    {
        match *operation {
            Opcode::FunctionStart(_name) => Err(Error::OpcodeMustBeUnreachable),
            Opcode::FunctionEnd => Err(Error::OpcodeMustBeUnreachable),
            Opcode::I08(_) | Opcode::I16(_) | Opcode::I32(_) | Opcode::I64(_) => {
                // Actually we do nothing. This is a variable definition.
                self.opcode_pointer += 1;
                Ok(current_func)
            },
            Opcode::Call(name) => {
                let next_func: &'v Function = match functions.get(name) {
                    Some(f) => f,
                    None => {
                        return Err(Error::FunctionIsNotDefined(name));
                    },
                };
                self.return_stack.push(
                    (current_func.name, self.opcode_pointer + 1, self.stack_pointer),
                );
                self.opcode_pointer = next_func.opcodes_range.start;
                self.stack_pointer += next_func.stackframe_size;
                Ok(next_func)
            },
            Opcode::Return => {
                let ret: (&'static str, usize, usize) = match self.return_stack.pop() {
                    Some(record) => record,
                    None => {
                        return Err(Error::ReturnStackExhausted);
                    },
                };
                let previous_func: &'v Function = match functions.get(ret.0) {
                    Some(f) => f,
                    None => {
                        return Err(Error::FunctionIsNotDefined(ret.0));
                    },
                };
                self.opcode_pointer = ret.1;
                self.stack_pointer = ret.2;
                Ok(previous_func)
            },
            Opcode::Label(_name) => {
                // Actually we do nothing. Label is a service opcode, needed
                // when the function is defined.
                self.opcode_pointer += 1;
                Ok(current_func)
            },
            Opcode::Jump(name) => {
                self.jump_generic(
                    current_func,
                    name,
                    |x: i64, y: i64| -> (taken: bool)
                        ensures
                            taken
                        { true },
                    OperandType::IntegerConstant(0),
                    OperandType::IntegerConstant(0),
                )
            },
            Opcode::JumpZero(name, arg1) => {
                self.jump_generic(
                    current_func,
                    name,
                    |x: i64, y: i64| -> (taken: bool)
                        ensures
                            taken == (x == 0)
                        { x == 0 },
                    arg1,
                    OperandType::IntegerConstant(0),
                )
            },
            Opcode::JumpNotZero(name, arg1) => {
                self.jump_generic(
                    current_func,
                    name,
                    |x: i64, y: i64| -> (taken: bool)
                        ensures
                            taken == (x != 0)
                        { x != 0 },
                    arg1,
                    OperandType::IntegerConstant(0),
                )
            },
            Opcode::JumpBelow(name, arg1, arg2) => {
                self.jump_generic(
                    current_func,
                    name,
                    |x: i64, y: i64| -> (taken: bool)
                        ensures
                            taken == (x < y)
                        { x < y },
                    arg1,
                    arg2,
                )
            },
            Opcode::JumpBelowEqual(name, arg1, arg2) => {
                self.jump_generic(
                    current_func,
                    name,
                    |x: i64, y: i64| -> (taken: bool)
                        ensures
                            taken == (x <= y)
                        { x <= y },
                    arg1,
                    arg2,
                )
            },
            Opcode::JumpAbove(name, arg1, arg2) => {
                self.jump_generic(
                    current_func,
                    name,
                    |x: i64, y: i64| -> (taken: bool)
                        ensures
                            taken == (x > y)
                        { x > y },
                    arg1,
                    arg2,
                )
            },
            Opcode::JumpAboveEqual(name, arg1, arg2) => {
                self.jump_generic(
                    current_func,
                    name,
                    |x: i64, y: i64| -> (taken: bool)
                        ensures
                            taken == (x >= y)
                        { x >= y },
                    arg1,
                    arg2,
                )
            },
            Opcode::JumpEqual(name, arg1, arg2) => {
                self.jump_generic(
                    current_func,
                    name,
                    |x: i64, y: i64| -> (taken: bool)
                        ensures
                            taken == (x == y)
                        { x == y },
                    arg1,
                    arg2,
                )
            },
            Opcode::JumpNotEqual(name, arg1, arg2) => {
                self.jump_generic(
                    current_func,
                    name,
                    |x: i64, y: i64| -> (taken: bool)
                        ensures
                            taken == (x != y)
                        { x != y },
                    arg1,
                    arg2,
                )
            },
            Opcode::Move(dst, src) => {
                let src_val = self.prefetch_operand(src)?;
                self.store_value(dst, src_val)?;
                self.opcode_pointer += 1;
                Ok(current_func)
            },
            Opcode::Add(dst, src1, src2) => {
                self.two_operand_action_generic(
                    |x: OperandValue, y: OperandValue| -> (sum: Result<OperandValue, Error>)
                        ensures
                            sum == x.sum(y)
                        { x + y },
                    dst,
                    src1,
                    src2,
                )?;
                Ok(current_func)
            },
            Opcode::Sub(dst, src1, src2) => {
                self.two_operand_action_generic(
                    |x: OperandValue, y: OperandValue| -> (difference: Result<
                        OperandValue,
                        Error,
                    >)
                        ensures
                            difference == x.difference(y)
                        { x - y },
                    dst,
                    src1,
                    src2,
                )?;
                Ok(current_func)
            },
        }
    }

    /// Executes given operations on the machine.
    /// Returns number of seconds spent on execution.
    ///
    /// The functions of the program are collected first; the run then starts
    /// at `main` and takes turn after turn until the return of `main` has
    /// emptied the return stack, or a turn fails. The registers are not
    /// reset: a run goes on from what they hold.
    ///
    /// The program must be one whose run comes to an end with a result. A
    /// run that is known to be over after some number of turns does
    /// (`lemma_run_to_end`), and so does every program whose `main` only
    /// moves and computes (`lemma_straight_line_main`). `run_bounded` takes
    /// any program.
    pub fn run(&mut self, program: &[Opcode]) -> (result: Result<u64, Error>)
        requires
            8 * program.len() <= usize::MAX,
            completes(old(self)@, program@),
        ensures
            (final(self)@, report(result)) == run_to_end(old(self)@, program@),
    {
        let start_time = Instant::now();
        let ghost mut turns: nat = choose|turns: nat|
            run_for(old(self)@, program@, turns).1.is_over();

        // Functions Map is a result of parsing and it is external to VM
        // (came as list of opcodes), so it is no part of the VM's structure.
        let functions: StringHashMap<Function> = self.collect_functions(program).unwrap()?;

        // Start from entry point - "main" function
        let main_func_name: &'static str = "main";
        let mut current_function: &Function = match functions.get(main_func_name) {
            Some(f) => f,
            None => {
                return Err(Error::FunctionIsNotDefined(main_func_name));
            },
        };

        // Init stack pointer, first opcode to start with and return address.
        self.stack_pointer = 0;
        self.opcode_pointer = current_function.opcodes_range.start;
        self.return_stack.push(
            (main_func_name, current_function.opcodes_range.end, self.stack_pointer),
        );

        while !self.return_stack.is_empty()
            invariant
                advance(program@, table_view(&functions), self@, current_function@, turns)
                    == run_to_end(old(self)@, program@),
                run_to_end(old(self)@, program@).1.is_over(),
            decreases turns,
        {
            // The running opcode lies inside the running function: a run
            // that comes to an end never leaves it.
            assert(can_turn(program@, table_view(&functions), self@, current_function@));
            let current_opcode: &Opcode = &program[self.opcode_pointer];
            current_function = self.turn(current_opcode, current_function, &functions)?;
            proof {
                turns = (turns - 1) as nat;
            }
        }

        let elapsed = start_time.elapsed().as_secs();
        Ok(elapsed)
    }

    /// Executes given operations on the machine, for no more than `turns`
    /// turns. Returns what `run` returns if the run came to an end by then.
    /// Returns nothing if it did not, and if it never can: see
    /// [`Progress::Stranded`](crate::execution::Progress).
    pub fn run_bounded(&mut self, program: &[Opcode], turns: u64) -> (result: Option<
        Result<u64, Error>,
    >)
        requires
            8 * program.len() <= usize::MAX,
        ensures
            final(self)@ == run_for(old(self)@, program@, turns as nat).0,
            match result {
                Some(outcome) => report(outcome) == run_for(old(self)@, program@, turns as nat).1,
                None => !run_for(old(self)@, program@, turns as nat).1.is_over(),
            },
    {
        let start_time = Instant::now();
        let functions: StringHashMap<Function> = match self.collect_functions(program) {
            Some(Ok(functions)) => functions,
            Some(Err(e)) => {
                return Some(Err(e));
            },
            None => {
                return None;
            },
        };
        let main_func_name: &'static str = "main";
        let mut current_function: &Function = match functions.get(main_func_name) {
            Some(f) => f,
            None => {
                return Some(Err(Error::FunctionIsNotDefined(main_func_name)));
            },
        };
        self.stack_pointer = 0;
        self.opcode_pointer = current_function.opcodes_range.start;
        self.return_stack.push(
            (main_func_name, current_function.opcodes_range.end, self.stack_pointer),
        );

        let mut turns_left: u64 = turns;
        while !self.return_stack.is_empty()
            invariant
                advance(
                    program@,
                    table_view(&functions),
                    self@,
                    current_function@,
                    turns_left as nat,
                ) == run_for(old(self)@, program@, turns as nat),
            decreases turns_left,
        {
            if turns_left == 0 || !current_function.is_opcode_in_range(self.opcode_pointer)
                || self.opcode_pointer >= program.len() {
                return None;
            }
            let current_opcode: &Opcode = &program[self.opcode_pointer];
            if !self.has_room(current_opcode, &functions) {
                return None;
            }
            current_function = match self.turn(current_opcode, current_function, &functions) {
                Ok(next) => next,
                Err(e) => {
                    return Some(Err(e));
                },
            };
            turns_left -= 1;
        }

        let elapsed = start_time.elapsed().as_secs();
        Some(Ok(elapsed))
    }

    /// Whether the counters have room for the turn that runs `operation`.
    pub fn has_room(&self, operation: &Opcode, functions: &StringHashMap<Function>) -> (room: bool)
        ensures
            room == self@.has_room(*operation, table_view(functions)),
    {
        match *operation {
            Opcode::FunctionStart(_) | Opcode::FunctionEnd | Opcode::Return => true,
            Opcode::Call(name) => match functions.get(name) {
                Some(callee) => self.opcode_pointer < usize::MAX && callee.stackframe_size
                    <= usize::MAX - self.stack_pointer,
                None => true,
            },
            _ => self.opcode_pointer < usize::MAX,
        }
    }

    /// Collects all functions of the program into a table. Gives nothing if
    /// a function has the name of one that the table holds already.
    pub fn collect_functions(&self, program: &[Opcode]) -> (result: Option<
        Result<StringHashMap<Function>, Error>,
    >)
        requires
            8 * program.len() <= usize::MAX,
        ensures
            result is Some <==> loads_cleanly(program@),
            result matches Some(outcome) ==> collected(outcome) == loaded(
                program@,
                program.len() as int,
            ),
    {
        let mut functions: StringHashMap<Function> = StringHashMap::new();
        let mut i: usize = 0;
        proof {
            assert(table_view(&functions) =~= Map::empty());
        }
        while i < program.len()
            invariant
                i <= program.len(),
                8 * program.len() <= usize::MAX,
                loaded(program@, i as int) == Ok::<FunctionTable, Error>(table_view(&functions)),
                forall|at: int| 0 <= at < i ==> !redefines(program@, at),
                forall|name: Seq<char>|
                    functions@.contains_key(name) <==> exists|before: int|
                        0 <= before < i && program[before].starts(name),
            decreases program.len() - i,
        {
            if let Opcode::FunctionStart(name) = program[i] {
                if functions.contains_key(name) {
                    proof {
                        assert(redefines(program@, i as int));
                    }
                    return None;
                }
                let defined = self.define_function(
                    name,
                    i,
                    slice_subrange(program, i, program.len()),
                );
                let current_func: Function = match defined {
                    Ok(f) => f,
                    Err(e) => {
                        proof {
                            lemma_load_error_stays(program@, i + 1, program.len() as int);
                            assert forall|at: int|
                                0 <= at < program.len() && redefines(program@, at) implies loaded(
                                program@,
                                at,
                            ) is Err by {
                                if at > i {
                                    lemma_load_error_stays(program@, i + 1, at);
                                }
                            }
                        }
                        return Some(Err(e));
                    },
                };
                let ghost before = functions@;
                functions.insert(name.to_owned(), current_func);
                proof {
                    assert(table_view(&functions) =~= before.map_values(|f: Function| f@).insert(
                        name@,
                        current_func@,
                    ));
                }
            }
            i += 1;
        }
        Some(Ok(functions))
    }

    /// Define a new function.
    /// index - index of FunctionStart opcode in a whole program
    /// program - SLICE of program starting from index!
    pub fn define_function(&self, fname: &'static str, index: usize, program: &[Opcode]) -> (result:
        Result<Function, Error>)
        requires
            program.len() > 0,
            index + program.len() <= usize::MAX,
            8 * program.len() <= usize::MAX,
        ensures
            defined(result) == definition(fname, index, program@),
            result matches Ok(function) ==> function@.is_sound(),
    {
        let mut function_result: Function = Function {
            name: fname,
            opcodes_range: Range { start: (index + 1), end: 0 },
            stackframe_size: STACKFRAME_SIZE,
            labels: StringHashMap::new(),
            variables: StringHashMap::new(),
            data_segment: Vec::new(),
        };
        if let Opcode::FunctionStart(_name) = program[0] {
            let func_end_index_o: Option<usize> = position_of_end(program);

            if let Some(func_end_index) = func_end_index_o {
                // Mark where function ends
                function_result.opcodes_range.end = index + func_end_index;

                let mut required_data_size: usize = 0;
                // Collect local variables and offsets of all labels.
                let mut i: usize = 1;
                proof {
                    reveal_with_fuel(bytes_before, 2);
                    reveal_with_fuel(labels_before, 2);
                    reveal_with_fuel(variables_before, 2);
                }
                while i < func_end_index
                    invariant
                        1 <= i <= func_end_index < program.len(),
                        index + program.len() <= usize::MAX,
                        8 * program.len() <= usize::MAX,
                        forall|k: int| 0 < k < i ==> !(program[k] is FunctionStart),
                        required_data_size == bytes_before(program@, i as int),
                        required_data_size <= 8 * i,
                        function_result.labels@ == labels_before(program@, index, i as int),
                        function_result.variables@ == variables_before(program@, i as int),
                        function_result.name == fname,
                        function_result.opcodes_range == (Range {
                            start: (index + 1) as usize,
                            end: (index + func_end_index) as usize,
                        }),
                        function_result.stackframe_size == STACKFRAME_SIZE,
                        function_result.data_segment@ == Seq::<u8>::empty(),
                        is_first_end(program@, func_end_index as int),
                        program[0] is FunctionStart,
                    decreases func_end_index - i,
                {
                    proof {
                        reveal_with_fuel(bytes_before, 2);
                        reveal_with_fuel(labels_before, 2);
                        reveal_with_fuel(variables_before, 2);
                    }
                    match program[i] {
                        Opcode::Label(label_name) => {
                            // Label offset = global offset (index) + local offset (i)
                            function_result.labels.insert(label_name.to_owned(), index + i);
                        },
                        Opcode::FunctionStart(func_name) => {
                            // Did you try to define a nested function?
                            proof {
                                lemma_first_end_is(program@, func_end_index as int);
                                lemma_first_nested_is(program@, func_end_index as int, i as int);
                            }
                            return Err(Error::BrokenFunctionDefinition(func_name));
                        },
                        Opcode::I08(var_name) => {
                            function_result.variables.insert(
                                var_name.to_owned(),
                                (required_data_size, 1),
                            );
                            required_data_size += 1;
                        },
                        Opcode::I16(var_name) => {
                            function_result.variables.insert(
                                var_name.to_owned(),
                                (required_data_size, 2),
                            );
                            required_data_size += 2;
                        },
                        Opcode::I32(var_name) => {
                            function_result.variables.insert(
                                var_name.to_owned(),
                                (required_data_size, 4),
                            );
                            required_data_size += 4;
                        },
                        Opcode::I64(var_name) => {
                            function_result.variables.insert(
                                var_name.to_owned(),
                                (required_data_size, 8),
                            );
                            required_data_size += 8;
                        },
                        _ => {  /* Not interesting */
                        },
                    };
                    i += 1;
                }
                function_result.data_segment = zeroed(required_data_size);
                proof {
                    lemma_first_end_is(program@, func_end_index as int);
                    lemma_definition(fname, index, program@);
                }
            } else {
                return Err(Error::BrokenFunctionDefinition(fname));
            }
        } else {
            return Err(Error::BrokenFunctionDefinition(fname));
        }

        Ok(function_result)
    }

    /// Get value from integer_register or returns an error.
    fn get_int_register(&self, reg_number: usize) -> (result: Result<i64, Error>)
        ensures
            result == self@.register(reg_number),
    {
        let number_of_registers = self.integer_register.len();
        if reg_number < number_of_registers {
            Ok(self.integer_register[reg_number])
        } else {
            Err(Error::NoSuchIntegerRegister(number_of_registers, reg_number))
        }
    }

    /// Set value into integer_register or returns an error.
    fn set_int_register(&mut self, reg_number: usize, new_value: i64) -> (result: Result<
        (),
        Error,
    >)
        ensures
            match old(self)@.store(
                OperandType::IntegerRegister(reg_number),
                OperandValue::IntegerValue(new_value),
            ) {
                Ok(after) => result == Ok::<(), Error>(()) && final(self)@ == after,
                Err(e) => result == Err::<(), Error>(e) && final(self)@ == old(self)@,
            },
    {
        let number_of_registers = self.integer_register.len();
        if reg_number < number_of_registers {
            self.integer_register[reg_number] = new_value;
            Ok(())
        } else {
            Err(Error::NoSuchIntegerRegister(number_of_registers, reg_number))
        }
    }

    /// Get a read-only access to VM's registers.
    pub fn get_integer_registers(&self) -> (registers: &[i64])
        ensures
            registers@ == self@.integer_register,
    {
        self.integer_register.as_slice()
    }
}

/// The place of the first function end among the opcodes, if there is one.
fn position_of_end(program: &[Opcode]) -> (position: Option<usize>)
    ensures
        match position {
            Some(end) => is_first_end(program@, end as int),
            None => !has_end(program@),
        },
{
    let mut i: usize = 0;
    while i < program.len()
        invariant
            i <= program.len(),
            forall|k: int| 0 <= k < i ==> !(program[k] is FunctionEnd),
        decreases program.len() - i,
    {
        if let Opcode::FunctionEnd = program[i] {
            return Some(i);
        }
        i += 1;
    }
    None
}

/// A data segment of `size` bytes, all zero.
fn zeroed(size: usize) -> (data_segment: Vec<u8>)
    ensures
        data_segment@ == Seq::new(size as nat, |i: int| 0u8),
{
    let mut data_segment: Vec<u8> = Vec::new();
    let mut i: usize = 0;
    while i < size
        invariant
            i <= size,
            data_segment@ == Seq::new(i as nat, |i: int| 0u8),
        decreases size - i,
    {
        data_segment.push(0);
        i += 1;
    }
    data_segment
}

} // verus!
