use parallax_vm::Error;
use parallax_vm::Function;
use parallax_vm::Opcode;
use parallax_vm::OperandType;
use parallax_vm::ParallaxVm;

const R0: OperandType = OperandType::IntegerRegister(0);
const R1: OperandType = OperandType::IntegerRegister(1);

fn constant(value: i64) -> OperandType {
    OperandType::IntegerConstant(value)
}

/// The number that the machine shows for one of its counters.
fn counter(vm: &ParallaxVm, name: &str) -> usize {
    let text = format!("{:?}", vm);
    let key = format!("{}: ", name);
    let from = text.find(&key).expect("the counter is shown") + key.len();
    let digits: String = text[from..].chars().take_while(|c| c.is_ascii_digit()).collect();
    digits.parse().expect("the counter is a number")
}

fn return_stack(vm: &ParallaxVm) -> String {
    let text = format!("{:?}", vm);
    let from = text.find("return_stack: ").expect("the stack is shown") + "return_stack: ".len();
    let to = text[from..].find(']').expect("the stack ends") + from + 1;
    text[from..to].to_string()
}

/// main: 0 start, 1 label "a", 2 call f, 3 return, 4 label "b", 5 end.
/// f: 6 start, 7 return, 8 end.
fn two_functions() -> Vec<Opcode> {
    vec![
        Opcode::FunctionStart("main"),
        Opcode::Label("a"),
        Opcode::Call("f"),
        Opcode::Return,
        Opcode::Label("b"),
        Opcode::FunctionEnd,
        Opcode::FunctionStart("f"),
        Opcode::Return,
        Opcode::FunctionEnd,
    ]
}

/// The place that a turn leaves the machine at, when it starts at 0 inside `main`.
fn place_after(operation: Opcode) -> usize {
    let program = two_functions();
    let mut vm = ParallaxVm::default();
    let functions = vm.collect_functions(&program).unwrap().unwrap();
    let main = functions.get("main").unwrap();
    let next = vm.turn(&operation, main, &functions).unwrap();
    assert_eq!(next.name, "main");
    counter(&vm, "opcode_pointer")
}

fn failure_of(operation: Opcode) -> Error {
    let program = two_functions();
    let mut vm = ParallaxVm::default();
    let functions = vm.collect_functions(&program).unwrap().unwrap();
    let main = functions.get("main").unwrap();
    let failure = match vm.turn(&operation, main, &functions) {
        Ok(_) => panic!("the turn did not fail"),
        Err(e) => e,
    };
    assert_eq!(vm.get_integer_registers(), &[0; 32]);
    failure
}

#[test]
fn a_fresh_machine_is_empty() {
    let vm = ParallaxVm::default();
    assert_eq!(vm.get_integer_registers(), &[0; 32]);
    assert_eq!(counter(&vm, "opcode_pointer"), 0);
    assert_eq!(counter(&vm, "stack_pointer"), 0);
    assert_eq!(return_stack(&vm), "[]");
}

#[test]
fn a_call_and_the_return_at_once_leave_the_machine_behind_the_call() {
    let program = two_functions();
    let mut vm = ParallaxVm::default();
    let functions = vm.collect_functions(&program).unwrap().unwrap();
    let main = functions.get("main").unwrap();
    let current = vm.turn(&program[1], main, &functions).unwrap();
    let current = vm.turn(&program[1], current, &functions).unwrap();
    assert_eq!(counter(&vm, "opcode_pointer"), 2);
    let stack_pointer = counter(&vm, "stack_pointer");
    let stack = return_stack(&vm);

    let inside = vm.turn(&program[2], current, &functions).unwrap();
    assert_eq!(inside.name, "f");
    assert_eq!(counter(&vm, "opcode_pointer"), 7);
    assert_eq!(counter(&vm, "stack_pointer"), stack_pointer + 10);
    assert_eq!(return_stack(&vm), "[(\"main\", 3, 0)]");

    let back = vm.turn(&program[7], inside, &functions).unwrap();
    assert_eq!(back.name, "main");
    assert_eq!(counter(&vm, "opcode_pointer"), 3);
    assert_eq!(counter(&vm, "stack_pointer"), stack_pointer);
    assert_eq!(return_stack(&vm), stack);
    assert_eq!(vm.get_integer_registers(), &[0; 32]);
}

#[test]
fn calls_add_up_their_frames() {
    let program = vec![
        Opcode::FunctionStart("main"),
        Opcode::Call("main"),
        Opcode::Return,
        Opcode::FunctionEnd,
    ];
    let mut vm = ParallaxVm::default();
    let functions = vm.collect_functions(&program).unwrap().unwrap();
    let main = functions.get("main").unwrap();
    let current = vm.turn(&program[1], main, &functions).unwrap();
    let current = vm.turn(&program[1], current, &functions).unwrap();
    let current = vm.turn(&program[1], current, &functions).unwrap();
    assert_eq!(current.name, "main");
    assert_eq!(counter(&vm, "stack_pointer"), 30);
    assert_eq!(counter(&vm, "opcode_pointer"), 1);
    assert_eq!(return_stack(&vm), "[(\"main\", 1, 0), (\"main\", 2, 10), (\"main\", 2, 20)]");
}

#[test]
fn labels_and_variables_only_move_on() {
    assert_eq!(place_after(Opcode::Label("anything")), 1);
    assert_eq!(place_after(Opcode::I08("v")), 1);
    assert_eq!(place_after(Opcode::I16("v")), 1);
    assert_eq!(place_after(Opcode::I32("v")), 1);
    assert_eq!(place_after(Opcode::I64("v")), 1);
}

#[test]
fn a_jump_goes_to_its_label() {
    assert_eq!(place_after(Opcode::Jump("a")), 1);
    assert_eq!(place_after(Opcode::Jump("b")), 4);
}

#[test]
fn a_jump_taken_goes_to_its_label() {
    assert_eq!(place_after(Opcode::JumpZero("b", R0)), 4);
    assert_eq!(place_after(Opcode::JumpNotZero("b", constant(-3))), 4);
    assert_eq!(place_after(Opcode::JumpBelow("b", constant(-1), R0)), 4);
    assert_eq!(place_after(Opcode::JumpBelowEqual("b", R1, R0)), 4);
    assert_eq!(place_after(Opcode::JumpBelowEqual("b", constant(-1), R0)), 4);
    assert_eq!(place_after(Opcode::JumpAbove("b", constant(1), R0)), 4);
    assert_eq!(place_after(Opcode::JumpAboveEqual("b", R0, R1)), 4);
    assert_eq!(place_after(Opcode::JumpAboveEqual("b", constant(1), R1)), 4);
    assert_eq!(place_after(Opcode::JumpEqual("b", R0, constant(0))), 4);
    assert_eq!(place_after(Opcode::JumpNotEqual("b", R0, constant(1))), 4);
}

#[test]
fn a_jump_not_taken_moves_on_by_one() {
    assert_eq!(place_after(Opcode::JumpZero("b", constant(2))), 1);
    assert_eq!(place_after(Opcode::JumpNotZero("b", R0)), 1);
    assert_eq!(place_after(Opcode::JumpBelow("b", R0, R1)), 1);
    assert_eq!(place_after(Opcode::JumpBelow("b", constant(1), R1)), 1);
    assert_eq!(place_after(Opcode::JumpBelowEqual("b", constant(1), R0)), 1);
    assert_eq!(place_after(Opcode::JumpAbove("b", R1, R0)), 1);
    assert_eq!(place_after(Opcode::JumpAbove("b", constant(-1), R0)), 1);
    assert_eq!(place_after(Opcode::JumpAboveEqual("b", constant(-1), R1)), 1);
    assert_eq!(place_after(Opcode::JumpEqual("b", R0, constant(1))), 1);
    assert_eq!(place_after(Opcode::JumpNotEqual("b", R0, R1)), 1);
}

#[test]
fn jumps_compare_as_signed_integers() {
    assert_eq!(place_after(Opcode::JumpBelow("b", constant(i64::MIN), constant(i64::MAX))), 4);
    assert_eq!(place_after(Opcode::JumpAbove("b", constant(-1), constant(1))), 1);
}

#[test]
fn a_jump_needs_a_label_of_the_running_function() {
    assert_eq!(failure_of(Opcode::Jump("nowhere")), Error::LabelDoesNotExist("nowhere"));
    assert_eq!(
        failure_of(Opcode::JumpEqual("main", R0, R0)),
        Error::LabelDoesNotExist("main")
    );
}

#[test]
fn a_missing_label_is_found_before_a_bad_operand() {
    assert_eq!(
        failure_of(Opcode::JumpZero("nowhere", OperandType::IntegerRegister(32))),
        Error::LabelDoesNotExist("nowhere")
    );
}

#[test]
fn a_jump_reads_its_operands_though_it_may_not_need_them() {
    assert_eq!(
        failure_of(Opcode::JumpZero("b", OperandType::IntegerRegister(32))),
        Error::NoSuchIntegerRegister(32, 32)
    );
    assert_eq!(
        failure_of(Opcode::JumpEqual("b", R0, OperandType::Memory(0))),
        Error::NotImplemented
    );
    assert_eq!(
        failure_of(Opcode::JumpEqual("b", OperandType::IntegerRegister(40), OperandType::Memory(0))),
        Error::NoSuchIntegerRegister(32, 40)
    );
}

#[test]
fn a_label_outside_the_function_is_no_target() {
    let program = two_functions();
    let mut vm = ParallaxVm::default();
    let functions = vm.collect_functions(&program).unwrap().unwrap();
    let mut odd: Function = vm.define_function("odd", 0, &program).unwrap();
    odd.labels.insert("end".to_string(), 5);
    odd.labels.insert("start".to_string(), 0);
    odd.labels.insert("last".to_string(), 4);
    let failure = vm.turn(&Opcode::Jump("end"), &odd, &functions);
    assert!(matches!(failure, Err(Error::RestrictedJumpOutOfScope("odd"))));
    let failure = vm.turn(&Opcode::JumpZero("start", OperandType::Memory(0)), &odd, &functions);
    assert!(matches!(failure, Err(Error::RestrictedJumpOutOfScope("odd"))));
    assert_eq!(counter(&vm, "opcode_pointer"), 0);
    assert!(vm.turn(&Opcode::Jump("last"), &odd, &functions).is_ok());
    assert_eq!(counter(&vm, "opcode_pointer"), 4);
}

#[test]
fn the_markers_of_a_function_cannot_run() {
    assert_eq!(failure_of(Opcode::FunctionStart("g")), Error::OpcodeMustBeUnreachable);
    assert_eq!(failure_of(Opcode::FunctionEnd), Error::OpcodeMustBeUnreachable);
}

#[test]
fn a_call_needs_its_function() {
    assert_eq!(failure_of(Opcode::Call("g")), Error::FunctionIsNotDefined("g"));
}

#[test]
fn a_return_needs_a_call() {
    assert_eq!(failure_of(Opcode::Return), Error::ReturnStackExhausted);
}

#[test]
fn a_return_needs_the_function_it_returns_to() {
    let program = two_functions();
    let mut vm = ParallaxVm::default();
    let functions = vm.collect_functions(&program).unwrap().unwrap();
    let stranger: Function = vm.define_function("stranger", 0, &program).unwrap();
    let inside = vm.turn(&Opcode::Call("f"), &stranger, &functions).unwrap();
    assert_eq!(return_stack(&vm), "[(\"stranger\", 1, 0)]");
    let failure = vm.turn(&Opcode::Return, inside, &functions);
    assert!(matches!(failure, Err(Error::FunctionIsNotDefined("stranger"))));
    assert_eq!(return_stack(&vm), "[]");
    assert_eq!(counter(&vm, "opcode_pointer"), 7);
    assert_eq!(counter(&vm, "stack_pointer"), 10);
}

#[test]
fn a_move_stores_and_moves_on() {
    let program = two_functions();
    let mut vm = ParallaxVm::default();
    let functions = vm.collect_functions(&program).unwrap().unwrap();
    let main = functions.get("main").unwrap();
    let main = vm.turn(&Opcode::Move(OperandType::IntegerRegister(31), constant(-9)), main, &functions).unwrap();
    let _ = vm.turn(&Opcode::Move(R0, OperandType::IntegerRegister(31)), main, &functions).unwrap();
    assert_eq!(counter(&vm, "opcode_pointer"), 2);
    assert_eq!(vm.get_integer_registers()[31], -9);
    assert_eq!(vm.get_integer_registers()[0], -9);
}

#[test]
fn a_move_that_fails_stays_where_it_is() {
    let program = two_functions();
    let mut vm = ParallaxVm::default();
    let functions = vm.collect_functions(&program).unwrap().unwrap();
    let main = functions.get("main").unwrap();
    let failure = vm.turn(&Opcode::Move(OperandType::IntegerRegister(32), constant(1)), main, &functions);
    assert!(matches!(failure, Err(Error::NoSuchIntegerRegister(32, 32))));
    assert_eq!(counter(&vm, "opcode_pointer"), 0);
}

#[test]
fn an_addition_moves_on_before_it_stores() {
    let program = two_functions();
    let mut vm = ParallaxVm::default();
    let functions = vm.collect_functions(&program).unwrap().unwrap();
    let main = functions.get("main").unwrap();
    let failure = vm.turn(&Opcode::Add(constant(0), constant(1), constant(2)), main, &functions);
    assert!(matches!(failure, Err(Error::UnsupportedOperation)));
    assert_eq!(counter(&vm, "opcode_pointer"), 1);
    let failure = vm.turn(&Opcode::Sub(OperandType::Memory(0), constant(1), constant(2)), main, &functions);
    assert!(matches!(failure, Err(Error::NotImplemented)));
    assert_eq!(counter(&vm, "opcode_pointer"), 2);
    let failure = vm.turn(&Opcode::Sub(R0, OperandType::Memory(0), constant(2)), main, &functions);
    assert!(matches!(failure, Err(Error::NotImplemented)));
    assert_eq!(counter(&vm, "opcode_pointer"), 2);
    assert_eq!(vm.get_integer_registers(), &[0; 32]);
}

#[test]
fn a_destination_may_be_one_of_the_sources() {
    let program = two_functions();
    let mut vm = ParallaxVm::default();
    let functions = vm.collect_functions(&program).unwrap().unwrap();
    let main = functions.get("main").unwrap();
    let main = vm.turn(&Opcode::Move(R0, constant(7)), main, &functions).unwrap();
    let main = vm.turn(&Opcode::Add(R0, R0, R0), main, &functions).unwrap();
    assert_eq!(vm.get_integer_registers()[0], 14);
    let _ = vm.turn(&Opcode::Sub(R0, constant(4), R0), main, &functions).unwrap();
    assert_eq!(vm.get_integer_registers()[0], -10);
    assert_eq!(counter(&vm, "opcode_pointer"), 3);
}

#[test]
fn a_constant_is_no_destination() {
    assert_eq!(failure_of(Opcode::Move(constant(1), constant(2))), Error::UnsupportedOperation);
    assert_eq!(failure_of(Opcode::Move(constant(1), R1)), Error::UnsupportedOperation);
    assert_eq!(failure_of(Opcode::Add(constant(1), R1, constant(2))), Error::UnsupportedOperation);
    assert_eq!(failure_of(Opcode::Sub(constant(1), R1, constant(2))), Error::UnsupportedOperation);
}

#[test]
fn a_source_that_cannot_be_read_fails_before_the_destination() {
    assert_eq!(
        failure_of(Opcode::Move(constant(1), OperandType::IntegerRegister(99))),
        Error::NoSuchIntegerRegister(32, 99)
    );
    assert_eq!(
        failure_of(Opcode::Add(constant(1), OperandType::Memory(3), R0)),
        Error::NotImplemented
    );
}

#[test]
fn memory_is_neither_read_nor_written() {
    assert_eq!(failure_of(Opcode::Move(R0, OperandType::Memory(8))), Error::NotImplemented);
    assert_eq!(failure_of(Opcode::Move(OperandType::Memory(8), R0)), Error::NotImplemented);
}

#[test]
fn there_is_no_register_beyond_the_last() {
    assert_eq!(
        failure_of(Opcode::Move(R0, OperandType::IntegerRegister(32))),
        Error::NoSuchIntegerRegister(32, 32)
    );
    assert_eq!(
        failure_of(Opcode::Move(OperandType::IntegerRegister(usize::MAX), R0)),
        Error::NoSuchIntegerRegister(32, usize::MAX)
    );
}

#[test]
fn a_call_needs_room_for_its_frame() {
    let program = two_functions();
    let mut vm = ParallaxVm::default();
    let mut functions = vm.collect_functions(&program).unwrap().unwrap();
    let mut wide: Function = vm.define_function("wide", 0, &program).unwrap();
    wide.stackframe_size = usize::MAX;
    functions.insert("wide".to_string(), wide);
    let main = functions.get("main").unwrap();
    assert!(vm.has_room(&Opcode::Call("wide"), &functions));
    let inside = vm.turn(&Opcode::Call("wide"), main, &functions).unwrap();
    assert_eq!(inside.name, "wide");
    assert_eq!(counter(&vm, "stack_pointer"), usize::MAX);
    assert!(!vm.has_room(&Opcode::Call("wide"), &functions));
    assert!(!vm.has_room(&Opcode::Call("f"), &functions));
    assert!(vm.has_room(&Opcode::Call("nobody"), &functions));
    assert!(vm.has_room(&Opcode::Return, &functions));
    assert!(vm.has_room(&Opcode::Move(R0, R1), &functions));
}
