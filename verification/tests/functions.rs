use parallax_vm::Error;
use parallax_vm::Function;
use parallax_vm::Opcode;
use parallax_vm::OperandValue;
use parallax_vm::ParallaxVm;

fn define(index: usize, program: &[Opcode]) -> Result<Function, Error> {
    ParallaxVm::default().define_function("f", index, program)
}

fn defined(index: usize, program: &[Opcode]) -> Function {
    match define(index, program) {
        Ok(function) => function,
        Err(e) => panic!("broken: {:?}", e),
    }
}

fn broken(index: usize, program: &[Opcode]) -> Error {
    match define(index, program) {
        Ok(_) => panic!("not broken"),
        Err(e) => e,
    }
}

fn value_of(function: &Function, name: &'static str) -> i64 {
    match function.get_var_value(name) {
        Ok(OperandValue::IntegerValue(value)) => value,
        other => panic!("no integer: {:?}", other),
    }
}

#[test]
fn a_function_runs_from_behind_its_start_to_its_end() {
    let f = defined(7, &[Opcode::FunctionStart("f"), Opcode::Return, Opcode::Return, Opcode::FunctionEnd]);
    assert_eq!(f.name, "f");
    assert_eq!(f.opcodes_range, 8..10);
    assert_eq!(f.stackframe_size, 10);
    assert!(!f.is_opcode_in_range(7));
    assert!(f.is_opcode_in_range(8));
    assert!(f.is_opcode_in_range(9));
    assert!(!f.is_opcode_in_range(10));
    assert!(f.labels.is_empty());
    assert!(f.variables.is_empty());
    assert!(f.data_segment.is_empty());
}

#[test]
fn a_function_takes_its_name_from_the_caller() {
    let f = ParallaxVm::default()
        .define_function("given", 0, &[Opcode::FunctionStart("written"), Opcode::FunctionEnd]);
    match f {
        Ok(f) => assert_eq!(f.name, "given"),
        Err(e) => panic!("broken: {:?}", e),
    }
}

#[test]
fn an_empty_function_has_an_empty_range() {
    let f = defined(0, &[Opcode::FunctionStart("f"), Opcode::FunctionEnd]);
    assert_eq!(f.opcodes_range, 1..1);
    assert!(!f.is_opcode_in_range(1));
}

#[test]
fn a_function_ends_at_the_first_end() {
    let f = defined(
        0,
        &[
            Opcode::FunctionStart("f"),
            Opcode::Return,
            Opcode::FunctionEnd,
            Opcode::FunctionStart("g"),
            Opcode::Label("far"),
            Opcode::FunctionEnd,
        ],
    );
    assert_eq!(f.opcodes_range, 1..2);
    assert!(!f.labels.contains_key("far"));
}

#[test]
fn labels_point_into_the_whole_program() {
    let f = defined(
        20,
        &[
            Opcode::FunctionStart("f"),
            Opcode::Label("first"),
            Opcode::Return,
            Opcode::Label("second"),
            Opcode::FunctionEnd,
        ],
    );
    assert_eq!(f.labels.len(), 2);
    assert_eq!(f.labels.get("first"), Some(&21));
    assert_eq!(f.labels.get("second"), Some(&23));
    assert_eq!(f.labels.get("third"), None);
}

#[test]
fn the_later_of_two_labels_with_one_name_counts() {
    let f = defined(
        0,
        &[
            Opcode::FunctionStart("f"),
            Opcode::Label("twice"),
            Opcode::Return,
            Opcode::Label("twice"),
            Opcode::FunctionEnd,
        ],
    );
    assert_eq!(f.labels.len(), 1);
    assert_eq!(f.labels.get("twice"), Some(&3));
}

#[test]
fn variables_lie_one_behind_the_other() {
    let f = defined(
        0,
        &[
            Opcode::FunctionStart("f"),
            Opcode::I08("a"),
            Opcode::I16("b"),
            Opcode::Return,
            Opcode::I32("c"),
            Opcode::I64("d"),
            Opcode::I08("e"),
            Opcode::FunctionEnd,
        ],
    );
    assert_eq!(f.variables.len(), 5);
    assert_eq!(f.variables.get("a"), Some(&(0, 1)));
    assert_eq!(f.variables.get("b"), Some(&(1, 2)));
    assert_eq!(f.variables.get("c"), Some(&(3, 4)));
    assert_eq!(f.variables.get("d"), Some(&(7, 8)));
    assert_eq!(f.variables.get("e"), Some(&(15, 1)));
    assert_eq!(f.data_segment, vec![0u8; 16]);
}

#[test]
fn the_later_of_two_variables_with_one_name_counts() {
    let f = defined(
        0,
        &[Opcode::FunctionStart("f"), Opcode::I32("v"), Opcode::I16("v"), Opcode::FunctionEnd],
    );
    assert_eq!(f.variables.len(), 1);
    assert_eq!(f.variables.get("v"), Some(&(4, 2)));
    assert_eq!(f.data_segment.len(), 6);
}

#[test]
fn a_function_without_end_is_broken() {
    let e = broken(0, &[Opcode::FunctionStart("f"), Opcode::Return]);
    assert_eq!(e, Error::BrokenFunctionDefinition("f"));
    let e = broken(0, &[Opcode::FunctionStart("f")]);
    assert_eq!(e, Error::BrokenFunctionDefinition("f"));
}

#[test]
fn a_function_without_end_is_broken_before_a_nested_one_is_seen() {
    let e = broken(0, &[Opcode::FunctionStart("f"), Opcode::FunctionStart("inner")]);
    assert_eq!(e, Error::BrokenFunctionDefinition("f"));
}

#[test]
fn a_function_must_start_with_its_start() {
    let e = broken(0, &[Opcode::Return, Opcode::FunctionEnd]);
    assert_eq!(e, Error::BrokenFunctionDefinition("f"));
    let e = broken(0, &[Opcode::FunctionEnd]);
    assert_eq!(e, Error::BrokenFunctionDefinition("f"));
}

#[test]
fn a_nested_function_breaks_the_outer_one_wherever_it_stands() {
    let first = [
        Opcode::FunctionStart("f"),
        Opcode::FunctionStart("inner"),
        Opcode::Return,
        Opcode::Label("l"),
        Opcode::FunctionEnd,
    ];
    assert_eq!(broken(0, &first), Error::BrokenFunctionDefinition("inner"));
    let middle = [
        Opcode::FunctionStart("f"),
        Opcode::Return,
        Opcode::FunctionStart("inner"),
        Opcode::Label("l"),
        Opcode::FunctionEnd,
    ];
    assert_eq!(broken(0, &middle), Error::BrokenFunctionDefinition("inner"));
    let last = [
        Opcode::FunctionStart("f"),
        Opcode::Return,
        Opcode::Label("l"),
        Opcode::FunctionStart("inner"),
        Opcode::FunctionEnd,
    ];
    assert_eq!(broken(0, &last), Error::BrokenFunctionDefinition("inner"));
}

#[test]
fn the_first_of_two_nested_functions_is_named() {
    let program = [
        Opcode::FunctionStart("f"),
        Opcode::FunctionStart("one"),
        Opcode::FunctionStart("two"),
        Opcode::FunctionEnd,
    ];
    assert_eq!(broken(0, &program), Error::BrokenFunctionDefinition("one"));
}

#[test]
fn a_fresh_variable_holds_zero() {
    let f = defined(0, &[Opcode::FunctionStart("f"), Opcode::I32("v"), Opcode::FunctionEnd]);
    assert_eq!(value_of(&f, "v"), 0);
}

#[test]
fn a_variable_is_read_most_significant_byte_first() {
    let mut f = defined(
        0,
        &[
            Opcode::FunctionStart("f"),
            Opcode::I08("a"),
            Opcode::I16("b"),
            Opcode::I32("c"),
            Opcode::I64("d"),
            Opcode::FunctionEnd,
        ],
    );
    f.data_segment = vec![
        0xff, 0x01, 0x02, 0x80, 0x00, 0x00, 0x01, 0x01, 0x02, 0x03, 0x04, 0x05, 0x06, 0x07, 0x08,
    ];
    assert_eq!(value_of(&f, "a"), 255);
    assert_eq!(value_of(&f, "b"), 258);
    assert_eq!(value_of(&f, "c"), 0x8000_0001);
    assert_eq!(value_of(&f, "d"), 0x0102_0304_0506_0708);
}

#[test]
fn eight_bytes_are_read_in_twos_complement() {
    let mut f = defined(0, &[Opcode::FunctionStart("f"), Opcode::I64("d"), Opcode::FunctionEnd]);
    f.data_segment = vec![0xff; 8];
    assert_eq!(value_of(&f, "d"), -1);
    f.data_segment = vec![0x80, 0, 0, 0, 0, 0, 0, 0];
    assert_eq!(value_of(&f, "d"), i64::MIN);
    f.data_segment = vec![0x7f, 0xff, 0xff, 0xff, 0xff, 0xff, 0xff, 0xff];
    assert_eq!(value_of(&f, "d"), i64::MAX);
}

#[test]
fn of_more_than_eight_bytes_the_last_eight_count() {
    let mut f = defined(0, &[Opcode::FunctionStart("f"), Opcode::FunctionEnd]);
    f.data_segment = vec![0x11, 0x22, 0, 0, 0, 0, 0, 0, 0x01, 0x00];
    f.variables.insert("wide".to_string(), (0, 10));
    assert_eq!(value_of(&f, "wide"), 256);
}

#[test]
fn an_unknown_variable_does_not_exist() {
    let f = defined(0, &[Opcode::FunctionStart("f"), Opcode::I32("v"), Opcode::FunctionEnd]);
    assert!(matches!(f.get_var_value("w"), Err(Error::VariableDoesNotExist("w"))));
}

#[test]
fn a_variable_of_no_bytes_is_a_data_segment_error() {
    let mut f = defined(0, &[Opcode::FunctionStart("f"), Opcode::I32("v"), Opcode::FunctionEnd]);
    f.variables.insert("empty".to_string(), (0, 0));
    assert!(matches!(f.get_var_value("empty"), Err(Error::DataSegmentError)));
}

#[test]
fn a_variable_outside_the_data_segment_is_a_data_segment_error() {
    let mut f = defined(0, &[Opcode::FunctionStart("f"), Opcode::I32("v"), Opcode::FunctionEnd]);
    f.variables.insert("late".to_string(), (1, 4));
    assert!(matches!(f.get_var_value("late"), Err(Error::DataSegmentError)));
    f.variables.insert("far".to_string(), (usize::MAX, 1));
    assert!(matches!(f.get_var_value("far"), Err(Error::DataSegmentError)));
    f.variables.insert("huge".to_string(), (1, usize::MAX));
    assert!(matches!(f.get_var_value("huge"), Err(Error::DataSegmentError)));
    f.variables.insert("fits".to_string(), (0, 4));
    assert_eq!(value_of(&f, "fits"), 0);
}

#[test]
fn set_var_value_is_accepted_and_changes_nothing() {
    let f = defined(0, &[Opcode::FunctionStart("f"), Opcode::I32("v"), Opcode::FunctionEnd]);
    assert_eq!(f.set_var_value("v", OperandValue::IntegerValue(9)), Ok(()));
    assert_eq!(value_of(&f, "v"), 0);
    assert_eq!(f.set_var_value("w", OperandValue::MemoryAddress(1)), Ok(()));
}
