use parallax_vm::Error;
use parallax_vm::OperandValue;

fn integer(result: Result<OperandValue, Error>) -> i64 {
    match result {
        Ok(OperandValue::IntegerValue(value)) => value,
        other => panic!("no integer: {:?}", other),
    }
}

#[test]
fn unwrap_integer_gives_the_integer() {
    assert_eq!(OperandValue::IntegerValue(-17).unwrap_integer(), Ok(-17));
    assert_eq!(OperandValue::IntegerValue(i64::MIN).unwrap_integer(), Ok(i64::MIN));
}

#[test]
fn unwrap_integer_refuses_an_address() {
    assert_eq!(OperandValue::MemoryAddress(4).unwrap_integer(), Err(Error::UnsupportedOperand));
}

#[test]
fn add_sums_two_integers() {
    assert_eq!(integer(OperandValue::IntegerValue(3) + OperandValue::IntegerValue(5)), 8);
    assert_eq!(integer(OperandValue::IntegerValue(8) + OperandValue::IntegerValue(-16)), -8);
}

#[test]
fn add_wraps_around() {
    assert_eq!(integer(OperandValue::IntegerValue(i64::MAX) + OperandValue::IntegerValue(1)), i64::MIN);
    assert_eq!(integer(OperandValue::IntegerValue(i64::MIN) + OperandValue::IntegerValue(-1)), i64::MAX);
    assert_eq!(integer(OperandValue::IntegerValue(i64::MIN) + OperandValue::IntegerValue(i64::MIN)), 0);
}

#[test]
fn sub_subtracts_two_integers() {
    assert_eq!(integer(OperandValue::IntegerValue(8) - OperandValue::IntegerValue(6)), 2);
    assert_eq!(integer(OperandValue::IntegerValue(8) - OperandValue::IntegerValue(-16)), 24);
}

#[test]
fn sub_wraps_around() {
    assert_eq!(integer(OperandValue::IntegerValue(i64::MIN) - OperandValue::IntegerValue(1)), i64::MAX);
    assert_eq!(integer(OperandValue::IntegerValue(i64::MAX) - OperandValue::IntegerValue(-1)), i64::MIN);
    assert_eq!(integer(OperandValue::IntegerValue(0) - OperandValue::IntegerValue(i64::MIN)), i64::MIN);
}

#[test]
fn an_integer_and_an_address_do_not_go_together() {
    let sum = OperandValue::IntegerValue(1) + OperandValue::MemoryAddress(2);
    assert!(matches!(sum, Err(Error::UnsupportedOperand)));
    let difference = OperandValue::IntegerValue(1) - OperandValue::MemoryAddress(2);
    assert!(matches!(difference, Err(Error::UnsupportedOperand)));
}

#[test]
fn an_address_cannot_be_computed_with() {
    let sum = OperandValue::MemoryAddress(2) + OperandValue::IntegerValue(1);
    assert!(matches!(sum, Err(Error::NotImplemented)));
    let difference = OperandValue::MemoryAddress(2) - OperandValue::MemoryAddress(1);
    assert!(matches!(difference, Err(Error::NotImplemented)));
}
