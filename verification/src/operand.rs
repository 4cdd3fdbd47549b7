//! Operands: where a value comes from or goes to, and the value itself.
use vstd::prelude::*;
use crate::error::Error;

verus! {

/// Operand type: an addressing mode. It says where a value is, not what it is.
#[derive(Debug, Clone, Copy)]
pub enum OperandType {
    /// General purpose register of given number.
    IntegerRegister(usize),
    /// Address in the memory to read data from. Reserved.
    Memory(usize),
    /// A constant.
    IntegerConstant(i64),
}

/// Operand value: what an operand resolved to. It says what a value is, and
/// of which kind.
#[derive(Debug, Clone, Copy)]
pub enum OperandValue {
    /// An integer, as registers and constants hold it.
    IntegerValue(i64),
    /// An address in the memory. Reserved.
    MemoryAddress(usize),
}

/// The sum of two 64-bit integers, wrapped around into the 64-bit range.
pub open spec fn wrapping_sum(a: i64, b: i64) -> i64 {
    if a + b > i64::MAX {
        (a + b - 0x1_0000_0000_0000_0000) as i64
    } else if a + b < i64::MIN {
        (a + b + 0x1_0000_0000_0000_0000) as i64
    } else {
        (a + b) as i64
    }
}

/// The difference of two 64-bit integers, wrapped around into the 64-bit range.
pub open spec fn wrapping_difference(a: i64, b: i64) -> i64 {
    if a - b > i64::MAX {
        (a - b - 0x1_0000_0000_0000_0000) as i64
    } else if a - b < i64::MIN {
        (a - b + 0x1_0000_0000_0000_0000) as i64
    } else {
        (a - b) as i64
    }
}

impl OperandValue {
    /// What `unwrap_integer` returns.
    pub open spec fn integer(self) -> Result<i64, Error> {
        match self {
            OperandValue::IntegerValue(val) => Ok(val),
            _ => Err(Error::UnsupportedOperand),
        }
    }

    /// What `add` returns: the wrapped sum of two integers. An integer and
    /// another kind do not go together, and no other kind can be added to.
    pub open spec fn sum(self, other: OperandValue) -> Result<OperandValue, Error> {
        match self {
            OperandValue::IntegerValue(val) => match other.integer() {
                Ok(o) => Ok(OperandValue::IntegerValue(wrapping_sum(val, o))),
                Err(e) => Err(e),
            },
            _ => Err(Error::NotImplemented),
        }
    }

    /// What `sub` returns: the wrapped difference of two integers.
    pub open spec fn difference(self, other: OperandValue) -> Result<OperandValue, Error> {
        match self {
            OperandValue::IntegerValue(val) => match other.integer() {
                Ok(o) => Ok(OperandValue::IntegerValue(wrapping_difference(val, o))),
                Err(e) => Err(e),
            },
            _ => Err(Error::NotImplemented),
        }
    }

    /// The integer that the value holds, if it holds one.
    pub fn unwrap_integer(self) -> (result: Result<i64, Error>)
        ensures
            result == self.integer(),
    {
        let result = match self {
            OperandValue::IntegerValue(val) => Ok(val),
            _ => Err(Error::UnsupportedOperand),
        };
        result
    }
}

impl core::ops::Add for OperandValue {
    type Output = Result<OperandValue, Error>;

    /// Adds two values of one kind. What comes back is said by `add_spec`.
    fn add(self, other: OperandValue) -> (result: Self::Output) {
        match self {
            OperandValue::IntegerValue(val) => {
                Ok(OperandValue::IntegerValue(val.wrapping_add(other.unwrap_integer()?)))
            },
            _ => Err(Error::NotImplemented),
        }
    }
}

/// What `+` means for two values: it can always be applied, and gives their `sum`.
impl vstd::std_specs::ops::AddSpecImpl for OperandValue {
    open spec fn obeys_add_spec() -> bool {
        true
    }

    open spec fn add_req(self, other: OperandValue) -> bool {
        true
    }

    open spec fn add_spec(self, other: OperandValue) -> Self::Output {
        self.sum(other)
    }
}

impl core::ops::Sub for OperandValue {
    type Output = Result<OperandValue, Error>;

    /// Subtracts a value from another of the same kind. What comes back is
    /// said by `sub_spec`.
    fn sub(self, other: OperandValue) -> (result: Self::Output) {
        match self {
            OperandValue::IntegerValue(val) => {
                Ok(OperandValue::IntegerValue(val.wrapping_sub(other.unwrap_integer()?)))
            },
            _ => Err(Error::NotImplemented),
        }
    }
}

/// What `-` means for two values: it can always be applied, and gives their
/// `difference`.
impl vstd::std_specs::ops::SubSpecImpl for OperandValue {
    open spec fn obeys_sub_spec() -> bool {
        true
    }

    open spec fn sub_req(self, other: OperandValue) -> bool {
        true
    }

    open spec fn sub_spec(self, other: OperandValue) -> Self::Output {
        self.difference(other)
    }
}

} // verus!
