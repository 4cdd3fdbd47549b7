//! Functions: named stretches of a program, each with labels and variables of its own.
use std::ops::Range;
use vstd::prelude::*;
use vstd::hash_map::StringHashMap;
use vstd::arithmetic::div_mod::lemma_fundamental_div_mod;
use vstd::arithmetic::div_mod::lemma_mod_multiples_vanish;
use crate::error::Error;
use crate::operand::OperandValue;

verus! {

/// Function is a next abstraction after an Opcode: a stretch of the program
/// with a name. Jumps are possible only inside a function, and its labels and
/// variables are its own.
pub struct Function {
    pub name: &'static str,
    /// From the opcode after the function's start marker up to, and without,
    /// its end marker.
    pub opcodes_range: Range<usize>,
    pub stackframe_size: usize,
    /// The labels defined inside: name -> place in the whole program.
    pub labels: StringHashMap<usize>,
    /// The variables defined inside: name -> (offset, size), both in bytes
    /// of the data segment.
    pub variables: StringHashMap<(usize, usize)>,
    pub data_segment: Vec<u8>,
}

/// What a [`Function`] holds, as mathematical values.
pub ghost struct FunctionView {
    pub name: &'static str,
    pub opcodes_range: Range<usize>,
    pub stackframe_size: usize,
    pub labels: Map<Seq<char>, usize>,
    pub variables: Map<Seq<char>, (usize, usize)>,
    pub data_segment: Seq<u8>,
}

impl View for Function {
    type V = FunctionView;

    open spec fn view(&self) -> FunctionView {
        FunctionView {
            name: self.name,
            opcodes_range: self.opcodes_range,
            stackframe_size: self.stackframe_size,
            labels: self.labels@,
            variables: self.variables@,
            data_segment: self.data_segment@,
        }
    }
}

/// The number that the bytes spell, most significant byte first.
pub open spec fn big_endian(bytes: Seq<u8>) -> int
    decreases bytes.len(),
{
    if bytes.len() == 0 {
        0
    } else {
        big_endian(bytes.drop_last()) * 256 + bytes.last()
    }
}

/// The low 64 bits of a number, read as a signed integer in two's complement.
pub open spec fn signed64(n: int) -> i64 {
    let low = n % 0x1_0000_0000_0000_0000;
    if low >= 0x8000_0000_0000_0000 {
        (low - 0x1_0000_0000_0000_0000) as i64
    } else {
        low as i64
    }
}

impl FunctionView {
    /// Whether the opcode at `opcode_offset` belongs to the function. The end
    /// marker does not.
    pub open spec fn contains(self, opcode_offset: usize) -> bool {
        self.opcodes_range.start <= opcode_offset < self.opcodes_range.end
    }

    /// Whether the function is in order, as every function is that
    /// `define_function` makes: its labels lie inside it, and each of its
    /// variables takes 1, 2, 4 or 8 bytes inside its data segment.
    pub open spec fn is_sound(self) -> bool {
        &&& self.opcodes_range.start <= self.opcodes_range.end
        &&& forall|name: Seq<char>| #[trigger]
            self.labels.contains_key(name) ==> self.contains(self.labels[name])
        &&& forall|name: Seq<char>| #[trigger]
            self.variables.contains_key(name) ==> {
                let (offset, size) = self.variables[name];
                &&& size == 1 || size == 2 || size == 4 || size == 8
                &&& offset + size <= self.data_segment.len()
            }
    }

    /// The value of a variable: the bytes that it takes in the data segment,
    /// most significant first. A variable of no bytes, or with bytes outside
    /// the data segment, has none.
    pub open spec fn variable_value(self, variable_name: &'static str) -> Result<
        OperandValue,
        Error,
    > {
        if !self.variables.contains_key(variable_name@) {
            Err(Error::VariableDoesNotExist(variable_name))
        } else {
            let (offset, size) = self.variables[variable_name@];
            if size == 0 || offset + size > self.data_segment.len() {
                Err(Error::DataSegmentError)
            } else {
                Ok(
                    OperandValue::IntegerValue(
                        signed64(
                            big_endian(self.data_segment.subrange(offset as int, offset + size)),
                        ),
                    ),
                )
            }
        }
    }
}

/// Every variable of a function that is in order has a value.
pub proof fn lemma_sound_variable(function: FunctionView, variable_name: &'static str)
    requires
        function.is_sound(),
        function.variables.contains_key(variable_name@),
    ensures
        function.variable_value(variable_name) is Ok,
{
}

/// The number above all that `count` bytes can spell: 256 to the power of
/// `count`.
pub open spec fn limit(count: nat) -> int
    decreases count,
{
    if count == 0 {
        1
    } else {
        256 * limit((count - 1) as nat)
    }
}

/// Bytes spell a number that is not negative and lies below their limit.
pub proof fn lemma_big_endian_bounds(bytes: Seq<u8>)
    ensures
        0 <= big_endian(bytes) < limit(bytes.len()),
    decreases bytes.len(),
{
    if bytes.len() > 0 {
        lemma_big_endian_bounds(bytes.drop_last());
    }
}

/// Up to seven bytes are read as the number they spell: nothing of it is
/// lost, and it is not negative.
pub proof fn lemma_short_value(bytes: Seq<u8>)
    requires
        bytes.len() <= 7,
    ensures
        signed64(big_endian(bytes)) == big_endian(bytes),
        0 <= big_endian(bytes) < 0x100_0000_0000_0000,
{
    lemma_big_endian_bounds(bytes);
    reveal_with_fuel(limit, 8);
    assert(limit(bytes.len()) <= limit(7)) by {
        assert(limit(0) <= limit(1) <= limit(2) <= limit(3) <= limit(4) <= limit(5) <= limit(6)
            <= limit(7));
    }
}

proof fn lemma_shift_bits(r: i64, b: u8)
    by (bit_vector)
    ensures
        i64::MIN <= (r << 8u32) + b <= i64::MAX,
        ((r << 8u32) + b - (r * 256 + b)) % 0x1_0000_0000_0000_0000 == 0,
{
}

/// A 64-bit integer that differs from `n` by a multiple of 2^64 is `signed64(n)`.
proof fn lemma_signed64_unique(n: int, x: i64)
    requires
        (x - n) % 0x1_0000_0000_0000_0000 == 0,
    ensures
        signed64(n) == x,
{
    let m = 0x1_0000_0000_0000_0000;
    lemma_fundamental_div_mod(x - n, m);
    let k = (x - n) / m;
    assert(n == m * (-k) + x) by (nonlinear_arith)
        requires
            x - n == m * k,
    ;
    lemma_mod_multiples_vanish(-k, x as int, m);
    if x < 0 {
        lemma_mod_multiples_vanish(-1, x + m, m);
    }
}

/// Taking one more byte in: shifting the accumulator by eight bits and adding
/// the byte neither overflows nor loses track of the number read so far.
proof fn lemma_shift_in(v: int, b: u8)
    ensures
        i64::MIN <= (signed64(v) << 8u32) + b <= i64::MAX,
        signed64(v * 256 + b) == (signed64(v) << 8u32) + b,
{
    let m = 0x1_0000_0000_0000_0000;
    let r = signed64(v);
    lemma_shift_bits(r, b);
    let x = (r << 8u32) + b;
    lemma_fundamental_div_mod(v, m);
    let q = v / m;
    let c: int = if v % m >= 0x8000_0000_0000_0000 { 1 } else { 0 };
    lemma_fundamental_div_mod(x - (r * 256 + b), m);
    let k = (x - (r * 256 + b)) / m;
    assert(x - (v * 256 + b) == m * (k - 256 * q - 256 * c)) by (nonlinear_arith)
        requires
            x - (r * 256 + b) == m * k,
            r == v - m * q - m * c,
    ;
    lemma_mod_multiples_vanish(k - 256 * q - 256 * c, 0, m);
    lemma_signed64_unique(v * 256 + b, x as i64);
}

impl Function {
    /// Whether the opcode at `opcode_offset` belongs to the function.
    pub fn is_opcode_in_range(&self, opcode_offset: usize) -> (inside: bool)
        ensures
            inside == self@.contains(opcode_offset),
    {
        // strict '>' because the end marker is no opcode to run.
        self.opcodes_range.start <= opcode_offset && self.opcodes_range.end > opcode_offset
    }

    /// Reads a variable of the function from its data segment.
    pub fn get_var_value(&self, variable_name: &'static str) -> (result: Result<
        OperandValue,
        Error,
    >)
        ensures
            result == self@.variable_value(variable_name),
    {
        let (offset, size): (usize, usize) = match self.variables.get(variable_name) {
            Some(entry) => *entry,
            None => {
                return Err(Error::VariableDoesNotExist(variable_name));
            },
        };
        let length: usize = self.data_segment.len();
        if size == 0 || size > length || offset > length - size {
            return Err(Error::DataSegmentError);
        }
        let mut result: i64 = 0;
        let mut i: usize = 0;
        while i < size
            invariant
                i <= size,
                offset + size <= self.data_segment.len(),
                result == signed64(
                    big_endian(self.data_segment@.subrange(offset as int, offset + i)),
                ),
            decreases size - i,
        {
            let byte: u8 = self.data_segment[offset + i];
            proof {
                let before = self.data_segment@.subrange(offset as int, offset + i);
                let after = self.data_segment@.subrange(offset as int, offset + i + 1);
                assert(after.drop_last() =~= before);
                lemma_shift_in(big_endian(before), byte);
            }
            result = (result << 8) + (byte as i64);
            i += 1;
        }
        Ok(OperandValue::IntegerValue(result))
    }

    /// Variables cannot be written to yet: the call is accepted and changes nothing.
    pub fn set_var_value(&self, variable_name: &'static str, value: OperandValue) -> (result:
        Result<(), Error>)
        ensures
            result == Ok::<(), Error>(()),
    {
        Ok(())
    }
}

} // verus!
