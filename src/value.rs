use crate::gc::{GcRef, ObjString};
use vstd::prelude::*;

verus! {

// A number is carried as the bit pattern of an IEEE-754 binary64 value:
// one sign bit, eleven exponent bits and fifty-two fraction bits.
pub const SIGN_BIT: u64 = 0x8000_0000_0000_0000;

pub const FRACTION_SPAN: u64 = 0x10_0000_0000_0000;

pub const EXPONENT_ALL_ONES: u64 = 0x7FF;

pub open spec fn exponent_field(b: u64) -> int {
    (b as int / FRACTION_SPAN as int) % 0x800
}

pub open spec fn fraction_field(b: u64) -> int {
    b as int % FRACTION_SPAN as int
}

/// The encoding is a NaN: all exponent bits set and a non-zero fraction.
pub open spec fn is_nan(b: u64) -> bool {
    exponent_field(b) == EXPONENT_ALL_ONES as int && fraction_field(b) != 0
}

pub open spec fn sign_set(b: u64) -> bool {
    b >= SIGN_BIT
}

/// Everything but the sign bit.
pub open spec fn magnitude(b: u64) -> int {
    b as int % SIGN_BIT as int
}

/// Outside NaN, binary64 encodings are ordered as signed magnitudes, with
/// both zeros mapped to the same point.
pub open spec fn order_key(b: u64) -> int {
    if sign_set(b) {
        -magnitude(b)
    } else {
        magnitude(b)
    }
}

/// IEEE-754 equality: a NaN equals nothing and the two zeros are equal.
pub open spec fn num_eq(a: u64, b: u64) -> bool {
    !is_nan(a) && !is_nan(b) && order_key(a) == order_key(b)
}

/// IEEE-754 `a < b`: false whenever either side is a NaN.
pub open spec fn num_lt(a: u64, b: u64) -> bool {
    !is_nan(a) && !is_nan(b) && order_key(a) < order_key(b)
}

/// IEEE-754 negation flips the sign bit, of a NaN too.
pub open spec fn num_neg(b: u64) -> u64 {
    if sign_set(b) {
        (b - SIGN_BIT) as u64
    } else {
        (b + SIGN_BIT) as u64
    }
}

pub fn number_is_nan(b: u64) -> (r: bool)
    ensures
        r == is_nan(b),
{
    (b / FRACTION_SPAN) % 0x800 == EXPONENT_ALL_ONES && b % FRACTION_SPAN != 0
}

fn number_key(b: u64) -> (r: i64)
    ensures
        r as int == order_key(b),
{
    let m: u64 = b % SIGN_BIT;
    if b >= SIGN_BIT {
        -(m as i64)
    } else {
        m as i64
    }
}

/// IEEE-754 equality of two numbers given by their encodings.
pub fn number_eq(a: u64, b: u64) -> (r: bool)
    ensures
        r == num_eq(a, b),
{
    !number_is_nan(a) && !number_is_nan(b) && number_key(a) == number_key(b)
}

/// IEEE-754 `a < b` of two numbers given by their encodings.
pub fn number_lt(a: u64, b: u64) -> (r: bool)
    ensures
        r == num_lt(a, b),
{
    !number_is_nan(a) && !number_is_nan(b) && number_key(a) < number_key(b)
}

/// IEEE-754 negation of a number given by its encoding.
pub fn number_neg(b: u64) -> (r: u64)
    ensures
        r == num_neg(b),
{
    if b >= SIGN_BIT {
        b - SIGN_BIT
    } else {
        b + SIGN_BIT
    }
}

/// A value of the language.
#[derive(Debug, Clone, Copy, PartialEq)]
pub enum Value {
    /// A reference to a string object in the heap.
    String(GcRef<ObjString>),
    /// A binary64 number, held as its bit pattern.
    Number(u64),
    Bool(bool),
    Nil,
}

/// What stopped the virtual machine.
#[derive(Debug, Clone, Copy, PartialEq, Eq, Structural)]
pub enum RuntimeError {
    /// An arithmetic or comparison opcode met an operand that is not a number.
    OperandsMustBeNumbers,
    /// `Negate` met an operand that is not a number.
    OperandMustBeNumber,
    /// A byte that encodes no opcode.
    UnknownOpcode(u8),
    /// A `Constant` operand past the end of the constant pool.
    ConstantOutOfRange(u8),
    /// The code ended without `Return`, or in the middle of an instruction.
    UnexpectedEnd,
    /// An opcode needed more values than the stack holds.
    StackUnderflow,
    /// A push onto a full stack.
    StackOverflow,
    /// A step was asked for while an arithmetic result was still owed.
    ResultPending,
}

impl RuntimeError {
    /// The diagnostic printed for the error.
    pub open spec fn text(self) -> Seq<char> {
        match self {
            RuntimeError::OperandsMustBeNumbers => "Operands must be numbers."@,
            RuntimeError::OperandMustBeNumber => "Operand must be a number."@,
            RuntimeError::UnknownOpcode(_) => "Unknown opcode."@,
            RuntimeError::ConstantOutOfRange(_) => "Constant index out of range."@,
            RuntimeError::UnexpectedEnd => "Unexpected end of bytecode."@,
            RuntimeError::StackUnderflow => "Stack underflow."@,
            RuntimeError::StackOverflow => "Stack overflow."@,
            RuntimeError::ResultPending => "An arithmetic result is still pending."@,
        }
    }

    pub fn message(&self) -> (r: &'static str)
        ensures
            r@ == self.text(),
    {
        match self {
            RuntimeError::OperandsMustBeNumbers => "Operands must be numbers.",
            RuntimeError::OperandMustBeNumber => "Operand must be a number.",
            RuntimeError::UnknownOpcode(_) => "Unknown opcode.",
            RuntimeError::ConstantOutOfRange(_) => "Constant index out of range.",
            RuntimeError::UnexpectedEnd => "Unexpected end of bytecode.",
            RuntimeError::StackUnderflow => "Stack underflow.",
            RuntimeError::StackOverflow => "Stack overflow.",
            RuntimeError::ResultPending => "An arithmetic result is still pending.",
        }
    }
}

impl Value {
    /// `nil` and `false` are falsy; every other value is truthy.
    pub open spec fn truthy(self) -> bool {
        match self {
            Value::Bool(b) => b,
            Value::Nil => false,
            _ => true,
        }
    }

    /// Equality of the language: same variant and same payload, numbers
    /// compared as IEEE-754 values.
    pub open spec fn spec_equal(self, other: Value) -> bool {
        match (self, other) {
            (Value::Number(a), Value::Number(b)) => num_eq(a, b),
            (Value::Bool(a), Value::Bool(b)) => a == b,
            (Value::Nil, Value::Nil) => true,
            (Value::String(a), Value::String(b)) => a.spec_index() == b.spec_index(),
            _ => false,
        }
    }

    /// `self > other` on numbers; `false` when either side is not a number.
    pub open spec fn spec_greater(self, other: Value) -> bool {
        match (self, other) {
            (Value::Number(a), Value::Number(b)) => num_lt(b, a),
            _ => false,
        }
    }

    /// `self < other` on numbers; `false` when either side is not a number.
    pub open spec fn spec_less(self, other: Value) -> bool {
        match (self, other) {
            (Value::Number(a), Value::Number(b)) => num_lt(a, b),
            _ => false,
        }
    }

    pub fn is_truthy(&self) -> (r: bool)
        ensures
            r == self.truthy(),
    {
        match self {
            Value::Bool(b) => *b,
            Value::Nil => false,
            _ => true,
        }
    }

    /// Logical negation: the opposite of the operand's truthiness.
    pub fn not(&self) -> (r: Value)
        ensures
            r == Value::Bool(!self.truthy()),
    {
        Value::Bool(!self.is_truthy())
    }

    /// Arithmetic negation of a number.
    pub fn negate(&self) -> (r: Result<Value, RuntimeError>)
        ensures
            match *self {
                Value::Number(n) => r == Ok::<Value, RuntimeError>(Value::Number(num_neg(n))),
                _ => r == Err::<Value, RuntimeError>(RuntimeError::OperandMustBeNumber),
            },
    {
        match self {
            Value::Number(n) => Ok(Value::Number(number_neg(*n))),
            _ => Err(RuntimeError::OperandMustBeNumber),
        }
    }

    /// The two encodings, when both values are numbers.
    pub fn numbers(&self, other: &Value) -> (r: Option<(u64, u64)>)
        ensures
            match (*self, *other) {
                (Value::Number(a), Value::Number(b)) => r == Some((a, b)),
                _ => r is None,
            },
    {
        match (self, other) {
            (Value::Number(a), Value::Number(b)) => Some((*a, *b)),
            _ => None,
        }
    }

    pub fn equal(&self, other: &Value) -> (r: Value)
        ensures
            r == Value::Bool(self.spec_equal(*other)),
    {
        match (self, other) {
            (Value::Number(a), Value::Number(b)) => Value::Bool(number_eq(*a, *b)),
            (Value::Bool(a), Value::Bool(b)) => Value::Bool(*a == *b),
            (Value::Nil, Value::Nil) => Value::Bool(true),
            (Value::String(a), Value::String(b)) => Value::Bool(a.index() == b.index()),
            _ => Value::Bool(false),
        }
    }

    pub fn not_equal(&self, other: &Value) -> (r: Value)
        ensures
            r == Value::Bool(!self.spec_equal(*other)),
    {
        match self.equal(other) {
            Value::Bool(b) => Value::Bool(!b),
            _ => Value::Bool(false),
        }
    }

    pub fn greater(&self, other: &Value) -> (r: Value)
        ensures
            r == Value::Bool(self.spec_greater(*other)),
    {
        match (self, other) {
            (Value::Number(a), Value::Number(b)) => Value::Bool(number_lt(*b, *a)),
            _ => Value::Bool(false),
        }
    }

    pub fn less(&self, other: &Value) -> (r: Value)
        ensures
            r == Value::Bool(self.spec_less(*other)),
    {
        match (self, other) {
            (Value::Number(a), Value::Number(b)) => Value::Bool(number_lt(*a, *b)),
            _ => Value::Bool(false),
        }
    }
}

} // verus!
