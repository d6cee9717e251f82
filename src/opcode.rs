use vstd::prelude::*;

verus! {

/// One instruction of the bytecode. Every opcode is a single byte; only
/// `Constant` is followed by an operand byte (an index into the constant pool).
#[derive(Debug, Clone, Copy, PartialEq, Eq, Structural)]
pub enum OpCode {
    Constant,
    Nil,
    True,
    False,
    Equal,
    Greater,
    Less,
    Add,
    Subtract,
    Multiply,
    Divide,
    Not,
    Modulo,
    Negate,
    Return,
}

impl OpCode {
    /// The byte that encodes this opcode.
    pub open spec fn spec_byte(self) -> u8 {
        match self {
            OpCode::Constant => 0,
            OpCode::Nil => 1,
            OpCode::True => 2,
            OpCode::False => 3,
            OpCode::Equal => 4,
            OpCode::Greater => 5,
            OpCode::Less => 6,
            OpCode::Add => 7,
            OpCode::Subtract => 8,
            OpCode::Multiply => 9,
            OpCode::Divide => 10,
            OpCode::Not => 11,
            OpCode::Modulo => 12,
            OpCode::Negate => 13,
            OpCode::Return => 14,
        }
    }

    /// The opcode a byte stands for, if any.
    pub open spec fn spec_decode(b: u8) -> Option<OpCode> {
        if b == 0 {
            Some(OpCode::Constant)
        } else if b == 1 {
            Some(OpCode::Nil)
        } else if b == 2 {
            Some(OpCode::True)
        } else if b == 3 {
            Some(OpCode::False)
        } else if b == 4 {
            Some(OpCode::Equal)
        } else if b == 5 {
            Some(OpCode::Greater)
        } else if b == 6 {
            Some(OpCode::Less)
        } else if b == 7 {
            Some(OpCode::Add)
        } else if b == 8 {
            Some(OpCode::Subtract)
        } else if b == 9 {
            Some(OpCode::Multiply)
        } else if b == 10 {
            Some(OpCode::Divide)
        } else if b == 11 {
            Some(OpCode::Not)
        } else if b == 12 {
            Some(OpCode::Modulo)
        } else if b == 13 {
            Some(OpCode::Negate)
        } else if b == 14 {
            Some(OpCode::Return)
        } else {
            None
        }
    }

    /// Number of bytes the instruction occupies, operand included.
    pub open spec fn width(self) -> nat {
        if self == OpCode::Constant {
            2
        } else {
            1
        }
    }

    pub fn as_byte(self) -> (r: u8)
        ensures
            r == self.spec_byte(),
    {
        match self {
            OpCode::Constant => 0,
            OpCode::Nil => 1,
            OpCode::True => 2,
            OpCode::False => 3,
            OpCode::Equal => 4,
            OpCode::Greater => 5,
            OpCode::Less => 6,
            OpCode::Add => 7,
            OpCode::Subtract => 8,
            OpCode::Multiply => 9,
            OpCode::Divide => 10,
            OpCode::Not => 11,
            OpCode::Modulo => 12,
            OpCode::Negate => 13,
            OpCode::Return => 14,
        }
    }

    pub fn decode(b: u8) -> (r: Option<OpCode>)
        ensures
            r == OpCode::spec_decode(b),
    {
        match b {
            0 => Some(OpCode::Constant),
            1 => Some(OpCode::Nil),
            2 => Some(OpCode::True),
            3 => Some(OpCode::False),
            4 => Some(OpCode::Equal),
            5 => Some(OpCode::Greater),
            6 => Some(OpCode::Less),
            7 => Some(OpCode::Add),
            8 => Some(OpCode::Subtract),
            9 => Some(OpCode::Multiply),
            10 => Some(OpCode::Divide),
            11 => Some(OpCode::Not),
            12 => Some(OpCode::Modulo),
            13 => Some(OpCode::Negate),
            14 => Some(OpCode::Return),
            _ => None,
        }
    }

    /// Decoding the byte of an opcode gives the opcode back.
    pub proof fn lemma_decode_byte(op: OpCode)
        ensures
            OpCode::spec_decode(op.spec_byte()) == Some(op),
    {
    }
}

} // verus!
