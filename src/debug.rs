use crate::chunk::{decode, Chunk};
use crate::opcode::OpCode;
use crate::value::Value;
use vstd::prelude::*;
use vstd::string::StrSliceExecFns;

verus! {

/// One instruction of a listing.
#[derive(Debug, Clone, Copy, PartialEq)]
pub struct InstructionLine {
    pub offset: usize,
    /// The source line, or `None` when the byte before has the same one.
    pub line: Option<usize>,
    pub byte: u8,
    /// The opcode, or `None` for a byte that encodes none.
    pub op: Option<OpCode>,
    /// For `Constant`: the operand byte, when the code holds it.
    pub operand: Option<u8>,
    /// For `Constant`: the constant named, when the pool holds it.
    pub constant: Option<Value>,
}

/// The name an opcode is listed under.
pub open spec fn mnemonic_of(op: OpCode) -> Seq<char> {
    match op {
        OpCode::Constant => "CONSTANT"@,
        OpCode::Nil => "NIL"@,
        OpCode::True => "TRUE"@,
        OpCode::False => "FALSE"@,
        OpCode::Equal => "EQUAL"@,
        OpCode::Greater => "GREATER"@,
        OpCode::Less => "LESS"@,
        OpCode::Add => "ADD"@,
        OpCode::Subtract => "SUBTRACT"@,
        OpCode::Multiply => "MULTIPLY"@,
        OpCode::Divide => "DIVIDE"@,
        OpCode::Not => "NOT"@,
        OpCode::Modulo => "MODULO"@,
        OpCode::Negate => "NEGATE"@,
        OpCode::Return => "RETURN"@,
    }
}

/// The opcode a listed name stands for.
pub open spec fn opcode_named(text: Seq<char>) -> Option<OpCode> {
    if text == "CONSTANT"@ {
        Some(OpCode::Constant)
    } else if text == "NIL"@ {
        Some(OpCode::Nil)
    } else if text == "TRUE"@ {
        Some(OpCode::True)
    } else if text == "FALSE"@ {
        Some(OpCode::False)
    } else if text == "EQUAL"@ {
        Some(OpCode::Equal)
    } else if text == "GREATER"@ {
        Some(OpCode::Greater)
    } else if text == "LESS"@ {
        Some(OpCode::Less)
    } else if text == "ADD"@ {
        Some(OpCode::Add)
    } else if text == "SUBTRACT"@ {
        Some(OpCode::Subtract)
    } else if text == "MULTIPLY"@ {
        Some(OpCode::Multiply)
    } else if text == "DIVIDE"@ {
        Some(OpCode::Divide)
    } else if text == "NOT"@ {
        Some(OpCode::Not)
    } else if text == "MODULO"@ {
        Some(OpCode::Modulo)
    } else if text == "NEGATE"@ {
        Some(OpCode::Negate)
    } else if text == "RETURN"@ {
        Some(OpCode::Return)
    } else {
        None
    }
}

/// How many bytes the listing moves past at the start of `code`: an unknown
/// byte counts as one, a `Constant` cut short by the end as what is left.
pub open spec fn listed_width(code: Seq<u8>) -> int {
    match OpCode::spec_decode(code[0]) {
        Some(op) => if op.width() <= code.len() {
            op.width() as int
        } else {
            code.len() as int
        },
        None => 1,
    }
}

/// The opcodes a listing of `code` shows, one entry per instruction.
pub open spec fn listed_ops(code: Seq<u8>) -> Seq<Option<OpCode>>
    decreases code.len(),
{
    if code.len() == 0 {
        Seq::empty()
    } else {
        seq![OpCode::spec_decode(code[0])] + listed_ops(code.subrange(listed_width(code), code.len() as int))
    }
}

pub fn mnemonic(op: OpCode) -> (r: &'static str)
    ensures
        r@ == mnemonic_of(op),
{
    match op {
        OpCode::Constant => "CONSTANT",
        OpCode::Nil => "NIL",
        OpCode::True => "TRUE",
        OpCode::False => "FALSE",
        OpCode::Equal => "EQUAL",
        OpCode::Greater => "GREATER",
        OpCode::Less => "LESS",
        OpCode::Add => "ADD",
        OpCode::Subtract => "SUBTRACT",
        OpCode::Multiply => "MULTIPLY",
        OpCode::Divide => "DIVIDE",
        OpCode::Not => "NOT",
        OpCode::Modulo => "MODULO",
        OpCode::Negate => "NEGATE",
        OpCode::Return => "RETURN",
    }
}

/// Whether two texts hold the same characters.
pub fn same_text(a: &str, b: &str) -> (r: bool)
    ensures
        r == (a@ == b@),
{
    let n = a.unicode_len();
    if n != b.unicode_len() {
        return false;
    }
    let mut i: usize = 0;
    while i < n
        invariant
            n == a@.len(),
            n == b@.len(),
            i <= n,
            forall|k: int| 0 <= k < i ==> a@[k] == b@[k],
        decreases n - i,
    {
        if a.get_char(i) != b.get_char(i) {
            return false;
        }
        i = i + 1;
    }
    assert(a@ =~= b@);
    true
}

/// Reads a listed name back into its opcode.
pub fn parse_mnemonic(text: &str) -> (r: Option<OpCode>)
    ensures
        r == opcode_named(text@),
{
    if same_text(text, "CONSTANT") {
        Some(OpCode::Constant)
    } else if same_text(text, "NIL") {
        Some(OpCode::Nil)
    } else if same_text(text, "TRUE") {
        Some(OpCode::True)
    } else if same_text(text, "FALSE") {
        Some(OpCode::False)
    } else if same_text(text, "EQUAL") {
        Some(OpCode::Equal)
    } else if same_text(text, "GREATER") {
        Some(OpCode::Greater)
    } else if same_text(text, "LESS") {
        Some(OpCode::Less)
    } else if same_text(text, "ADD") {
        Some(OpCode::Add)
    } else if same_text(text, "SUBTRACT") {
        Some(OpCode::Subtract)
    } else if same_text(text, "MULTIPLY") {
        Some(OpCode::Multiply)
    } else if same_text(text, "DIVIDE") {
        Some(OpCode::Divide)
    } else if same_text(text, "NOT") {
        Some(OpCode::Not)
    } else if same_text(text, "MODULO") {
        Some(OpCode::Modulo)
    } else if same_text(text, "NEGATE") {
        Some(OpCode::Negate)
    } else if same_text(text, "RETURN") {
        Some(OpCode::Return)
    } else {
        None
    }
}

/// Every name is read back as the opcode it names.
pub proof fn lemma_mnemonic_round_trip(op: OpCode)
    ensures
        opcode_named(mnemonic_of(op)) == Some(op),
{
    reveal_strlit("CONSTANT");
    reveal_strlit("NIL");
    reveal_strlit("TRUE");
    reveal_strlit("FALSE");
    reveal_strlit("EQUAL");
    reveal_strlit("GREATER");
    reveal_strlit("LESS");
    reveal_strlit("ADD");
    reveal_strlit("SUBTRACT");
    reveal_strlit("MULTIPLY");
    reveal_strlit("DIVIDE");
    reveal_strlit("NOT");
    reveal_strlit("MODULO");
    reveal_strlit("NEGATE");
    reveal_strlit("RETURN");
    match op {
        OpCode::Constant => {
            assert(mnemonic_of(op) =~= "CONSTANT"@);
        },
        OpCode::Nil => {
            assert(mnemonic_of(op) =~= "NIL"@);
        },
        OpCode::True => {
            assert(mnemonic_of(op) =~= "TRUE"@);
        },
        OpCode::False => {
            assert(mnemonic_of(op) =~= "FALSE"@);
        },
        OpCode::Equal => {
            assert(mnemonic_of(op) =~= "EQUAL"@);
            assert("EQUAL"@[0] != "FALSE"@[0]);
        },
        OpCode::Greater => {
            assert(mnemonic_of(op) =~= "GREATER"@);
        },
        OpCode::Less => {
            assert(mnemonic_of(op) =~= "LESS"@);
            assert("LESS"@[0] != "TRUE"@[0]);
        },
        OpCode::Add => {
            assert(mnemonic_of(op) =~= "ADD"@);
            assert("ADD"@[0] != "NIL"@[0]);
        },
        OpCode::Subtract => {
            assert(mnemonic_of(op) =~= "SUBTRACT"@);
            assert("SUBTRACT"@[0] != "CONSTANT"@[0]);
        },
        OpCode::Multiply => {
            assert(mnemonic_of(op) =~= "MULTIPLY"@);
            assert("MULTIPLY"@[0] != "CONSTANT"@[0]);
            assert("MULTIPLY"@[0] != "SUBTRACT"@[0]);
        },
        OpCode::Divide => {
            assert(mnemonic_of(op) =~= "DIVIDE"@);
        },
        OpCode::Not => {
            assert(mnemonic_of(op) =~= "NOT"@);
            assert("NOT"@[1] != "NIL"@[1]);
            assert("NOT"@[0] != "ADD"@[0]);
        },
        OpCode::Modulo => {
            assert(mnemonic_of(op) =~= "MODULO"@);
            assert("MODULO"@[0] != "DIVIDE"@[0]);
        },
        OpCode::Negate => {
            assert(mnemonic_of(op) =~= "NEGATE"@);
            assert("NEGATE"@[0] != "DIVIDE"@[0]);
            assert("NEGATE"@[0] != "MODULO"@[0]);
        },
        OpCode::Return => {
            assert(mnemonic_of(op) =~= "RETURN"@);
            assert("RETURN"@[0] != "DIVIDE"@[0]);
            assert("RETURN"@[0] != "MODULO"@[0]);
            assert("RETURN"@[0] != "NEGATE"@[0]);
        },
    }
}

/// The listing of the instruction at `offset`.
pub open spec fn line_at(code: Seq<u8>, lines: Seq<usize>, consts: Seq<Value>, offset: int) -> InstructionLine {
    let op = OpCode::spec_decode(code[offset]);
    let operand = if op == Some(OpCode::Constant) && offset + 1 < code.len() {
        Some(code[offset + 1])
    } else {
        None
    };
    InstructionLine {
        offset: offset as usize,
        line: if offset > 0 && lines[offset] == lines[offset - 1] {
            None
        } else {
            Some(lines[offset])
        },
        byte: code[offset],
        op,
        operand,
        constant: match operand {
            Some(i) => if (i as int) < consts.len() {
                Some(consts[i as int])
            } else {
                None
            },
            None => None,
        },
    }
}

/// Where the instruction after the one at `offset` starts.
pub open spec fn next_offset(code: Seq<u8>, offset: int) -> int {
    offset + listed_width(code.subrange(offset, code.len() as int))
}

/// Lists the instruction at `offset` and returns it with the offset of the next.
pub fn disassemble_instruction(chunk: &Chunk, offset: usize) -> (r: (InstructionLine, usize))
    requires
        chunk.lines_match(),
        offset < chunk.code@.len(),
    ensures
        r.0 == line_at(chunk.code@, chunk.lines@, chunk.constants@, offset as int),
        r.1 == offset + listed_width(chunk.code@.subrange(offset as int, chunk.code@.len() as int)),
{
    let n = chunk.code.len();
    let byte = chunk.code[offset];
    let line = if offset > 0 && chunk.lines[offset] == chunk.lines[offset - 1] {
        None
    } else {
        Some(chunk.lines[offset])
    };
    let op = OpCode::decode(byte);
    let ghost rest = chunk.code@.subrange(offset as int, n as int);
    assert(rest[0] == byte);
    match op {
        Some(OpCode::Constant) => {
            if offset + 1 < n {
                let index = chunk.code[offset + 1];
                let constant = if (index as usize) < chunk.constants.len() {
                    Some(chunk.get_const(index as usize))
                } else {
                    None
                };
                (
                    InstructionLine { offset, line, byte, op, operand: Some(index), constant },
                    offset + 2,
                )
            } else {
                (
                    InstructionLine { offset, line, byte, op, operand: None, constant: None },
                    n,
                )
            }
        },
        _ => (InstructionLine { offset, line, byte, op, operand: None, constant: None }, offset + 1),
    }
}

/// Lists every instruction of a chunk, in order.
pub fn disassemble_chunk(chunk: &Chunk) -> (r: Vec<InstructionLine>)
    requires
        chunk.lines_match(),
    ensures
        r@.map_values(|l: InstructionLine| l.op) == listed_ops(chunk.code@),
        forall|i: int|
            0 <= i < r@.len() ==> #[trigger] r@[i] == line_at(
                chunk.code@,
                chunk.lines@,
                chunk.constants@,
                r@[i].offset as int,
            ),
        r@.len() > 0 ==> r@[0].offset == 0,
        forall|i: int|
            0 <= i < r@.len() - 1 ==> #[trigger] r@[i + 1].offset == next_offset(
                chunk.code@,
                r@[i].offset as int,
            ),
{
    let ghost code = chunk.code@;
    let n = chunk.code.len();
    let mut lines: Vec<InstructionLine> = Vec::new();
    let mut offset: usize = 0;
    assert(code.subrange(0, n as int) =~= code);
    assert(lines@.map_values(|l: InstructionLine| l.op) =~= Seq::<Option<OpCode>>::empty());
    assert(Seq::<Option<OpCode>>::empty() + listed_ops(code) =~= listed_ops(code));
    while offset < n
        invariant
            chunk.lines_match(),
            code == chunk.code@,
            n == code.len(),
            offset <= n,
            lines@.map_values(|l: InstructionLine| l.op) + listed_ops(
                code.subrange(offset as int, n as int),
            ) == listed_ops(code),
            forall|i: int|
                0 <= i < lines@.len() ==> #[trigger] lines@[i] == line_at(
                    code,
                    chunk.lines@,
                    chunk.constants@,
                    lines@[i].offset as int,
                ),
            lines@.len() > 0 ==> lines@[0].offset == 0,
            lines@.len() == 0 ==> offset == 0,
            lines@.len() > 0 ==> offset == next_offset(code, lines@.last().offset as int),
            forall|i: int|
                0 <= i < lines@.len() - 1 ==> #[trigger] lines@[i + 1].offset == next_offset(
                    code,
                    lines@[i].offset as int,
                ),
        decreases n - offset,
    {
        let (line, next) = disassemble_instruction(chunk, offset);
        let ghost rest = code.subrange(offset as int, n as int);
        let ghost before = lines@;
        assert(rest.subrange(listed_width(rest), rest.len() as int) =~= code.subrange(
            next as int,
            n as int,
        ));
        lines.push(line);
        assert(lines@.last() == line);
        assert forall|i: int| 0 <= i < lines@.len() - 1 implies #[trigger] lines@[i + 1].offset
            == next_offset(code, lines@[i].offset as int) by {
            if i < before.len() - 1 {
                assert(lines@[i + 1] == before[i + 1]);
            }
            assert(lines@[i] == before[i]);
        }
        assert(lines@.map_values(|l: InstructionLine| l.op) =~= before.map_values(
            |l: InstructionLine| l.op,
        ).push(line.op));
        assert(lines@.map_values(|l: InstructionLine| l.op) + listed_ops(
            code.subrange(next as int, n as int),
        ) =~= before.map_values(|l: InstructionLine| l.op) + listed_ops(rest));
        offset = next;
    }
    assert(code.subrange(n as int, n as int) =~= Seq::<u8>::empty());
    assert(lines@.map_values(|l: InstructionLine| l.op) + Seq::<Option<OpCode>>::empty()
        =~= lines@.map_values(|l: InstructionLine| l.op));
    lines
}

/// A listing of decodable code has one entry per instruction, each showing
/// the instruction's opcode, and reading its names back gives the same
/// opcodes: the listing and the code hold the same number of instructions.
#[verifier::spinoff_prover]
pub proof fn lemma_listing_round_trip(code: Seq<u8>)
    requires
        decode(code) is Some,
    ensures
        listed_ops(code).len() == decode(code)->Some_0.len(),
        forall|i: int|
            0 <= i < listed_ops(code).len() ==> #[trigger] listed_ops(code)[i] == Some(
                decode(code)->Some_0[i].op,
            ) && opcode_named(mnemonic_of(decode(code)->Some_0[i].op)) == Some(
                decode(code)->Some_0[i].op,
            ),
    decreases code.len(),
{
    if code.len() > 0 {
        let op = OpCode::spec_decode(code[0])->Some_0;
        let rest = code.subrange(listed_width(code), code.len() as int);
        lemma_listing_round_trip(rest);
        let p = decode(code)->Some_0;
        assert(listed_width(code) == op.width());
        assert(p.drop_first() =~= decode(rest)->Some_0);
        assert(p[0].op == op);
        assert(listed_ops(code) =~= seq![Some(op)] + listed_ops(rest));
        assert forall|i: int| 0 <= i < listed_ops(code).len() implies #[trigger] listed_ops(code)[i]
            == Some(p[i].op) && opcode_named(mnemonic_of(p[i].op)) == Some(p[i].op) by {
            lemma_mnemonic_round_trip(p[i].op);
            if i > 0 {
                assert(listed_ops(code)[i] == listed_ops(rest)[i - 1]);
                assert(p[i] == p.drop_first()[i - 1]);
            }
        }
    }
}

} // verus!
