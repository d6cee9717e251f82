use crate::opcode::OpCode;
use crate::value::Value;
use vstd::prelude::*;

verus! {

/// A decoded instruction: an opcode and, for `Constant`, its operand.
#[derive(Debug, Clone, Copy, PartialEq, Eq, Structural)]
pub struct Instr {
    pub op: OpCode,
    pub arg: u8,
}

impl Instr {
    /// Instructions other than `Constant` carry no operand; `arg` is then 0.
    pub open spec fn normal(self) -> bool {
        self.op != OpCode::Constant ==> self.arg == 0
    }

    pub open spec fn bytes(self) -> Seq<u8> {
        if self.op == OpCode::Constant {
            seq![self.op.spec_byte(), self.arg]
        } else {
            seq![self.op.spec_byte()]
        }
    }
}

/// The byte stream of a sequence of instructions.
pub open spec fn encode(p: Seq<Instr>) -> Seq<u8>
    decreases p.len(),
{
    if p.len() == 0 {
        Seq::empty()
    } else {
        p[0].bytes() + encode(p.drop_first())
    }
}

/// The instructions of a byte stream, read from the front; `None` when a
/// byte encodes no opcode or a `Constant` lacks its operand.
pub open spec fn decode(code: Seq<u8>) -> Option<Seq<Instr>>
    decreases code.len(),
{
    if code.len() == 0 {
        Some(Seq::empty())
    } else {
        match OpCode::spec_decode(code[0]) {
            None => None,
            Some(op) => {
                if op == OpCode::Constant {
                    if code.len() < 2 {
                        None
                    } else {
                        match decode(code.subrange(2, code.len() as int)) {
                            None => None,
                            Some(rest) => Some(seq![Instr { op, arg: code[1] }] + rest),
                        }
                    }
                } else {
                    match decode(code.subrange(1, code.len() as int)) {
                        None => None,
                        Some(rest) => Some(seq![Instr { op, arg: 0 }] + rest),
                    }
                }
            },
        }
    }
}

pub open spec fn all_normal(p: Seq<Instr>) -> bool {
    forall|i: int| 0 <= i < p.len() ==> (#[trigger] p[i]).normal()
}

pub proof fn lemma_encode_concat(a: Seq<Instr>, b: Seq<Instr>)
    ensures
        encode(a + b) == encode(a) + encode(b),
    decreases a.len(),
{
    if a.len() == 0 {
        assert(a + b =~= b);
        assert(encode(a) + encode(b) =~= encode(b));
    } else {
        assert((a + b).drop_first() =~= a.drop_first() + b);
        lemma_encode_concat(a.drop_first(), b);
        assert(encode(a + b) =~= encode(a) + encode(b));
    }
}

pub proof fn lemma_encode_push(p: Seq<Instr>, i: Instr)
    ensures
        encode(p.push(i)) == encode(p) + i.bytes(),
{
    lemma_encode_concat(p, seq![i]);
    assert(p.push(i) =~= p + seq![i]);
    assert(seq![i].drop_first() =~= Seq::<Instr>::empty());
    assert(encode(seq![i].drop_first()) == Seq::<u8>::empty());
    assert(encode(seq![i]) =~= i.bytes());
}

/// Encoding is undone by decoding.
pub proof fn lemma_decode_encode(p: Seq<Instr>)
    requires
        all_normal(p),
    ensures
        decode(encode(p)) == Some(p),
    decreases p.len(),
{
    if p.len() == 0 {
    } else {
        let i = p[0];
        assert(i.normal());
        let rest = p.drop_first();
        assert(all_normal(rest)) by {
            assert forall|k: int| 0 <= k < rest.len() implies (#[trigger] rest[k]).normal() by {
                assert(rest[k] == p[k + 1]);
            }
        }
        lemma_decode_encode(rest);
        let code = encode(p);
        OpCode::lemma_decode_byte(i.op);
        assert(code == i.bytes() + encode(rest));
        let w = i.bytes().len() as int;
        assert(code.subrange(w, code.len() as int) =~= encode(rest));
        assert(seq![i] + rest =~= p);
    }
}

/// A byte stream that decodes is the encoding of what it decodes to.
pub proof fn lemma_encode_decode(code: Seq<u8>)
    requires
        decode(code) is Some,
    ensures
        encode(decode(code)->Some_0) == code,
        all_normal(decode(code)->Some_0),
    decreases code.len(),
{
    if code.len() > 0 {
        let op = OpCode::spec_decode(code[0])->Some_0;
        let w = op.width() as int;
        let rest = code.subrange(w, code.len() as int);
        lemma_encode_decode(rest);
        let p = decode(code)->Some_0;
        let i = p[0];
        assert(p.drop_first() =~= decode(rest)->Some_0);
        assert(i.bytes() =~= code.subrange(0, w));
        assert(code =~= code.subrange(0, w) + rest);
        assert forall|k: int| 0 <= k < p.len() implies (#[trigger] p[k]).normal() by {
            if k > 0 {
                assert(p[k] == p.drop_first()[k - 1]);
            }
        }
    }
}

pub proof fn lemma_push_normal(p: Seq<Instr>, i: Instr)
    requires
        all_normal(p),
        i.normal(),
    ensures
        all_normal(p.push(i)),
{
    assert forall|k: int| 0 <= k < p.push(i).len() implies (#[trigger] p.push(i)[k]).normal() by {
        if k < p.len() {
            assert(p.push(i)[k] == p[k]);
        }
    }
}

/// Where instruction `k` of a program starts in its encoding, and what is there.
pub proof fn lemma_encode_at(p: Seq<Instr>, k: int)
    requires
        0 <= k < p.len(),
    ensures
        encode(p) == encode(p.take(k)) + p[k].bytes() + encode(p.skip(k + 1)),
        encode(p.take(k + 1)) == encode(p.take(k)) + p[k].bytes(),
{
    assert(p =~= p.take(k) + (seq![p[k]] + p.skip(k + 1)));
    lemma_encode_concat(p.take(k), seq![p[k]] + p.skip(k + 1));
    lemma_encode_concat(seq![p[k]], p.skip(k + 1));
    assert(seq![p[k]].drop_first() =~= Seq::<Instr>::empty());
    assert(encode(seq![p[k]].drop_first()) == Seq::<u8>::empty());
    assert(encode(seq![p[k]]) =~= p[k].bytes());
    assert(p.take(k + 1) =~= p.take(k).push(p[k]));
    lemma_encode_push(p.take(k), p[k]);
}

/// How many values an opcode takes off the stack.
pub open spec fn pops(op: OpCode) -> int {
    match op {
        OpCode::Constant | OpCode::Nil | OpCode::True | OpCode::False => 0,
        OpCode::Return | OpCode::Not | OpCode::Negate => 1,
        _ => 2,
    }
}

/// How many values an opcode leaves on the stack.
pub open spec fn pushes(op: OpCode) -> int {
    if op == OpCode::Return {
        0
    } else {
        1
    }
}

/// The net change of the stack height over a run of instructions.
pub open spec fn depth(p: Seq<Instr>) -> int
    decreases p.len(),
{
    if p.len() == 0 {
        0
    } else {
        depth(p.drop_last()) + pushes(p.last().op) - pops(p.last().op)
    }
}

/// Started on a stack of height `d`, no instruction of `p` finds fewer
/// values than it takes.
pub open spec fn fits_from(p: Seq<Instr>, d: int) -> bool {
    forall|i: int| 0 <= i < p.len() ==> d + depth(#[trigger] p.take(i)) >= pops(p[i].op)
}

/// The greatest stack height a run of instructions reaches from an empty
/// stack, counting the empty start.
pub open spec fn peak(p: Seq<Instr>) -> int
    decreases p.len(),
{
    if p.len() == 0 {
        0
    } else {
        let before = peak(p.drop_last());
        if depth(p) > before {
            depth(p)
        } else {
            before
        }
    }
}

/// A run of `n` instructions reaches no height above `n`.
pub proof fn lemma_peak_len(p: Seq<Instr>)
    ensures
        depth(p) <= p.len(),
        peak(p) <= p.len(),
    decreases p.len(),
{
    if p.len() > 0 {
        lemma_peak_len(p.drop_last());
    }
}

/// Every height a run reaches is at most its peak.
pub proof fn lemma_peak(p: Seq<Instr>, i: int)
    requires
        0 <= i <= p.len(),
    ensures
        depth(p.take(i)) <= peak(p),
        peak(p) >= 0,
    decreases p.len(),
{
    if p.len() > 0 {
        if i == p.len() {
            assert(p.take(i) =~= p);
            lemma_peak(p.drop_last(), 0);
        } else {
            lemma_peak(p.drop_last(), i);
            assert(p.drop_last().take(i) =~= p.take(i));
        }
    } else {
        assert(p.take(i) =~= Seq::<Instr>::empty());
    }
}

/// A whole program: its last instruction, and only that one, is `Return`,
/// which finds exactly one value; no instruction underflows the stack; every
/// `Constant` names a slot of a pool of `n_consts` values; the stack never
/// holds more than 256 values.
pub open spec fn balanced(p: Seq<Instr>, n_consts: nat) -> bool {
    &&& p.len() > 0
    &&& p.last().op == OpCode::Return
    &&& forall|i: int| 0 <= i < p.len() - 1 ==> (#[trigger] p[i]).op != OpCode::Return
    &&& fits_from(p, 0)
    &&& depth(p.drop_last()) == 1
    &&& forall|i: int| 0 <= i < p.len() && (#[trigger] p[i]).op == OpCode::Constant ==> p[i].arg < n_consts
    &&& peak(p) <= 256
}

pub proof fn lemma_depth_push(p: Seq<Instr>, i: Instr)
    ensures
        depth(p.push(i)) == depth(p) + pushes(i.op) - pops(i.op),
{
    assert(p.push(i).drop_last() =~= p);
}

pub proof fn lemma_depth_concat(a: Seq<Instr>, b: Seq<Instr>)
    ensures
        depth(a + b) == depth(a) + depth(b),
    decreases b.len(),
{
    if b.len() == 0 {
        assert(a + b =~= a);
    } else {
        lemma_depth_concat(a, b.drop_last());
        assert((a + b).drop_last() =~= a + b.drop_last());
    }
}

/// Two runs that fit one after the other fit together.
pub proof fn lemma_fits_concat(a: Seq<Instr>, b: Seq<Instr>, d: int)
    requires
        fits_from(a, d),
        fits_from(b, d + depth(a)),
    ensures
        fits_from(a + b, d),
        depth(a + b) == depth(a) + depth(b),
{
    lemma_depth_concat(a, b);
    assert forall|i: int| 0 <= i < (a + b).len() implies d + depth(#[trigger] (a + b).take(i)) >= pops(
        (a + b)[i].op,
    ) by {
        if i < a.len() {
            assert((a + b).take(i) =~= a.take(i));
        } else {
            assert((a + b).take(i) =~= a + b.take(i - a.len()));
            lemma_depth_concat(a, b.take(i - a.len()));
            assert(b.take(i - a.len()) == b.take(i - a.len()));
            assert(d + depth(a) + depth(b.take(i - a.len())) >= pops(b[i - a.len()].op));
        }
    }
}

/// A run that fits on a stack fits on a higher one.
pub proof fn lemma_fits_higher(p: Seq<Instr>, d: int, e: int)
    requires
        fits_from(p, d),
        d <= e,
    ensures
        fits_from(p, e),
{
    assert forall|i: int| 0 <= i < p.len() implies e + depth(#[trigger] p.take(i)) >= pops(p[i].op) by {
        assert(d + depth(p.take(i)) >= pops(p[i].op));
    }
}

/// The line of each byte, given the line of each instruction: both bytes of
/// a `Constant` carry its line.
pub open spec fn spread(p: Seq<Instr>, ls: Seq<usize>) -> Seq<usize>
    decreases p.len(),
{
    if p.len() == 0 || ls.len() == 0 {
        Seq::empty()
    } else if p.last().op == OpCode::Constant {
        spread(p.drop_last(), ls.drop_last()) + seq![ls.last(), ls.last()]
    } else {
        spread(p.drop_last(), ls.drop_last()) + seq![ls.last()]
    }
}

pub proof fn lemma_spread_push(p: Seq<Instr>, ls: Seq<usize>, i: Instr, l: usize)
    ensures
        spread(p.push(i), ls.push(l)) == spread(p, ls) + if i.op == OpCode::Constant {
            seq![l, l]
        } else {
            seq![l]
        },
{
    assert(p.push(i).drop_last() =~= p);
    assert(ls.push(l).drop_last() =~= ls);
}

/// The greatest stack height that the code, read as instructions, reaches
/// from an empty stack.
pub fn code_peak(code: &Vec<u8>) -> (r: i128)
    requires
        decode(code@) is Some,
    ensures
        r as int == peak(decode(code@)->Some_0),
{
    let ghost p = decode(code@)->Some_0;
    proof {
        lemma_encode_decode(code@);
        assert(p.take(0) =~= Seq::<Instr>::empty());
    }
    let n = code.len();
    let mut offset: usize = 0;
    let ghost mut k: int = 0;
    let mut height: i128 = 0;
    let mut best: i128 = 0;
    while offset < n
        invariant
            code@ == encode(p),
            all_normal(p),
            n == code@.len(),
            0 <= k <= p.len(),
            offset == encode(p.take(k)).len(),
            height == depth(p.take(k)),
            best == peak(p.take(k)),
            -k <= height <= k,
            k <= offset <= n,
        decreases n - offset,
    {
        proof {
            if k == p.len() as int {
                assert(p.take(k) =~= p);
            }
            lemma_encode_at(p, k);
            OpCode::lemma_decode_byte(p[k].op);
            assert(p[k].normal());
            assert(code@[offset as int] == p[k].bytes()[0]);
            assert(p.take(k + 1).drop_last() =~= p.take(k));
            lemma_depth_push(p.take(k), p[k]);
            assert(p.take(k).push(p[k]) =~= p.take(k + 1));
        }
        let op = match OpCode::decode(code[offset]) {
            Some(op) => op,
            None => {
                return best;
            },
        };
        let (taken, left): (i128, i128) = match op {
            OpCode::Constant | OpCode::Nil | OpCode::True | OpCode::False => (0, 1),
            OpCode::Return => (1, 0),
            OpCode::Not | OpCode::Negate => (1, 1),
            _ => (2, 1),
        };
        height = height - taken + left;
        if height > best {
            best = height;
        }
        offset = if op == OpCode::Constant {
            offset + 2
        } else {
            offset + 1
        };
        proof {
            k = k + 1;
        }
    }
    proof {
        if k < p.len() as int {
            lemma_encode_at(p, k);
        }
        assert(p.take(k) =~= p);
    }
    best
}

/// A compiled unit: the instruction bytes, the source line of each byte, and
/// the constant pool that `Constant` operands index.
#[derive(Debug)]
pub struct Chunk {
    pub name: String,
    pub code: Vec<u8>,
    pub lines: Vec<usize>,
    pub constants: Vec<Value>,
}

impl Chunk {
    /// Every byte has its line.
    pub open spec fn lines_match(&self) -> bool {
        self.code@.len() == self.lines@.len()
    }

    pub fn new(name: &str) -> (r: Chunk)
        ensures
            r.name@ == name@,
            r.code@.len() == 0,
            r.lines@.len() == 0,
            r.constants@.len() == 0,
    {
        Chunk { name: name.to_owned(), code: Vec::new(), lines: Vec::new(), constants: Vec::new() }
    }

    /// Appends one byte with its source line.
    pub fn write(&mut self, byte: u8, line: usize)
        ensures
            final(self).code@ == old(self).code@.push(byte),
            final(self).lines@ == old(self).lines@.push(line),
            final(self).constants@ == old(self).constants@,
            final(self).name@ == old(self).name@,
    {
        self.code.push(byte);
        self.lines.push(line);
    }

    /// Appends the byte of an opcode with its source line.
    pub fn write_opcode(&mut self, opcode: OpCode, line: usize)
        ensures
            final(self).code@ == old(self).code@.push(opcode.spec_byte()),
            final(self).lines@ == old(self).lines@.push(line),
            final(self).constants@ == old(self).constants@,
            final(self).name@ == old(self).name@,
    {
        self.write(opcode.as_byte(), line);
    }

    /// Appends a value to the constant pool and returns its index.
    pub fn add_const(&mut self, value: Value) -> (r: usize)
        ensures
            final(self).constants@ == old(self).constants@.push(value),
            r == old(self).constants@.len(),
            final(self).code@ == old(self).code@,
            final(self).lines@ == old(self).lines@,
            final(self).name@ == old(self).name@,
    {
        self.constants.push(value);
        self.constants.len() - 1
    }

    pub fn get_const(&self, index: usize) -> (r: Value)
        requires
            index < self.constants@.len(),
        ensures
            r == self.constants@[index as int],
    {
        self.constants[index]
    }
}

/// A value added to the pool is the value found at the index it was given,
/// whatever other values are added after it: `after` is the pool once `value`
/// and then `later` were added to `before`.
pub proof fn lemma_add_then_get(
    before: Seq<Value>,
    value: Value,
    later: Seq<Value>,
    after: Seq<Value>,
    index: int,
)
    requires
        after == before.push(value) + later,
        index == before.len(),
    ensures
        0 <= index < after.len(),
        after[index] == value,
{
}

impl Default for Chunk {
    fn default() -> (r: Chunk)
        ensures
            r.name@ == "chunk"@,
            r.code@.len() == 0,
            r.lines@.len() == 0,
            r.constants@.len() == 0,
    {
        Chunk::new("chunk")
    }
}

} // verus!
