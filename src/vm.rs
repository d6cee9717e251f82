use crate::chunk::{
    lemma_peak, balanced, decode, depth, encode, lemma_depth_push, lemma_encode_at, lemma_encode_decode, pops,
    Chunk, Instr,
};
use crate::syntax::{binary_instrs, simple};
use crate::opcode::OpCode;
use crate::rules::{rule_of, ParseFn};
use crate::scanner::TokenType;
use crate::value::{is_nan, num_eq, num_lt, num_neg, order_key, RuntimeError, Value};
use vstd::prelude::*;

verus! {

/// The capacity of the operand stack.
pub const STACK_MAX: usize = 256;

/// The operand stack: a fixed array of slots and the height in use. Slots at
/// and above the height are dead.
pub struct Stack {
    values: Vec<Value>,
    top: usize,
}

impl View for Stack {
    type V = Seq<Value>;

    closed spec fn view(&self) -> Seq<Value> {
        self.values@.take(self.top as int)
    }
}

impl Stack {
    pub closed spec fn wf(&self) -> bool {
        self.values@.len() == STACK_MAX && self.top <= STACK_MAX
    }

    pub fn new() -> (r: Stack)
        ensures
            r.wf(),
            r@.len() == 0,
    {
        let mut values: Vec<Value> = Vec::new();
        while values.len() < STACK_MAX
            invariant
                values@.len() <= STACK_MAX,
            decreases STACK_MAX - values@.len(),
        {
            values.push(Value::Nil);
        }
        Stack { values, top: 0 }
    }

    /// Empties the stack.
    pub fn reset(&mut self)
        requires
            old(self).wf(),
        ensures
            final(self).wf(),
            final(self)@.len() == 0,
    {
        self.top = 0;
    }

    pub fn len(&self) -> (r: usize)
        requires
            self.wf(),
        ensures
            r == self@.len(),
    {
        self.top
    }

    pub fn push(&mut self, value: Value)
        requires
            old(self).wf(),
            old(self)@.len() < STACK_MAX,
        ensures
            final(self).wf(),
            final(self)@ == old(self)@.push(value),
    {
        let t = self.top;
        self.values.set(t, value);
        self.top = t + 1;
        assert(self@ =~= old(self)@.push(value));
    }

    pub fn pop(&mut self) -> (r: Value)
        requires
            old(self).wf(),
            old(self)@.len() > 0,
        ensures
            final(self).wf(),
            r == old(self)@.last(),
            final(self)@ == old(self)@.drop_last(),
    {
        let t = self.top - 1;
        let v = self.values[t];
        self.values.set(t, Value::Nil);
        self.top = t;
        assert(self@ =~= old(self)@.drop_last());
        v
    }

    /// The value `distance` slots below the top.
    pub fn peek(&self, distance: usize) -> (r: &Value)
        requires
            self.wf(),
            distance < self@.len(),
        ensures
            *r == self@[self@.len() - 1 - distance],
    {
        &self.values[self.top - distance - 1]
    }
}

impl Default for VM {
    fn default() -> (r: VM)
        ensures
            r.wf(),
            r.code().len() == 0,
            r.consts().len() == 0,
            r.pc() == 0,
            r.values().len() == 0,
            !r.awaiting(),
    {
        VM::new(Chunk::default())
    }
}

/// The arithmetic that the machine leaves to its caller: IEEE-754 binary64
/// operations, rounded to nearest.
#[derive(Debug, Clone, Copy, PartialEq, Eq, Structural)]
pub enum ArithOp {
    Add,
    Subtract,
    Multiply,
    Divide,
    Modulo,
}

/// What one step of the machine came to.
#[derive(Debug, Clone, Copy, PartialEq)]
pub enum Step {
    /// An instruction ran; step again.
    Continue,
    /// An arithmetic instruction popped two numbers (`a op b`, by their
    /// encodings); hand the encoding of the result to `resume`, then go on.
    Arith(ArithOp, u64, u64),
    /// `Return` popped this value: the program is over.
    Done(Value),
    /// The program stopped with an error.
    Fail(RuntimeError),
}

/// The outcome of a run, as reported to the user.
#[derive(Debug, Clone, Copy, PartialEq, Eq, Structural)]
pub enum InterpretResult {
    Success,
    CompileError,
    RuntimeError,
}

/// The instruction at `ip`, or why none can be read there.
pub open spec fn fetch(code: Seq<u8>, ip: int) -> Result<Instr, RuntimeError> {
    if ip < 0 || ip >= code.len() {
        Err(RuntimeError::UnexpectedEnd)
    } else {
        match OpCode::spec_decode(code[ip]) {
            None => Err(RuntimeError::UnknownOpcode(code[ip])),
            Some(op) => {
                if op == OpCode::Constant {
                    if ip + 1 >= code.len() {
                        Err(RuntimeError::UnexpectedEnd)
                    } else {
                        Ok(Instr { op, arg: code[ip + 1] })
                    }
                } else {
                    Ok(Instr { op, arg: 0 })
                }
            },
        }
    }
}

pub open spec fn arith_of(op: OpCode) -> ArithOp {
    match op {
        OpCode::Add => ArithOp::Add,
        OpCode::Subtract => ArithOp::Subtract,
        OpCode::Multiply => ArithOp::Multiply,
        OpCode::Divide => ArithOp::Divide,
        _ => ArithOp::Modulo,
    }
}

pub open spec fn push_value(st: Seq<Value>, v: Value) -> (Step, Seq<Value>) {
    if st.len() >= STACK_MAX {
        (Step::Fail(RuntimeError::StackOverflow), st)
    } else {
        (Step::Continue, st.push(v))
    }
}

/// What an instruction does to the stack `st`, and what the step comes to.
pub open spec fn exec_instr(i: Instr, consts: Seq<Value>, st: Seq<Value>) -> (Step, Seq<Value>) {
    let n = st.len() as int;
    if n < pops(i.op) {
        (Step::Fail(RuntimeError::StackUnderflow), st)
    } else {
        match i.op {
            OpCode::Constant => {
                if (i.arg as int) < consts.len() {
                    push_value(st, consts[i.arg as int])
                } else {
                    (Step::Fail(RuntimeError::ConstantOutOfRange(i.arg)), st)
                }
            },
            OpCode::Nil => push_value(st, Value::Nil),
            OpCode::True => push_value(st, Value::Bool(true)),
            OpCode::False => push_value(st, Value::Bool(false)),
            OpCode::Return => (Step::Done(st.last()), st.drop_last()),
            OpCode::Not => (Step::Continue, st.drop_last().push(Value::Bool(!st.last().truthy()))),
            OpCode::Negate => match st.last() {
                Value::Number(x) => (Step::Continue, st.drop_last().push(Value::Number(num_neg(x)))),
                _ => (Step::Fail(RuntimeError::OperandMustBeNumber), st),
            },
            OpCode::Equal => (
                Step::Continue,
                st.take(n - 2).push(Value::Bool(st[n - 2].spec_equal(st[n - 1]))),
            ),
            OpCode::Greater => (
                Step::Continue,
                st.take(n - 2).push(Value::Bool(st[n - 2].spec_greater(st[n - 1]))),
            ),
            OpCode::Less => (
                Step::Continue,
                st.take(n - 2).push(Value::Bool(st[n - 2].spec_less(st[n - 1]))),
            ),
            _ => match (st[n - 2], st[n - 1]) {
                (Value::Number(a), Value::Number(b)) => (
                    Step::Arith(arith_of(i.op), a, b),
                    st.take(n - 2),
                ),
                _ => (Step::Fail(RuntimeError::OperandsMustBeNumbers), st),
            },
        }
    }
}

/// The virtual machine: a chunk, the offset of the next instruction, and the
/// operand stack. Arithmetic is left to the caller through `Step::Arith`.
pub struct VM {
    chunk: Chunk,
    ip: usize,
    stack: Stack,
    pending: bool,
    /// How many instructions have run.
    executed: Ghost<int>,
}

impl VM {
    pub closed spec fn code(&self) -> Seq<u8> {
        self.chunk.code@
    }

    pub closed spec fn consts(&self) -> Seq<Value> {
        self.chunk.constants@
    }

    pub closed spec fn pc(&self) -> int {
        self.ip as int
    }

    pub closed spec fn values(&self) -> Seq<Value> {
        self.stack@
    }

    /// An arithmetic result is owed.
    pub closed spec fn awaiting(&self) -> bool {
        self.pending
    }

    pub closed spec fn wf(&self) -> bool {
        &&& self.stack.wf()
        &&& self.pending ==> self.stack@.len() < STACK_MAX
        &&& self.ip <= self.chunk.code@.len()
    }

    /// The instructions of the program not yet run.
    pub closed spec fn rest(&self) -> Seq<Instr> {
        decode(self.chunk.code@)->Some_0.skip(self.executed@)
    }

    /// The machine runs a balanced program and stands between two of its
    /// instructions, with the stack as high as the instructions so far leave it.
    pub closed spec fn on_track(&self) -> bool {
        &&& decode(self.chunk.code@) is Some
        &&& {
            let prog = decode(self.chunk.code@)->Some_0;
            let k = self.executed@;
            &&& balanced(prog, self.chunk.constants@.len())
            &&& 0 <= k < prog.len()
            &&& self.ip == encode(prog.take(k)).len()
            &&& self.stack@.len() + (if self.pending {
                1int
            } else {
                0int
            }) == depth(prog.take(k))
        }
    }

    pub fn new(chunk: Chunk) -> (r: VM)
        ensures
            r.wf(),
            r.code() == chunk.code@,
            r.consts() == chunk.constants@,
            r.pc() == 0,
            r.values().len() == 0,
            !r.awaiting(),
            decode(chunk.code@) is Some && balanced(decode(chunk.code@)->Some_0, chunk.constants@.len())
                ==> r.on_track(),
            decode(chunk.code@) is Some ==> r.rest() == decode(chunk.code@)->Some_0,
    {
        let r = VM { chunk, ip: 0, stack: Stack::new(), pending: false, executed: Ghost(0) };
        proof {
            if decode(r.chunk.code@) is Some {
                let prog = decode(r.chunk.code@)->Some_0;
                assert(prog.skip(0) =~= prog);
                assert(prog.take(0) =~= Seq::<Instr>::empty());
                assert(encode(prog.take(0)) =~= Seq::<u8>::empty());
            }
        }
        r
    }

    /// The height of the operand stack.
    pub fn stack_len(&self) -> (r: usize)
        requires
            self.wf(),
        ensures
            r == self.values().len(),
    {
        self.stack.len()
    }

    /// Pushes the result of the arithmetic that the last step asked for.
    pub fn resume(&mut self, result: u64)
        requires
            old(self).wf(),
        ensures
            final(self).wf(),
            final(self).code() == old(self).code(),
            final(self).consts() == old(self).consts(),
            final(self).pc() == old(self).pc(),
            !final(self).awaiting(),
            old(self).awaiting() ==> final(self).values() == old(self).values().push(
                Value::Number(result),
            ),
            !old(self).awaiting() ==> final(self).values() == old(self).values(),
            old(self).on_track() ==> final(self).on_track(),
            final(self).rest() == old(self).rest(),
    {
        if self.pending {
            self.stack.push(Value::Number(result));
            self.pending = false;
        }
    }

    /// Pops two values, `b` from the top and then `a`.
    fn pop_two(&mut self) -> (r: (Value, Value))
        requires
            old(self).wf(),
            old(self).stack@.len() >= 2,
        ensures
            final(self).wf(),
            final(self).chunk == old(self).chunk,
            final(self).ip == old(self).ip,
            final(self).pending == old(self).pending,
            final(self).executed == old(self).executed,
            ({
                let st = old(self).stack@;
                let n = st.len() as int;
                &&& r == (st[n - 2], st[n - 1])
                &&& final(self).stack@ == st.take(n - 2)
            }),
    {
        let b = self.stack.pop();
        let a = self.stack.pop();
        assert(self.stack@ =~= old(self).stack@.take(old(self).stack@.len() - 2));
        (a, b)
    }

    /// Pushes a value unless the stack is full.
    fn push_checked(&mut self, value: Value) -> (r: Step)
        requires
            old(self).wf(),
            !old(self).pending,
        ensures
            final(self).wf(),
            final(self).chunk == old(self).chunk,
            final(self).ip == old(self).ip,
            final(self).pending == old(self).pending,
            final(self).executed == old(self).executed,
            (r, final(self).stack@) == push_value(old(self).stack@, value),
    {
        if self.stack.len() >= STACK_MAX {
            return Step::Fail(RuntimeError::StackOverflow);
        }
        self.stack.push(value);
        Step::Continue
    }

    /// Runs one instruction.
    pub fn step(&mut self) -> (r: Step)
        requires
            old(self).wf(),
        ensures
            final(self).wf(),
            final(self).code() == old(self).code(),
            final(self).consts() == old(self).consts(),
            old(self).awaiting() ==> r == Step::Fail(RuntimeError::ResultPending),
            !old(self).awaiting() ==> match fetch(old(self).code(), old(self).pc()) {
                Err(e) => r == Step::Fail(e),
                Ok(i) => {
                    let (s, st) = exec_instr(i, old(self).consts(), old(self).values());
                    &&& r == s
                    &&& !(s is Fail) ==> {
                        &&& final(self).values() == st
                        &&& final(self).pc() == old(self).pc() + i.op.width()
                        &&& final(self).awaiting() == (s is Arith)
                    }
                },
            },
            old(self).on_track() && !(r is Fail) && !(r is Done) ==> final(self).on_track(),
            old(self).on_track() && !old(self).awaiting() && r is Fail ==> r == Step::Fail(
                RuntimeError::OperandsMustBeNumbers,
            ) || r == Step::Fail(RuntimeError::OperandMustBeNumber),
            old(self).on_track() && r is Done ==> old(self).values().len() == 1
                && final(self).values().len() == 0,
            old(self).on_track() && !old(self).awaiting() ==> {
                &&& old(self).rest().len() > 0
                &&& fetch(old(self).code(), old(self).pc()) == Ok::<Instr, RuntimeError>(
                    old(self).rest()[0],
                )
                &&& (r is Continue || r is Arith) ==> final(self).rest() == old(
                    self,
                ).rest().drop_first()
            },
    {
        if self.pending {
            return Step::Fail(RuntimeError::ResultPending);
        }
        let ghost k = self.executed@;
        proof {
            if old(self).on_track() {
                let code = self.chunk.code@;
                let prog = decode(code)->Some_0;
                lemma_encode_decode(code);
                lemma_encode_at(prog, k);
                OpCode::lemma_decode_byte(prog[k].op);
                assert(prog[k].normal());
                let pre = encode(prog.take(k));
                assert(code == pre + prog[k].bytes() + encode(prog.skip(k + 1)));
                assert(code[self.ip as int] == prog[k].bytes()[0]);
                if prog[k].op == OpCode::Constant {
                    assert(code[self.ip + 1] == prog[k].bytes()[1]);
                }
                assert(prog.take(k + 1) =~= prog.take(k).push(prog[k]));
                lemma_depth_push(prog.take(k), prog[k]);
                lemma_peak(prog, k + 1);
                assert(prog.last() == prog[prog.len() - 1]);
                if k == prog.len() - 1 {
                    assert(prog.take(k) =~= prog.drop_last());
                }
                assert(prog.skip(k)[0] == prog[k]);
                assert(prog.skip(k).drop_first() =~= prog.skip(k + 1));
            }
        }
        let n = self.chunk.code.len();
        if self.ip >= n {
            return Step::Fail(RuntimeError::UnexpectedEnd);
        }
        let byte = self.chunk.code[self.ip];
        let op = match OpCode::decode(byte) {
            Some(op) => op,
            None => {
                return Step::Fail(RuntimeError::UnknownOpcode(byte));
            },
        };
        let mut arg: u8 = 0;
        if op == OpCode::Constant {
            if self.ip + 1 >= n {
                return Step::Fail(RuntimeError::UnexpectedEnd);
            }
            arg = self.chunk.code[self.ip + 1];
        }
        let ghost instr = Instr { op, arg };
        assert(fetch(old(self).code(), old(self).pc()) == Ok::<Instr, RuntimeError>(instr));
        proof {
            if old(self).on_track() {
                assert(instr == decode(self.chunk.code@)->Some_0[k]);
            }
        }
        let needed: usize = match op {
            OpCode::Constant | OpCode::Nil | OpCode::True | OpCode::False => 0,
            OpCode::Return | OpCode::Not | OpCode::Negate => 1,
            _ => 2,
        };
        if self.stack.len() < needed {
            return Step::Fail(RuntimeError::StackUnderflow);
        }
        self.ip = if op == OpCode::Constant {
            self.ip + 2
        } else {
            self.ip + 1
        };
        proof {
            self.executed@ = k + 1;
        }
        match op {
            OpCode::Constant => {
                let idx = arg as usize;
                if idx >= self.chunk.constants.len() {
                    return Step::Fail(RuntimeError::ConstantOutOfRange(arg));
                }
                let value = self.chunk.get_const(idx);
                self.push_checked(value)
            },
            OpCode::Nil => self.push_checked(Value::Nil),
            OpCode::True => self.push_checked(Value::Bool(true)),
            OpCode::False => self.push_checked(Value::Bool(false)),
            OpCode::Return => {
                let value = self.stack.pop();
                Step::Done(value)
            },
            OpCode::Not => {
                let value = self.stack.pop();
                self.stack.push(value.not());
                Step::Continue
            },
            OpCode::Negate => {
                let value = self.stack.pop();
                match value.negate() {
                    Ok(negated) => {
                        self.stack.push(negated);
                        Step::Continue
                    },
                    Err(e) => Step::Fail(e),
                }
            },
            OpCode::Equal => {
                let (a, b) = self.pop_two();
                self.stack.push(a.equal(&b));
                Step::Continue
            },
            OpCode::Greater => {
                let (a, b) = self.pop_two();
                self.stack.push(a.greater(&b));
                Step::Continue
            },
            OpCode::Less => {
                let (a, b) = self.pop_two();
                self.stack.push(a.less(&b));
                Step::Continue
            },
            _ => {
                let (a, b) = self.pop_two();
                match a.numbers(&b) {
                    Some((x, y)) => {
                        self.pending = true;
                        Step::Arith(arith_op(op), x, y)
                    },
                    None => Step::Fail(RuntimeError::OperandsMustBeNumbers),
                }
            },
        }
    }
}

impl VM {
    /// Runs instructions until one needs the caller: arithmetic to perform,
    /// the value `Return` popped, or an error.
    pub fn run(&mut self) -> (r: Step)
        requires
            old(self).wf(),
        ensures
            final(self).wf(),
            final(self).code() == old(self).code(),
            final(self).consts() == old(self).consts(),
            !(r is Continue),
            old(self).awaiting() ==> r == Step::Fail(RuntimeError::ResultPending),
            !old(self).awaiting() ==> {
                let (s, st, next) = run_code(old(self).code(), old(self).consts(), old(self).pc(), old(self).values());
                &&& r == s
                &&& (r is Arith || r is Done) ==> final(self).values() == st && final(self).pc() == next
            },
            r is Arith ==> final(self).awaiting(),
            old(self).on_track() && r is Done ==> final(self).values().len() == 0,
            old(self).on_track() && !old(self).awaiting() ==> {
                let (s, st, n) = run_from(old(self).rest(), old(self).consts(), old(self).values());
                &&& r == s
                &&& (r is Arith || r is Done) ==> final(self).values() == st
                &&& r is Arith ==> final(self).on_track() && final(self).rest() == old(
                    self,
                ).rest().skip(n as int)
            },
            old(self).on_track() && r is Fail ==> r == Step::Fail(
                RuntimeError::OperandsMustBeNumbers,
            ) || r == Step::Fail(RuntimeError::OperandMustBeNumber) || r == Step::Fail(
                RuntimeError::ResultPending,
            ),
    {
        let ghost track = self.on_track() && !self.pending;
        let ghost goal = run_from(self.rest(), self.consts(), self.values());
        let ghost bytes_goal = run_code(self.code(), self.consts(), self.pc(), self.values());
        let ghost start = self.rest();
        let ghost ran: nat = 0;
        proof {
            if track {
                assert(start.skip(0) =~= start);
            }
        }
        loop
            invariant
                self.wf(),
                self.code() == old(self).code(),
                self.consts() == old(self).consts(),
                old(self).awaiting() ==> self.awaiting(),
                track == (old(self).on_track() && !old(self).awaiting()),
                old(self).on_track() ==> self.on_track(),
                goal == run_from(old(self).rest(), old(self).consts(), old(self).values()),
                start == old(self).rest(),
                bytes_goal == run_code(old(self).code(), old(self).consts(), old(self).pc(), old(self).values()),
                !old(self).awaiting() ==> !self.awaiting() && run_code(self.code(), self.consts(), self.pc(), self.values()) == bytes_goal,
                track ==> {
                    let (s, st, n) = run_from(self.rest(), self.consts(), self.values());
                    &&& !self.awaiting()
                    &&& s == goal.0
                    &&& st == goal.1
                    &&& n + ran == goal.2
                    &&& self.rest() == start.skip(ran as int)
                    &&& ran <= start.len()
                },
            decreases self.code().len() - self.pc(),
        {
            let ghost before = self.rest();
            let ghost values = self.values();
            let ghost pc0 = self.pc();
            let step = self.step();
            proof {
                if !old(self).awaiting() {
                    assert(run_code(self.code(), self.consts(), pc0, values) == bytes_goal);
                }
            }
            match step {
                Step::Continue => {
                    proof {
                        if track {
                            let (s1, st1) = exec_instr(before[0], self.consts(), values);
                            assert(before.drop_first() =~= start.skip(ran + 1int));
                            ran = ran + 1;
                        }
                    }
                },
                _ => {
                    proof {
                        if track && step is Arith {
                            assert(self.rest() =~= start.skip(ran + 1int));
                        }
                    }
                    return step;
                },
            }
        }
    }
}

fn arith_op(op: OpCode) -> (r: ArithOp)
    ensures
        r == arith_of(op),
{
    match op {
        OpCode::Add => ArithOp::Add,
        OpCode::Subtract => ArithOp::Subtract,
        OpCode::Multiply => ArithOp::Multiply,
        OpCode::Divide => ArithOp::Divide,
        _ => ArithOp::Modulo,
    }
}


/// Runs instructions from the first: the first step that is not `Continue`
/// (`Fail(UnexpectedEnd)` when the run ends without one), the stack then, and
/// how many instructions ran.
pub open spec fn run_from(p: Seq<Instr>, consts: Seq<Value>, st: Seq<Value>) -> (Step, Seq<Value>, nat)
    decreases p.len(),
{
    if p.len() == 0 {
        (Step::Fail(RuntimeError::UnexpectedEnd), st, 0)
    } else {
        let (s, next) = exec_instr(p[0], consts, st);
        if s is Continue {
            let (last, fin, n) = run_from(p.drop_first(), consts, next);
            (last, fin, n + 1)
        } else {
            (s, next, 1)
        }
    }
}

/// Runs the code from offset `ip` on the stack `st`: the first step that is not
/// `Continue`, the stack it leaves, and the offset after the instruction that
/// made it.
pub open spec fn run_code(code: Seq<u8>, consts: Seq<Value>, ip: int, st: Seq<Value>) -> (Step, Seq<Value>, int)
    decreases code.len() - ip,
{
    match fetch(code, ip) {
        Err(e) => (Step::Fail(e), st, ip),
        Ok(i) => {
            let (s, next) = exec_instr(i, consts, st);
            if s is Continue && 0 <= ip < code.len() {
                run_code(code, consts, ip + i.op.width(), next)
            } else {
                (s, next, ip + i.op.width())
            }
        },
    }
}

/// The operators that the machine leaves to its caller.
pub open spec fn is_arith_token(t: TokenType) -> bool {
    t == TokenType::Plus || t == TokenType::Minus || t == TokenType::Star || t == TokenType::Slash
}

pub open spec fn arith_for(t: TokenType) -> ArithOp {
    if t == TokenType::Plus {
        ArithOp::Add
    } else if t == TokenType::Minus {
        ArithOp::Subtract
    } else if t == TokenType::Star {
        ArithOp::Multiply
    } else {
        ArithOp::Divide
    }
}

/// IEEE-754 `a <= b`.
pub open spec fn num_le(a: u64, b: u64) -> bool {
    !is_nan(a) && !is_nan(b) && order_key(a) <= order_key(b)
}

/// What the comparison operator `t` gives on two binary64 values.
pub open spec fn host_compare(t: TokenType, x: u64, y: u64) -> bool {
    if t == TokenType::EqualEqual {
        num_eq(x, y)
    } else if t == TokenType::BangEqual {
        !num_eq(x, y)
    } else if t == TokenType::Greater {
        num_lt(y, x)
    } else if t == TokenType::GreaterEqual {
        num_le(y, x)
    } else if t == TokenType::Less {
        num_lt(x, y)
    } else {
        num_le(x, y)
    }
}

/// The code of `a T b` over two numbers computes what `T` computes on them:
/// an arithmetic operator hands exactly `a T b` out and returns what comes
/// back; a comparison returns its IEEE-754 result.
pub proof fn lemma_binary_run(t: TokenType, x: u64, y: u64)
    requires
        rule_of(t).infix == Some(ParseFn::Binary),
        !is_nan(x),
        !is_nan(y),
    ensures
        ({
            let prog = seq![
                Instr { op: OpCode::Constant, arg: 0 },
                Instr { op: OpCode::Constant, arg: 1 },
            ] + binary_instrs(t) + seq![simple(OpCode::Return)];
            let consts = seq![Value::Number(x), Value::Number(y)];
            &&& is_arith_token(t) ==> run_from(prog, consts, Seq::empty()) == (
                Step::Arith(arith_for(t), x, y),
                Seq::<Value>::empty(),
                3nat,
            )
            &&& is_arith_token(t) ==> forall|z: u64| #[trigger]
                run_from(prog.skip(3), consts, seq![Value::Number(z)]).0 == Step::Done(
                    Value::Number(z),
                )
            &&& !is_arith_token(t) ==> run_from(prog, consts, Seq::empty()).0 == Step::Done(
                Value::Bool(host_compare(t, x, y)),
            )
        }),
{
    let c0 = Instr { op: OpCode::Constant, arg: 0 };
    let c1 = Instr { op: OpCode::Constant, arg: 1 };
    let ret = simple(OpCode::Return);
    let consts = seq![Value::Number(x), Value::Number(y)];
    let prog = seq![c0, c1] + binary_instrs(t) + seq![ret];
    let st1 = seq![Value::Number(x)];
    let st2 = seq![Value::Number(x), Value::Number(y)];
    assert(exec_instr(c0, consts, Seq::empty()) == (Step::Continue, st1)) by {
        assert(Seq::<Value>::empty().push(Value::Number(x)) =~= st1);
    }
    assert(exec_instr(c1, consts, st1) == (Step::Continue, st2)) by {
        assert(st1.push(Value::Number(y)) =~= st2);
    }
    assert(st2.take(0) =~= Seq::<Value>::empty());
    if is_arith_token(t) {
        let op = binary_instrs(t)[0];
        assert(binary_instrs(t) =~= seq![op]);
        let body = seq![c0, c1, op, ret];
        assert(prog =~= body);
        assert(exec_instr(op, consts, st2) == (Step::Arith(arith_for(t), x, y), Seq::<Value>::empty()));
        assert(body.drop_first() =~= seq![c1, op, ret]);
        assert(body.drop_first().drop_first() =~= seq![op, ret]);
        assert(run_from(seq![op, ret], consts, st2) == (
            Step::Arith(arith_for(t), x, y),
            Seq::<Value>::empty(),
            1nat,
        ));
        assert(run_from(seq![c1, op, ret], consts, st1).0 == Step::Arith(arith_for(t), x, y));
        assert(body.skip(3) =~= seq![ret]);
        assert forall|z: u64| #[trigger]
            run_from(prog.skip(3), consts, seq![Value::Number(z)]).0 == Step::Done(
                Value::Number(z),
            ) by {
            assert(prog.skip(3) =~= seq![ret]);
            assert(exec_instr(ret, consts, seq![Value::Number(z)]).0 == Step::Done(
                Value::Number(z),
            ));
        }
    } else if binary_instrs(t).len() == 1 {
        let op = binary_instrs(t)[0];
        assert(binary_instrs(t) =~= seq![op]);
        let body = seq![c0, c1, op, ret];
        assert(prog =~= body);
        let v = Value::Bool(host_compare(t, x, y));
        assert(exec_instr(op, consts, st2) == (Step::Continue, seq![v])) by {
            assert(st2.take(0).push(v) =~= seq![v]);
        }
        assert(exec_instr(ret, consts, seq![v]).0 == Step::Done(v));
        assert(body.drop_first() =~= seq![c1, op, ret]);
        assert(body.drop_first().drop_first() =~= seq![op, ret]);
        assert(seq![op, ret].drop_first() =~= seq![ret]);
        assert(seq![ret].drop_first() =~= Seq::<Instr>::empty());
        assert(run_from(seq![ret], consts, seq![v]).0 == Step::Done(v));
        assert(run_from(seq![op, ret], consts, st2).0 == Step::Done(v));
        assert(run_from(seq![c1, op, ret], consts, st1).0 == Step::Done(v));
    } else {
        let op = binary_instrs(t)[0];
        let not = binary_instrs(t)[1];
        assert(binary_instrs(t) =~= seq![op, not]);
        let body = seq![c0, c1, op, not, ret];
        assert(prog =~= body);
        let w = Value::Bool(!host_compare(t, x, y));
        let v = Value::Bool(host_compare(t, x, y));
        assert(exec_instr(op, consts, st2) == (Step::Continue, seq![w])) by {
            assert(st2.take(0).push(w) =~= seq![w]);
        }
        assert(exec_instr(not, consts, seq![w]) == (Step::Continue, seq![v])) by {
            assert(seq![w].drop_last().push(v) =~= seq![v]);
        }
        assert(exec_instr(ret, consts, seq![v]).0 == Step::Done(v));
        assert(body.drop_first() =~= seq![c1, op, not, ret]);
        assert(seq![c1, op, not, ret].drop_first() =~= seq![op, not, ret]);
        assert(seq![op, not, ret].drop_first() =~= seq![not, ret]);
        assert(seq![not, ret].drop_first() =~= seq![ret]);
        assert(seq![ret].drop_first() =~= Seq::<Instr>::empty());
        assert(run_from(seq![ret], consts, seq![v]).0 == Step::Done(v));
        assert(run_from(seq![not, ret], consts, seq![w]).0 == Step::Done(v));
        assert(run_from(seq![op, not, ret], consts, st2).0 == Step::Done(v));
        assert(run_from(seq![c1, op, not, ret], consts, st1).0 == Step::Done(v));
    }
}

/// `a == b` and `a != b` over any two operands, each the code of a literal
/// or a constant that pushes one value: the run returns whether the two
/// values are equal (or not), with cross-type values never equal.
pub proof fn lemma_equality_run(
    t: TokenType,
    a: Instr,
    b: Instr,
    va: Value,
    vb: Value,
    consts: Seq<Value>,
)
    requires
        t == TokenType::EqualEqual || t == TokenType::BangEqual,
        exec_instr(a, consts, Seq::empty()) == (Step::Continue, seq![va]),
        exec_instr(b, consts, seq![va]) == (Step::Continue, seq![va, vb]),
    ensures
        run_from(seq![a, b] + binary_instrs(t) + seq![simple(OpCode::Return)], consts, Seq::empty()).0
            == Step::Done(
            Value::Bool(
                if t == TokenType::EqualEqual {
                    va.spec_equal(vb)
                } else {
                    !va.spec_equal(vb)
                },
            ),
        ),
{
    let ret = simple(OpCode::Return);
    let st2 = seq![va, vb];
    let eq = Value::Bool(va.spec_equal(vb));
    assert(st2.take(0).push(eq) =~= seq![eq]);
    assert(exec_instr(simple(OpCode::Equal), consts, st2) == (Step::Continue, seq![eq]));
    if t == TokenType::EqualEqual {
        let body = seq![a, b, simple(OpCode::Equal), ret];
        assert(seq![a, b] + binary_instrs(t) + seq![ret] =~= body);
        assert(body.drop_first() =~= seq![b, simple(OpCode::Equal), ret]);
        assert(seq![b, simple(OpCode::Equal), ret].drop_first() =~= seq![simple(OpCode::Equal), ret]);
        assert(seq![simple(OpCode::Equal), ret].drop_first() =~= seq![ret]);
        assert(exec_instr(ret, consts, seq![eq]).0 == Step::Done(eq));
        assert(run_from(seq![ret], consts, seq![eq]).0 == Step::Done(eq));
        assert(run_from(seq![simple(OpCode::Equal), ret], consts, st2).0 == Step::Done(eq));
        assert(run_from(seq![b, simple(OpCode::Equal), ret], consts, seq![va]).0 == Step::Done(eq));
        assert(run_from(body, consts, Seq::empty()).0 == Step::Done(eq));
    } else {
        let ne = Value::Bool(!va.spec_equal(vb));
        let not = simple(OpCode::Not);
        let body = seq![a, b, simple(OpCode::Equal), not, ret];
        assert(seq![a, b] + binary_instrs(t) + seq![ret] =~= body);
        assert(seq![eq].drop_last().push(ne) =~= seq![ne]);
        assert(exec_instr(not, consts, seq![eq]) == (Step::Continue, seq![ne]));
        assert(body.drop_first() =~= seq![b, simple(OpCode::Equal), not, ret]);
        assert(seq![b, simple(OpCode::Equal), not, ret].drop_first() =~= seq![simple(OpCode::Equal), not, ret]);
        assert(seq![simple(OpCode::Equal), not, ret].drop_first() =~= seq![not, ret]);
        assert(seq![not, ret].drop_first() =~= seq![ret]);
        assert(exec_instr(ret, consts, seq![ne]).0 == Step::Done(ne));
        assert(run_from(seq![ret], consts, seq![ne]).0 == Step::Done(ne));
        assert(run_from(seq![not, ret], consts, seq![eq]).0 == Step::Done(ne));
        assert(run_from(seq![simple(OpCode::Equal), not, ret], consts, st2).0 == Step::Done(ne));
        assert(run_from(seq![b, simple(OpCode::Equal), not, ret], consts, seq![va]).0 == Step::Done(ne));
        assert(run_from(body, consts, Seq::empty()).0 == Step::Done(ne));
    }
}

} // verus!
