use rlox::chunk::Chunk;
use rlox::debug::{disassemble_chunk, disassemble_instruction, mnemonic, parse_mnemonic};
use rlox::opcode::OpCode;
use rlox::value::{number_eq, number_lt, number_neg, RuntimeError, Value};
use rlox::vm::{ArithOp, Stack, Step, VM};

fn chunk_of(bytes: &[u8], consts: &[Value]) -> Chunk {
    let mut chunk = Chunk::new("test");
    for b in bytes {
        chunk.write(*b, 1);
    }
    for c in consts {
        chunk.add_const(*c);
    }
    chunk
}

fn num(x: f64) -> Value {
    Value::Number(x.to_bits())
}

#[test]
fn add_then_get_const() {
    let mut chunk = Chunk::new("c");
    let i = chunk.add_const(num(1.5));
    let j = chunk.add_const(Value::Bool(true));
    assert_eq!((i, j), (0, 1));
    assert_eq!(chunk.get_const(i), num(1.5));
    assert_eq!(chunk.get_const(j), Value::Bool(true));
}

#[test]
fn write_keeps_lines_parallel() {
    let mut chunk = Chunk::default();
    assert_eq!(chunk.name, "chunk");
    chunk.write(7, 3);
    chunk.write_opcode(OpCode::Return, 4);
    assert_eq!(chunk.code, vec![7, OpCode::Return.as_byte()]);
    assert_eq!(chunk.lines, vec![3, 4]);
}

#[test]
fn opcode_bytes_round_trip() {
    for b in 0u8..=255 {
        if let Some(op) = OpCode::decode(b) {
            assert_eq!(op.as_byte(), b);
        }
    }
    assert_eq!(OpCode::decode(15), None);
}

#[test]
fn stack_push_pop_peek() {
    let mut stack = Stack::new();
    stack.push(num(1.0));
    stack.push(Value::Nil);
    assert_eq!(stack.len(), 2);
    assert_eq!(*stack.peek(0), Value::Nil);
    assert_eq!(*stack.peek(1), num(1.0));
    assert_eq!(stack.pop(), Value::Nil);
    assert_eq!(stack.len(), 1);
    stack.reset();
    assert_eq!(stack.len(), 0);
}

#[test]
fn constant_then_return() {
    let mut vm = VM::new(chunk_of(&[0, 0, 14], &[num(2.0)]));
    assert_eq!(vm.step(), Step::Continue);
    assert_eq!(vm.stack_len(), 1);
    assert_eq!(vm.step(), Step::Done(num(2.0)));
    assert_eq!(vm.stack_len(), 0);
}

#[test]
fn arithmetic_is_handed_out() {
    let mut vm = VM::new(chunk_of(&[0, 0, 0, 1, 8, 14], &[num(5.0), num(3.0)]));
    assert_eq!(vm.step(), Step::Continue);
    assert_eq!(vm.step(), Step::Continue);
    assert_eq!(vm.step(), Step::Arith(ArithOp::Subtract, 5.0f64.to_bits(), 3.0f64.to_bits()));
    assert_eq!(vm.step(), Step::Fail(RuntimeError::ResultPending));
    vm.resume(2.0f64.to_bits());
    assert_eq!(vm.step(), Step::Done(num(2.0)));
}

#[test]
fn runtime_errors() {
    let mut vm = VM::new(chunk_of(&[], &[]));
    assert_eq!(vm.step(), Step::Fail(RuntimeError::UnexpectedEnd));
    let mut vm = VM::new(chunk_of(&[200], &[]));
    assert_eq!(vm.step(), Step::Fail(RuntimeError::UnknownOpcode(200)));
    let mut vm = VM::new(chunk_of(&[0], &[]));
    assert_eq!(vm.step(), Step::Fail(RuntimeError::UnexpectedEnd));
    let mut vm = VM::new(chunk_of(&[0, 5], &[num(1.0)]));
    assert_eq!(vm.step(), Step::Fail(RuntimeError::ConstantOutOfRange(5)));
    let mut vm = VM::new(chunk_of(&[7], &[]));
    assert_eq!(vm.step(), Step::Fail(RuntimeError::StackUnderflow));
    let mut vm = VM::new(chunk_of(&[2, 13], &[]));
    assert_eq!(vm.step(), Step::Continue);
    assert_eq!(vm.step(), Step::Fail(RuntimeError::OperandMustBeNumber));
    let mut vm = VM::new(chunk_of(&[1, 2, 7], &[]));
    vm.step();
    vm.step();
    assert_eq!(vm.step(), Step::Fail(RuntimeError::OperandsMustBeNumbers));
    let mut vm = VM::new(chunk_of(&[1; 257], &[]));
    for _ in 0..256 {
        assert_eq!(vm.step(), Step::Continue);
    }
    assert_eq!(vm.step(), Step::Fail(RuntimeError::StackOverflow));
}

#[test]
fn error_messages() {
    assert_eq!(RuntimeError::OperandsMustBeNumbers.message(), "Operands must be numbers.");
    assert_eq!(RuntimeError::OperandMustBeNumber.message(), "Operand must be a number.");
}

#[test]
fn comparisons_in_the_machine() {
    // 1 < 2, 2 > 1 == false, nil == nil, true == 1
    let mut vm = VM::new(chunk_of(&[0, 0, 0, 1, 6, 14], &[num(1.0), num(2.0)]));
    vm.step();
    vm.step();
    vm.step();
    assert_eq!(vm.step(), Step::Done(Value::Bool(true)));
    let mut vm = VM::new(chunk_of(&[1, 1, 4, 14], &[]));
    vm.step();
    vm.step();
    vm.step();
    assert_eq!(vm.step(), Step::Done(Value::Bool(true)));
    let mut vm = VM::new(chunk_of(&[2, 0, 0, 4, 14], &[num(1.0)]));
    vm.step();
    vm.step();
    vm.step();
    assert_eq!(vm.step(), Step::Done(Value::Bool(false)));
    let mut vm = VM::new(chunk_of(&[2, 1, 5, 14], &[]));
    vm.step();
    vm.step();
    vm.step();
    assert_eq!(vm.step(), Step::Done(Value::Bool(false)));
}

#[test]
fn value_operations() {
    assert!(!Value::Nil.is_truthy());
    assert!(!Value::Bool(false).is_truthy());
    assert!(num(0.0).is_truthy());
    assert_eq!(Value::Nil.not(), Value::Bool(true));
    assert_eq!(num(0.0).not(), Value::Bool(false));
    assert_eq!(num(2.0).negate(), Ok(num(-2.0)));
    assert_eq!(Value::Nil.negate(), Err(RuntimeError::OperandMustBeNumber));
    assert_eq!(num(1.0).equal(&num(1.0)), Value::Bool(true));
    assert_eq!(num(1.0).not_equal(&num(1.0)), Value::Bool(false));
    assert_eq!(Value::Nil.equal(&Value::Bool(false)), Value::Bool(false));
    assert_eq!(num(3.0).greater(&num(2.0)), Value::Bool(true));
    assert_eq!(num(3.0).less(&num(2.0)), Value::Bool(false));
    assert_eq!(Value::Nil.less(&num(2.0)), Value::Bool(false));
    assert_eq!(num(1.0).numbers(&num(2.0)), Some((1.0f64.to_bits(), 2.0f64.to_bits())));
    assert_eq!(num(1.0).numbers(&Value::Nil), None);
}

#[test]
fn ieee_number_helpers() {
    let nan = f64::NAN.to_bits();
    let pz = 0.0f64.to_bits();
    let nz = (-0.0f64).to_bits();
    assert!(!number_eq(nan, nan));
    assert!(number_eq(pz, nz));
    assert!(!number_lt(pz, nz));
    assert!(number_lt((-1.5f64).to_bits(), 1.0f64.to_bits()));
    assert!(number_lt((-2.0f64).to_bits(), (-1.0f64).to_bits()));
    assert!(number_lt(1.0f64.to_bits(), f64::INFINITY.to_bits()));
    assert!(!number_lt(nan, 1.0f64.to_bits()));
    assert_eq!(number_neg(2.5f64.to_bits()), (-2.5f64).to_bits());
    assert_eq!(number_neg(nz), pz);
    for (a, b) in [(1.0f64, 2.0f64), (-3.0, 0.5), (7.25, 7.25), (f64::INFINITY, 1e300)] {
        assert_eq!(number_lt(a.to_bits(), b.to_bits()), a < b);
        assert_eq!(number_eq(a.to_bits(), b.to_bits()), a == b);
    }
}

#[test]
fn disassembly_lists_each_instruction() {
    let chunk = chunk_of(&[0, 0, 0, 1, 7, 11, 14], &[num(1.0), num(2.0)]);
    let listing = disassemble_chunk(&chunk);
    assert_eq!(listing.len(), 5);
    let names: Vec<&str> = listing.iter().map(|l| mnemonic(l.op.unwrap())).collect();
    assert_eq!(names, vec!["CONSTANT", "CONSTANT", "ADD", "NOT", "RETURN"]);
    let reparsed: Vec<OpCode> = names.iter().filter_map(|n| parse_mnemonic(n)).collect();
    assert_eq!(reparsed.len(), listing.len());
    assert_eq!(listing[1].operand, Some(1));
    assert_eq!(listing[1].constant, Some(num(2.0)));
    assert_eq!(listing[0].line, Some(1));
    assert_eq!(listing[1].line, None);
    assert_eq!(listing[2].offset, 4);
}

#[test]
fn disassembly_of_odd_bytes() {
    let chunk = chunk_of(&[99, 0], &[]);
    let (line, next) = disassemble_instruction(&chunk, 0);
    assert_eq!(line.op, None);
    assert_eq!(line.byte, 99);
    assert_eq!(next, 1);
    let (line, next) = disassemble_instruction(&chunk, 1);
    assert_eq!(line.op, Some(OpCode::Constant));
    assert_eq!(line.operand, None);
    assert_eq!(next, 2);
    assert_eq!(parse_mnemonic("NOPE"), None);
    assert_eq!(parse_mnemonic("NEGATE"), Some(OpCode::Negate));
}

#[test]
fn run_stops_at_each_event() {
    // (5 - 3) * 4
    let mut vm = VM::new(chunk_of(
        &[0, 0, 0, 1, 8, 0, 2, 9, 14],
        &[num(5.0), num(3.0), num(4.0)],
    ));
    assert_eq!(vm.run(), Step::Arith(ArithOp::Subtract, 5.0f64.to_bits(), 3.0f64.to_bits()));
    vm.resume(2.0f64.to_bits());
    assert_eq!(vm.run(), Step::Arith(ArithOp::Multiply, 2.0f64.to_bits(), 4.0f64.to_bits()));
    vm.resume(8.0f64.to_bits());
    assert_eq!(vm.run(), Step::Done(num(8.0)));
    let mut vm = VM::new(chunk_of(&[2, 13, 14], &[]));
    assert_eq!(vm.run(), Step::Fail(RuntimeError::OperandMustBeNumber));
    let mut vm = VM::default();
    assert_eq!(vm.run(), Step::Fail(RuntimeError::UnexpectedEnd));
}
