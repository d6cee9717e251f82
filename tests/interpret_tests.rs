use rlox::compiler::{compile, Diagnostic, ErrorLocation};
use rlox::scanner::number_literals;
use rlox::value::Value;
use rlox::vm::{ArithOp, InterpretResult, Step, VM};

struct Outcome {
    result: InterpretResult,
    stdout: Vec<String>,
    stderr: Vec<String>,
    height_before_return: Option<usize>,
    height_after_return: Option<usize>,
}

fn arith(op: ArithOp, a: u64, b: u64) -> u64 {
    let (x, y) = (f64::from_bits(a), f64::from_bits(b));
    let r = match op {
        ArithOp::Add => x + y,
        ArithOp::Subtract => x - y,
        ArithOp::Multiply => x * y,
        ArithOp::Divide => x / y,
        ArithOp::Modulo => x % y,
    };
    r.to_bits()
}

fn show(v: &Value) -> String {
    match v {
        Value::Number(n) => format!("{}", f64::from_bits(*n)),
        Value::Bool(b) => format!("{}", b),
        Value::Nil => "nil".to_string(),
        Value::String(r) => format!("<string {}>", r.index()),
    }
}

fn render(d: &Diagnostic) -> String {
    let at = match d.location {
        ErrorLocation::AtEnd => " at end".to_string(),
        ErrorLocation::Bare => String::new(),
        ErrorLocation::AtLexeme(l) => format!(" at '{}'", l),
    };
    format!("[line {}] Error{}: {}", d.line, at, d.message)
}

fn run(source: &str) -> Outcome {
    let numbers: Vec<u64> = number_literals(source)
        .iter()
        .map(|l| l.parse::<f64>().unwrap().to_bits())
        .collect();
    let mut out = Outcome {
        result: InterpretResult::Success,
        stdout: Vec::new(),
        stderr: Vec::new(),
        height_before_return: None,
        height_after_return: None,
    };
    let chunk = match compile(source, &numbers) {
        Ok(chunk) => chunk,
        Err(diags) => {
            out.result = InterpretResult::CompileError;
            out.stderr = diags.iter().map(render).collect();
            return out;
        }
    };
    let mut vm = VM::new(chunk);
    loop {
        let height = vm.stack_len();
        match vm.step() {
            Step::Continue => {}
            Step::Arith(op, a, b) => vm.resume(arith(op, a, b)),
            Step::Done(v) => {
                out.stdout.push(show(&v));
                out.height_before_return = Some(height);
                out.height_after_return = Some(vm.stack_len());
                return out;
            }
            Step::Fail(e) => {
                out.result = InterpretResult::RuntimeError;
                out.stderr.push(e.message().to_string());
                return out;
            }
        }
    }
}

fn value_of(source: &str) -> String {
    let out = run(source);
    assert_eq!(out.result, InterpretResult::Success, "{}: {:?}", source, out.stderr);
    out.stdout[0].clone()
}

#[test]
fn adds_two_numbers() {
    let out = run("1 + 2");
    assert_eq!(out.result, InterpretResult::Success);
    assert_eq!(out.stdout, vec!["3"]);
}

#[test]
fn mixed_expression() {
    let out = run("(-1 + 2) * 3 - -4");
    assert_eq!(out.result, InterpretResult::Success);
    assert_eq!(out.stdout, vec!["7"]);
}

#[test]
fn not_nil_is_true() {
    let out = run("!nil");
    assert_eq!(out.result, InterpretResult::Success);
    assert_eq!(out.stdout, vec!["true"]);
}

#[test]
fn adding_a_boolean_fails_at_run_time() {
    let out = run("1 + true");
    assert_eq!(out.result, InterpretResult::RuntimeError);
    assert!(out.stdout.is_empty());
    assert!(out.stderr[0].contains("Operands must be numbers"));
}

#[test]
fn missing_operand_fails_to_compile() {
    let out = run("1 +");
    assert_eq!(out.result, InterpretResult::CompileError);
    assert!(out.stdout.is_empty());
    assert_eq!(out.stderr, vec!["[line 1] Error at end: Expect expression"]);
}

#[test]
fn fractional_product_is_exact() {
    assert_eq!(value_of("3.5 * 2"), "7");
}

#[test]
fn subtraction_associates_left() {
    assert_eq!(value_of("1 - 2 - 3"), "-4");
    assert_eq!(value_of("(1 - 2) - 3"), "-4");
    assert_eq!(value_of("1 - (2 - 3)"), "2");
}

#[test]
fn precedence_scenarios() {
    assert_eq!(value_of("1 + 2 * 3"), "7");
    assert_eq!(value_of("(1 + 2) * 3"), "9");
    assert_eq!(value_of("-2 * 3"), "-6");
    assert_eq!(value_of("!true"), "false");
    assert_eq!(value_of("1 < 2 == true"), "true");
}

#[test]
fn double_negation_of_nil() {
    // `!nil` is true, so negating it once more gives false.
    assert_eq!(value_of("!!nil"), "false");
}

#[test]
fn binary_operators_match_host_arithmetic() {
    let pairs = [(7.0f64, 2.0f64), (1.5, -0.25), (3.0, 3.0), (-8.0, 5.0)];
    for (a, b) in pairs {
        let lit = |x: f64| if x < 0.0 { format!("(0 - {})", -x) } else { format!("{}", x) };
        let (la, lb) = (lit(a), lit(b));
        let expr = |op: &str| format!("{} {} {}", la, op, lb);
        assert_eq!(value_of(&expr("+")), format!("{}", a + b));
        assert_eq!(value_of(&expr("-")), format!("{}", a - b));
        assert_eq!(value_of(&expr("*")), format!("{}", a * b));
        assert_eq!(value_of(&expr("/")), format!("{}", a / b));
        assert_eq!(value_of(&expr("==")), format!("{}", a == b));
        assert_eq!(value_of(&expr("!=")), format!("{}", a != b));
        assert_eq!(value_of(&expr("<")), format!("{}", a < b));
        assert_eq!(value_of(&expr("<=")), format!("{}", a <= b));
        assert_eq!(value_of(&expr(">")), format!("{}", a > b));
        assert_eq!(value_of(&expr(">=")), format!("{}", a >= b));
    }
}

#[test]
fn one_value_is_left_for_return() {
    for src in ["1", "1 + 2 * 3", "!(1 < 2) == false", "-(-(-4))", "nil == nil"] {
        let out = run(src);
        assert_eq!(out.result, InterpretResult::Success);
        assert_eq!(out.height_before_return, Some(1));
        assert_eq!(out.height_after_return, Some(0));
    }
}

#[test]
fn comparisons_of_other_values_are_false() {
    assert_eq!(value_of("nil < 1"), "false");
    assert_eq!(value_of("true > false"), "false");
    assert_eq!(value_of("nil == false"), "false");
    assert_eq!(value_of("true != false"), "true");
}

#[test]
fn negating_a_boolean_fails() {
    let out = run("-true");
    assert_eq!(out.result, InterpretResult::RuntimeError);
    assert!(out.stderr[0].contains("Operand must be a number"));
}

#[test]
fn division_by_zero_follows_ieee() {
    assert_eq!(value_of("1 / 0"), "inf");
    assert_eq!(value_of("0 / 0 == 0 / 0"), "false");
}

#[test]
fn deep_nesting_is_rejected_by_the_compiler() {
    let mut src = String::new();
    for _ in 0..300 {
        src.push_str("true == (");
    }
    src.push_str("true");
    for _ in 0..300 {
        src.push(')');
    }
    let out = run(&src);
    assert_eq!(out.result, InterpretResult::CompileError);
    assert_eq!(out.stderr, vec!["[line 1] Error at end: Too many values on the stack"]);
    // 255 nested comparisons keep 256 values at most
    let mut ok = String::new();
    for _ in 0..255 {
        ok.push_str("true == (");
    }
    ok.push_str("true");
    for _ in 0..255 {
        ok.push(')');
    }
    assert_eq!(value_of(&ok), "true");
}

#[test]
fn equality_of_literals() {
    assert_eq!(value_of("nil == nil"), "true");
    assert_eq!(value_of("nil != nil"), "false");
    assert_eq!(value_of("true == true"), "true");
    assert_eq!(value_of("true == false"), "false");
    assert_eq!(value_of("1 == true"), "false");
    assert_eq!(value_of("false != nil"), "true");
}
