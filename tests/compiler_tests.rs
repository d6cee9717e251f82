use rlox::compiler::{advance, compile, ErrorLocation, Parser};
use rlox::opcode::OpCode;
use rlox::rules::{get_rule, ParseFn, Precedence};
use rlox::scanner::{number_literals, TokenType};
use rlox::value::Value;

fn numbers_of(source: &str) -> Vec<u64> {
    number_literals(source)
        .iter()
        .map(|l| l.parse::<f64>().unwrap().to_bits())
        .collect()
}

#[test]
fn test_parser_state_binary_operations() {
    let src = "20.5 * 3 + 4";
    let mut parser = Parser::new(src);
    advance(&mut parser);
    assert_eq!(parser.current.token_type, TokenType::Number);
}

#[test]
fn test_basic_binary_operations() {
    let src = "1 + 2";
    let result = compile(src, &numbers_of(src));
    // ensure compilation is successful
    assert!(result.is_ok());
    let chunk = result.unwrap();
    // 1 and 2 are constants
    assert_eq!(chunk.constants.len(), 2);
    // two constants of two bytes each, then add and return
    assert_eq!(chunk.code.len(), 6);
}

#[test]
fn test_precedence() {
    assert_eq!(Precedence::Lowest.increment(), Precedence::Assignment);
    assert!(Precedence::Assignment.increment() > Precedence::Assignment);
    assert!(Precedence::Or.increment() > Precedence::Assignment);
    assert!(Precedence::And.increment() > Precedence::Or);
    assert!(Precedence::Equality.increment() > Precedence::And);
    assert!(Precedence::Comparison.increment() > Precedence::Equality);
    assert!(Precedence::Term.increment() > Precedence::Comparison);
    assert!(Precedence::Factor.increment() > Precedence::Term);
    assert!(Precedence::Unary.increment() > Precedence::Factor);
    assert!(Precedence::Call.increment() > Precedence::Unary);
    assert!(Precedence::Primary.increment() > Precedence::Call);
}

#[test]
fn test_get_rule() {
    let rule = get_rule(TokenType::Plus);
    assert_eq!(rule.precedence, Precedence::Term);
    assert_eq!(rule.prefix, None);
    assert!(rule.infix.is_some());
}

#[test]
fn rule_table_entries() {
    let minus = get_rule(TokenType::Minus);
    assert_eq!(minus.prefix, Some(ParseFn::Unary));
    assert_eq!(minus.infix, Some(ParseFn::Binary));
    assert_eq!(get_rule(TokenType::Star).precedence, Precedence::Factor);
    assert_eq!(get_rule(TokenType::LessEqual).precedence, Precedence::Comparison);
    assert_eq!(get_rule(TokenType::BangEqual).precedence, Precedence::Equality);
    assert_eq!(get_rule(TokenType::Number).prefix, Some(ParseFn::Number));
    assert_eq!(get_rule(TokenType::Nil).prefix, Some(ParseFn::Literal));
    assert_eq!(get_rule(TokenType::LeftParen).prefix, Some(ParseFn::Grouping));
    let eof = get_rule(TokenType::Eof);
    assert_eq!(eof.prefix, None);
    assert_eq!(eof.infix, None);
    assert_eq!(eof.precedence, Precedence::Lowest);
}

#[test]
fn precedence_levels() {
    assert_eq!(Precedence::Lowest.level(), 0);
    assert_eq!(Precedence::Primary.level(), 10);
    assert_eq!(Precedence::from_level(6), Precedence::Term);
    assert_eq!(Precedence::from_level(200), Precedence::Primary);
    assert_eq!(Precedence::Primary.increment(), Precedence::Primary);
}

#[test]
fn code_and_lines_stay_parallel() {
    let src = "1 +\n2 *\n(3 - 4)";
    let chunk = compile(src, &numbers_of(src)).unwrap();
    assert_eq!(chunk.code.len(), chunk.lines.len());
    assert_eq!(chunk.lines[0], 1);
    assert_eq!(*chunk.lines.last().unwrap(), 3);
}

#[test]
fn compiled_chunk_ends_with_return() {
    for src in ["1", "-1", "!true", "1 + 2 * 3", "(nil)", "1 <= 2 != false"] {
        let chunk = compile(src, &numbers_of(src)).unwrap();
        assert_eq!(*chunk.code.last().unwrap(), OpCode::Return.as_byte());
    }
}

#[test]
fn left_associative_code() {
    let src = "1 - 2 - 3";
    let chunk = compile(src, &numbers_of(src)).unwrap();
    let c = OpCode::Constant.as_byte();
    let sub = OpCode::Subtract.as_byte();
    assert_eq!(chunk.code, vec![c, 0, c, 1, sub, c, 2, sub, OpCode::Return.as_byte()]);
}

#[test]
fn precedence_code() {
    let src = "1 + 2 * 3";
    let chunk = compile(src, &numbers_of(src)).unwrap();
    let c = OpCode::Constant.as_byte();
    assert_eq!(
        chunk.code,
        vec![
            c,
            0,
            c,
            1,
            c,
            2,
            OpCode::Multiply.as_byte(),
            OpCode::Add.as_byte(),
            OpCode::Return.as_byte()
        ]
    );
}

#[test]
fn negated_comparisons_emit_two_opcodes() {
    let cases = [
        ("1 != 2", OpCode::Equal),
        ("1 >= 2", OpCode::Less),
        ("1 <= 2", OpCode::Greater),
    ];
    for (src, first) in cases {
        let chunk = compile(src, &numbers_of(src)).unwrap();
        assert_eq!(chunk.code[4], first.as_byte());
        assert_eq!(chunk.code[5], OpCode::Not.as_byte());
        assert_eq!(chunk.code.len(), 7);
    }
}

#[test]
fn constants_hold_the_numbers_in_order() {
    let src = "3.5 * 2";
    let numbers = numbers_of(src);
    let chunk = compile(src, &numbers).unwrap();
    assert_eq!(chunk.constants, vec![Value::Number(3.5f64.to_bits()), Value::Number(2.0f64.to_bits())]);
}

#[test]
fn missing_operand_is_reported_at_end() {
    let diags = compile("1 +", &numbers_of("1 +")).unwrap_err();
    assert_eq!(diags.len(), 1);
    assert_eq!(diags[0].message, "Expect expression");
    assert_eq!(diags[0].location, ErrorLocation::AtEnd);
    assert_eq!(diags[0].line, 1);
}

#[test]
fn unclosed_group_is_reported() {
    let diags = compile("(1 + 2", &numbers_of("(1 + 2")).unwrap_err();
    assert_eq!(diags.len(), 1);
    assert_eq!(diags[0].message, "Expect ')' after expression");
}

#[test]
fn trailing_tokens_are_reported() {
    let diags = compile("1 2", &numbers_of("1 2")).unwrap_err();
    assert_eq!(diags.len(), 1);
    assert_eq!(diags[0].message, "Expect end of expression");
    assert_eq!(diags[0].location, ErrorLocation::AtLexeme("2"));
    let diags = compile("1 )", &numbers_of("1 )")).unwrap_err();
    assert_eq!(diags[0].location, ErrorLocation::AtLexeme(")"));
}

#[test]
fn scanner_errors_are_reported_bare() {
    let diags = compile("1 + @", &numbers_of("1 + @")).unwrap_err();
    assert_eq!(diags.len(), 1);
    assert_eq!(diags[0].message, "Unexpected character.");
    assert_eq!(diags[0].location, ErrorLocation::Bare);
}

#[test]
fn missing_numbers_are_invalid() {
    let diags = compile("1 + 2", &[1.0f64.to_bits()]).unwrap_err();
    assert_eq!(diags[0].message, "Invalid number");
    assert_eq!(diags[0].location, ErrorLocation::AtLexeme("2"));
}

#[test]
fn too_many_constants() {
    let mut src = String::from("0");
    for _ in 0..256 {
        src.push_str(" + 1");
    }
    let diags = compile(&src, &numbers_of(&src)).unwrap_err();
    assert_eq!(diags.len(), 1);
    assert_eq!(diags[0].message, "Too many constants in one chunk");

    let mut ok = String::from("0");
    for _ in 0..255 {
        ok.push_str(" + 1");
    }
    let chunk = compile(&ok, &numbers_of(&ok)).unwrap();
    assert_eq!(chunk.constants.len(), 256);
}

#[test]
fn only_the_first_error_is_reported() {
    let diags = compile("+ + +", &numbers_of("+ + +")).unwrap_err();
    assert_eq!(diags.len(), 1);
    assert_eq!(diags[0].location, ErrorLocation::AtLexeme("+"));
}

#[test]
fn each_byte_carries_its_line() {
    let src = "1 +\n2";
    let chunk = compile(src, &numbers_of(src)).unwrap();
    assert_eq!(chunk.lines, vec![1, 1, 2, 2, 2, 2]);
    let src = "-1\n";
    let chunk = compile(src, &numbers_of(src)).unwrap();
    // the constant and the negation on line 1, the return at the end of input
    assert_eq!(chunk.lines, vec![1, 1, 1, 2]);
}
