use rlox::scanner::{number_literals, Scanner, Token, TokenType};

fn kinds(src: &str) -> Vec<TokenType> {
    let mut scanner = Scanner::new(src);
    let mut out = Vec::new();
    loop {
        let t = scanner.scan_token();
        out.push(t.token_type);
        if t.token_type == TokenType::Eof {
            return out;
        }
    }
}

#[test]
fn test_binary_operations() {
    let src = "1.567 * 20";
    let mut scanner = Scanner::new(src);
    let mut tokens = Vec::new();
    while !scanner.is_at_end() {
        tokens.push(scanner.scan_token());
    }
    assert_eq!(tokens.len(), 3);
    assert_eq!(tokens[0].token_type, TokenType::Number);
    assert_eq!(tokens[1].token_type, TokenType::Star);
    assert_eq!(tokens[2].token_type, TokenType::Number);
}

#[test]
fn number_lexemes() {
    let mut scanner = Scanner::new("1.567 12. 3.x");
    let t = scanner.scan_token();
    assert_eq!(t.lexeme, "1.567");
    let t = scanner.scan_token();
    assert_eq!(t.lexeme, "12");
    assert_eq!(scanner.scan_token().token_type, TokenType::Dot);
    let t = scanner.scan_token();
    assert_eq!(t.lexeme, "3");
    assert_eq!(scanner.scan_token().token_type, TokenType::Dot);
    assert_eq!(scanner.scan_token().token_type, TokenType::Identifier);
}

#[test]
fn punctuation_and_pairs() {
    assert_eq!(
        kinds("( ) { } , . - + ; / * ! != = == > >= < <="),
        vec![
            TokenType::LeftParen, TokenType::RightParen, TokenType::LeftBrace, TokenType::RightBrace, TokenType::Comma, TokenType::Dot, TokenType::Minus, TokenType::Plus, TokenType::Semicolon,
            TokenType::Slash, TokenType::Star, TokenType::Bang, TokenType::BangEqual, TokenType::Equal, TokenType::EqualEqual, TokenType::Greater, TokenType::GreaterEqual, TokenType::Less,
            TokenType::LessEqual, TokenType::Eof
        ]
    );
}

#[test]
fn keywords_and_identifiers() {
    assert_eq!(
        kinds("and class else false for fun if nil or print return super this true var while"),
        vec![
            TokenType::And, TokenType::Class, TokenType::Else, TokenType::False, TokenType::For, TokenType::Fun, TokenType::If, TokenType::Nil, TokenType::Or, TokenType::Print, TokenType::Return, TokenType::Super, TokenType::This, TokenType::True,
            TokenType::Var, TokenType::While, TokenType::Eof
        ]
    );
    assert_eq!(kinds("truth _x9 nil2"), vec![TokenType::Identifier, TokenType::Identifier, TokenType::Identifier, TokenType::Eof]);
}

#[test]
fn strings_and_lines() {
    let mut scanner = Scanner::new("\"a\nb\" x");
    let t = scanner.scan_token();
    assert_eq!(t.token_type, TokenType::String);
    assert_eq!(t.lexeme, "\"a\nb\"");
    assert_eq!(t.line, 2);
    let t = scanner.scan_token();
    assert_eq!(t.token_type, TokenType::Identifier);
    assert_eq!(t.line, 2);
}

#[test]
fn unterminated_string() {
    let mut scanner = Scanner::new("\"abc");
    let t = scanner.scan_token();
    assert_eq!(t.token_type, TokenType::Error);
    assert_eq!(t.lexeme, "Unterminated string.");
    assert_eq!(scanner.scan_token().token_type, TokenType::Eof);
}

#[test]
fn unexpected_character() {
    let mut scanner = Scanner::new("#1");
    let t = scanner.scan_token();
    assert_eq!(t.token_type, TokenType::Error);
    assert_eq!(t.lexeme, "Unexpected character.");
    assert_eq!(scanner.scan_token().token_type, TokenType::Number);
}

#[test]
fn blanks_and_comments_are_skipped() {
    let mut scanner = Scanner::new("  // a comment\n\t\r\n  // another\n  42 // tail");
    let t = scanner.scan_token();
    assert_eq!(t.token_type, TokenType::Number);
    assert_eq!(t.lexeme, "42");
    assert_eq!(t.line, 4);
    assert_eq!(scanner.scan_token().token_type, TokenType::Eof);
}

#[test]
fn empty_source_is_end() {
    assert_eq!(kinds(""), vec![TokenType::Eof]);
    assert_eq!(kinds("   \n "), vec![TokenType::Eof]);
}

#[test]
fn default_token_is_empty() {
    let t = Token::default();
    assert_eq!(t.token_type, TokenType::Empty);
    assert_eq!(t.lexeme, "");
    assert_eq!(t.line, 0);
}

#[test]
fn number_literals_in_order() {
    assert_eq!(number_literals("(1 + 2.5) * x - 30 # 4"), vec!["1", "2.5", "30", "4"]);
    assert!(number_literals("true").is_empty());
}
