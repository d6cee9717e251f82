use crate::scanner::TokenType;
use vstd::prelude::*;

verus! {

/// Binding strength of operators, weakest first.
#[derive(Debug, Clone, Copy, PartialEq, Eq, PartialOrd, Ord)]
pub enum Precedence {
    Lowest,
    Assignment,
    Or,
    And,
    Equality,
    Comparison,
    Term,
    Factor,
    Unary,
    Call,
    Primary,
}

/// The highest level.
pub const TOP_LEVEL: u8 = 10;

impl Precedence {
    /// Position on the ladder, from 0 for `Lowest` to 10 for `Primary`.
    pub open spec fn rank(self) -> nat {
        match self {
            Precedence::Lowest => 0,
            Precedence::Assignment => 1,
            Precedence::Or => 2,
            Precedence::And => 3,
            Precedence::Equality => 4,
            Precedence::Comparison => 5,
            Precedence::Term => 6,
            Precedence::Factor => 7,
            Precedence::Unary => 8,
            Precedence::Call => 9,
            Precedence::Primary => 10,
        }
    }

    /// The level at a position, `Primary` from the top on.
    pub open spec fn spec_from_level(level: u8) -> Precedence {
        if level == 0 {
            Precedence::Lowest
        } else if level == 1 {
            Precedence::Assignment
        } else if level == 2 {
            Precedence::Or
        } else if level == 3 {
            Precedence::And
        } else if level == 4 {
            Precedence::Equality
        } else if level == 5 {
            Precedence::Comparison
        } else if level == 6 {
            Precedence::Term
        } else if level == 7 {
            Precedence::Factor
        } else if level == 8 {
            Precedence::Unary
        } else if level == 9 {
            Precedence::Call
        } else {
            Precedence::Primary
        }
    }

    pub fn level(self) -> (r: u8)
        ensures
            r == self.rank(),
    {
        match self {
            Precedence::Lowest => 0,
            Precedence::Assignment => 1,
            Precedence::Or => 2,
            Precedence::And => 3,
            Precedence::Equality => 4,
            Precedence::Comparison => 5,
            Precedence::Term => 6,
            Precedence::Factor => 7,
            Precedence::Unary => 8,
            Precedence::Call => 9,
            Precedence::Primary => 10,
        }
    }

    pub fn from_level(level: u8) -> (r: Precedence)
        ensures
            r == Precedence::spec_from_level(level),
            level <= TOP_LEVEL ==> r.rank() == level,
    {
        match level {
            0 => Precedence::Lowest,
            1 => Precedence::Assignment,
            2 => Precedence::Or,
            3 => Precedence::And,
            4 => Precedence::Equality,
            5 => Precedence::Comparison,
            6 => Precedence::Term,
            7 => Precedence::Factor,
            8 => Precedence::Unary,
            9 => Precedence::Call,
            _ => Precedence::Primary,
        }
    }

    /// One step up the ladder; `Primary` is already the top.
    pub fn increment(self) -> (r: Precedence)
        ensures
            self.rank() < TOP_LEVEL ==> r.rank() == self.rank() + 1,
            self.rank() == TOP_LEVEL ==> r == Precedence::Primary,
    {
        let l = self.level();
        if l < TOP_LEVEL {
            Precedence::from_level(l + 1)
        } else {
            Precedence::Primary
        }
    }
}

/// The parsing routines a rule can name.
#[derive(Debug, Clone, Copy, PartialEq, Eq, Structural)]
pub enum ParseFn {
    Grouping,
    Unary,
    Binary,
    Number,
    Literal,
}

/// How a token kind is parsed: at the start of an expression (`prefix`), after
/// an operand (`infix`), and how tightly it binds as an infix operator.
#[derive(Debug, Clone, Copy, PartialEq)]
pub struct ParseRule {
    pub prefix: Option<ParseFn>,
    pub infix: Option<ParseFn>,
    pub precedence: Precedence,
}

/// The rule table.
pub open spec fn rule_of(kind: TokenType) -> ParseRule {
    match kind {
        TokenType::LeftParen => ParseRule { prefix: Some(ParseFn::Grouping), infix: None, precedence: Precedence::Lowest },
        TokenType::Minus => ParseRule { prefix: Some(ParseFn::Unary), infix: Some(ParseFn::Binary), precedence: Precedence::Term },
        TokenType::Plus => ParseRule { prefix: None, infix: Some(ParseFn::Binary), precedence: Precedence::Term },
        TokenType::Slash => ParseRule { prefix: None, infix: Some(ParseFn::Binary), precedence: Precedence::Factor },
        TokenType::Star => ParseRule { prefix: None, infix: Some(ParseFn::Binary), precedence: Precedence::Factor },
        TokenType::Bang => ParseRule { prefix: Some(ParseFn::Unary), infix: None, precedence: Precedence::Lowest },
        TokenType::BangEqual => ParseRule { prefix: None, infix: Some(ParseFn::Binary), precedence: Precedence::Equality },
        TokenType::EqualEqual => ParseRule { prefix: None, infix: Some(ParseFn::Binary), precedence: Precedence::Equality },
        TokenType::Greater => ParseRule { prefix: None, infix: Some(ParseFn::Binary), precedence: Precedence::Comparison },
        TokenType::GreaterEqual => ParseRule { prefix: None, infix: Some(ParseFn::Binary), precedence: Precedence::Comparison },
        TokenType::Less => ParseRule { prefix: None, infix: Some(ParseFn::Binary), precedence: Precedence::Comparison },
        TokenType::LessEqual => ParseRule { prefix: None, infix: Some(ParseFn::Binary), precedence: Precedence::Comparison },
        TokenType::Number => ParseRule { prefix: Some(ParseFn::Number), infix: None, precedence: Precedence::Lowest },
        TokenType::False => ParseRule { prefix: Some(ParseFn::Literal), infix: None, precedence: Precedence::Lowest },
        TokenType::Nil => ParseRule { prefix: Some(ParseFn::Literal), infix: None, precedence: Precedence::Lowest },
        TokenType::True => ParseRule { prefix: Some(ParseFn::Literal), infix: None, precedence: Precedence::Lowest },
        _ => ParseRule { prefix: None, infix: None, precedence: Precedence::Lowest },
    }
}

pub fn get_rule(token_type: TokenType) -> (r: ParseRule)
    ensures
        r == rule_of(token_type),
{
    match token_type {
        TokenType::LeftParen => ParseRule { prefix: Some(ParseFn::Grouping), infix: None, precedence: Precedence::Lowest },
        TokenType::Minus => ParseRule { prefix: Some(ParseFn::Unary), infix: Some(ParseFn::Binary), precedence: Precedence::Term },
        TokenType::Plus => ParseRule { prefix: None, infix: Some(ParseFn::Binary), precedence: Precedence::Term },
        TokenType::Slash => ParseRule { prefix: None, infix: Some(ParseFn::Binary), precedence: Precedence::Factor },
        TokenType::Star => ParseRule { prefix: None, infix: Some(ParseFn::Binary), precedence: Precedence::Factor },
        TokenType::Bang => ParseRule { prefix: Some(ParseFn::Unary), infix: None, precedence: Precedence::Lowest },
        TokenType::BangEqual => ParseRule { prefix: None, infix: Some(ParseFn::Binary), precedence: Precedence::Equality },
        TokenType::EqualEqual => ParseRule { prefix: None, infix: Some(ParseFn::Binary), precedence: Precedence::Equality },
        TokenType::Greater => ParseRule { prefix: None, infix: Some(ParseFn::Binary), precedence: Precedence::Comparison },
        TokenType::GreaterEqual => ParseRule { prefix: None, infix: Some(ParseFn::Binary), precedence: Precedence::Comparison },
        TokenType::Less => ParseRule { prefix: None, infix: Some(ParseFn::Binary), precedence: Precedence::Comparison },
        TokenType::LessEqual => ParseRule { prefix: None, infix: Some(ParseFn::Binary), precedence: Precedence::Comparison },
        TokenType::Number => ParseRule { prefix: Some(ParseFn::Number), infix: None, precedence: Precedence::Lowest },
        TokenType::False => ParseRule { prefix: Some(ParseFn::Literal), infix: None, precedence: Precedence::Lowest },
        TokenType::Nil => ParseRule { prefix: Some(ParseFn::Literal), infix: None, precedence: Precedence::Lowest },
        TokenType::True => ParseRule { prefix: Some(ParseFn::Literal), infix: None, precedence: Precedence::Lowest },
        _ => ParseRule { prefix: None, infix: None, precedence: Precedence::Lowest },
    }
}

} // verus!
