use crate::chunk::{
    code_peak, peak, lemma_peak_len, spread, lemma_spread_push, all_normal, balanced, decode, encode, fits_from, lemma_decode_encode, lemma_encode_push,
    lemma_fits_concat, lemma_push_normal, Chunk, Instr,
};
use crate::opcode::OpCode;
use crate::rules::{get_rule, rule_of, ParseFn, Precedence};
use crate::scanner::{lines_from, lemma_lines_step, kinds_from, lemma_stream_step, Scanner, Token, TokenType};
use crate::syntax::{
    binary_instrs, chain, chain_ok, expr_code, leftmost, lemma_binary_rank, lemma_chain,
    lemma_chain_split, lemma_emit_fits, lemma_ops_concat, lemma_parses_lower, lemma_rebuild_parts,
    lemma_small_runs, lemma_three_tokens, lemma_tokens_plain, op_rank, ops_count, ops_tokens, rebuild,
    simple, Expr,
};
use crate::value::Value;
use vstd::prelude::*;
use vstd::slice::slice_to_vec;

verus! {

/// Where a diagnostic points.
#[derive(Debug, Clone, Copy, PartialEq)]
pub enum ErrorLocation<'src> {
    /// At the end of the input.
    AtEnd,
    /// At a token, shown by its text.
    AtLexeme(&'src str),
    /// Nowhere in particular: the scanner's own diagnostics.
    Bare,
}

/// A compile error, as reported to the user.
#[derive(Debug, Clone, Copy, PartialEq)]
pub struct Diagnostic<'src> {
    pub line: usize,
    pub location: ErrorLocation<'src>,
    pub message: &'src str,
}

/// The state of a compilation: the scanner, the chunk being filled, one token
/// of lookahead, the error flags, and the numbers that the number literals
/// stand for, in order.
pub struct Parser<'src> {
    pub scanner: Scanner<'src>,
    pub chunk: Chunk,
    pub current: Token<'src>,
    pub previous: Token<'src>,
    pub had_error: bool,
    pub panic_mode: bool,
    pub diagnostics: Vec<Diagnostic<'src>>,
    pub numbers: Vec<u64>,
    /// The kinds of the tokens moved past so far.
    pub consumed: Ghost<Seq<TokenType>>,
    /// The instructions written so far.
    pub instrs: Ghost<Seq<Instr>>,
    /// The lines of the tokens moved past so far.
    pub consumed_lines: Ghost<Seq<usize>>,
    /// The line of each instruction written so far.
    pub instr_lines: Ghost<Seq<usize>>,
}

impl<'src> Parser<'src> {
    pub open spec fn wf(&self) -> bool {
        &&& self.scanner.wf()
        &&& self.chunk.code@ == encode(self.instrs@)
        &&& all_normal(self.instrs@)
        &&& self.chunk.lines_match()
        &&& self.had_error == self.panic_mode
        &&& self.diagnostics@.len() == if self.had_error {
            1int
        } else {
            0int
        }
        &&& self.chunk.constants@.len() <= self.numbers@.len()
        &&& forall|k: int|
            0 <= k < self.chunk.constants@.len() ==> self.chunk.constants@[k] == Value::Number(
                #[trigger] self.numbers@[k],
            )
        &&& !self.had_error ==> self.chunk.constants@.len() <= 256
        &&& self.previous.token_type != TokenType::Empty ==> {
            &&& self.consumed@.len() > 0
            &&& self.consumed@.last() == self.previous.token_type
            &&& self.consumed_lines@.last() == self.previous.line
        }
        &&& self.current.token_type == TokenType::Eof ==> self.scanner.pos() == self.scanner.text().len()
        &&& self.consumed_lines@.len() == self.consumed@.len()
        &&& self.instr_lines@.len() == self.instrs@.len()
        &&& self.chunk.lines@ == spread(self.instrs@, self.instr_lines@)
    }

    /// The lines of the tokens not yet moved past, lookahead included.
    pub open spec fn tail_lines(&self) -> Seq<usize> {
        let s = self.scanner.text();
        let (pos, line) = (self.scanner.pos(), self.scanner.line_no());
        if self.current.token_type == TokenType::Empty {
            lines_from(s, pos, line)
        } else if self.current.token_type == TokenType::Eof {
            seq![self.current.line]
        } else {
            seq![self.current.line] + lines_from(s, pos, line)
        }
    }

    /// The kinds of the tokens not yet moved past, lookahead included.
    pub open spec fn tail(&self) -> Seq<TokenType> {
        let s = self.scanner.text();
        if self.current.token_type == TokenType::Empty {
            kinds_from(s, self.scanner.pos())
        } else if self.current.token_type == TokenType::Eof {
            seq![TokenType::Eof]
        } else {
            seq![self.current.token_type] + kinds_from(s, self.scanner.pos())
        }
    }

    /// The tokens moved past and those ahead make up the source's tokens.
    pub open spec fn in_step(&self) -> bool {
        &&& self.consumed@ + self.tail() == kinds_from(self.scanner.text(), 0)
        &&& self.consumed_lines@ + self.tail_lines() == lines_from(self.scanner.text(), 0, 1)
    }

    /// Shrinks with every token moved past, but for the end of input.
    pub open spec fn measure(&self) -> int {
        self.scanner.text().len() - self.scanner.pos() + if self.current.token_type
            == TokenType::Eof {
            0int
        } else {
            1int
        }
    }

    /// Everything but the error state is as in `other`.
    pub open spec fn same_but_errors(&self, other: &Parser<'src>) -> bool {
        &&& self.scanner == other.scanner
        &&& self.chunk == other.chunk
        &&& self.current == other.current
        &&& self.previous == other.previous
        &&& self.numbers == other.numbers
        &&& self.consumed == other.consumed
        &&& self.instrs == other.instrs
        &&& self.consumed_lines == other.consumed_lines
        &&& self.instr_lines == other.instr_lines
    }

    pub fn new(source: &'src str) -> (r: Parser<'src>)
        requires
            source@.len() < usize::MAX,
        ensures
            r.wf(),
            !r.had_error,
            r.in_step(),
            r.scanner.text() == source@,
            r.current.token_type == TokenType::Empty,
            r.consumed@.len() == 0,
            r.instrs@.len() == 0,
            r.numbers@.len() == 0,
            r.chunk.constants@.len() == 0,
    {
        let p = Parser {
            scanner: Scanner::new(source),
            chunk: Chunk::new("main"),
            current: Token::default(),
            previous: Token::default(),
            had_error: false,
            panic_mode: false,
            diagnostics: Vec::new(),
            numbers: Vec::new(),
            consumed: Ghost(Seq::empty()),
            instrs: Ghost(Seq::empty()),
            consumed_lines: Ghost(Seq::empty()),
            instr_lines: Ghost(Seq::empty()),
        };
        assert(p.consumed@ + p.tail() =~= kinds_from(p.scanner.text(), 0));
        assert(p.chunk.code@ =~= encode(p.instrs@));
        assert(p.consumed_lines@ + p.tail_lines() =~= lines_from(p.scanner.text(), 0, 1));
        assert(p.chunk.lines@ =~= spread(p.instrs@, p.instr_lines@));
        p
    }
}

/// The diagnostic for an error at `token`.
pub open spec fn diagnostic_at<'src>(token: Token<'src>, message: &'src str) -> Diagnostic<'src> {
    Diagnostic {
        line: token.line,
        location: if token.token_type == TokenType::Eof {
            ErrorLocation::AtEnd
        } else if token.token_type == TokenType::Error {
            ErrorLocation::Bare
        } else {
            ErrorLocation::AtLexeme(token.lexeme)
        },
        message,
    }
}

/// Reports an error at `token`, unless an error is already being reported.
pub fn error_at<'src>(parser: &mut Parser<'src>, token: Token<'src>, message: &'src str)
    requires
        old(parser).wf(),
    ensures
        final(parser).wf(),
        final(parser).had_error,
        final(parser).same_but_errors(old(parser)),
        !old(parser).had_error ==> final(parser).diagnostics@ == old(parser).diagnostics@.push(
            diagnostic_at(token, message),
        ),
        old(parser).had_error ==> final(parser).diagnostics@ == old(parser).diagnostics@,
{
    if parser.panic_mode {
        return;
    }
    parser.panic_mode = true;
    let location = if token.token_type == TokenType::Eof {
        ErrorLocation::AtEnd
    } else if token.token_type == TokenType::Error {
        ErrorLocation::Bare
    } else {
        ErrorLocation::AtLexeme(token.lexeme)
    };
    parser.diagnostics.push(Diagnostic { line: token.line, location, message });
    parser.had_error = true;
}

/// Reports an error at the token just moved past.
pub fn error<'src>(parser: &mut Parser<'src>, message: &'src str)
    requires
        old(parser).wf(),
    ensures
        final(parser).wf(),
        final(parser).had_error,
        final(parser).same_but_errors(old(parser)),
        !old(parser).had_error ==> final(parser).diagnostics@ == old(parser).diagnostics@.push(
            diagnostic_at(old(parser).previous, message),
        ),
        old(parser).had_error ==> final(parser).diagnostics@ == old(parser).diagnostics@,
{
    let token = parser.previous;
    error_at(parser, token, message);
}

/// Reports an error at the lookahead token.
pub fn error_at_current<'src>(parser: &mut Parser<'src>, message: &'src str)
    requires
        old(parser).wf(),
    ensures
        final(parser).wf(),
        final(parser).had_error,
        final(parser).same_but_errors(old(parser)),
        !old(parser).had_error ==> final(parser).diagnostics@ == old(parser).diagnostics@.push(
            diagnostic_at(old(parser).current, message),
        ),
        old(parser).had_error ==> final(parser).diagnostics@ == old(parser).diagnostics@,
{
    let token = parser.current;
    error_at(parser, token, message);
}

/// Moves past the lookahead token and scans the next one, reporting and
/// skipping the scanner's error tokens.
pub fn advance<'src>(parser: &mut Parser<'src>)
    requires
        old(parser).wf(),
    ensures
        final(parser).wf(),
        final(parser).previous == old(parser).current,
        final(parser).current.token_type != TokenType::Error,
        final(parser).current.token_type != TokenType::Empty,
        final(parser).scanner.text() == old(parser).scanner.text(),
        final(parser).chunk == old(parser).chunk,
        final(parser).instrs == old(parser).instrs,
        final(parser).numbers == old(parser).numbers,
        final(parser).consumed@ == if old(parser).current.token_type == TokenType::Empty {
            old(parser).consumed@
        } else {
            old(parser).consumed@.push(old(parser).current.token_type)
        },
        final(parser).consumed_lines@ == if old(parser).current.token_type == TokenType::Empty {
            old(parser).consumed_lines@
        } else {
            old(parser).consumed_lines@.push(old(parser).current.line)
        },
        final(parser).instr_lines == old(parser).instr_lines,
        old(parser).had_error ==> final(parser).had_error,
        final(parser).measure() <= old(parser).measure(),
        old(parser).current.token_type != TokenType::Eof ==> final(parser).measure() < old(parser).measure(),
        !final(parser).had_error && old(parser).in_step() && old(parser).current.token_type
            != TokenType::Eof ==> final(parser).in_step(),
        !old(parser).had_error && kinds_from(old(parser).scanner.text(), old(parser).scanner.pos())[0]
            != TokenType::Error ==> !final(parser).had_error,
        !final(parser).had_error && old(parser).in_step() && old(parser).current.token_type
            != TokenType::Eof && old(parser).current.token_type != TokenType::Empty ==> final(parser).tail() == old(parser).tail().drop_first(),
        !final(parser).had_error && old(parser).in_step() && old(parser).current.token_type
            == TokenType::Empty ==> final(parser).tail() == old(parser).tail(),
        !final(parser).had_error && old(parser).in_step() && old(parser).current.token_type
            != TokenType::Eof && old(parser).current.token_type != TokenType::Empty ==> final(parser).tail_lines() == old(parser).tail_lines().drop_first(),
        !final(parser).had_error && old(parser).in_step() && old(parser).current.token_type
            == TokenType::Empty ==> final(parser).tail_lines() == old(parser).tail_lines(),
{
    let ghost s = parser.scanner.text();
    let ghost from = parser.scanner.pos();
    let ghost first_pos = parser.scanner.pos();
    proof {
        parser.scanner.lemma_bounds();
    }
    parser.previous = parser.current;
    if parser.current.token_type != TokenType::Empty {
        proof {
            parser.consumed@ = parser.consumed@.push(parser.current.token_type);
            parser.consumed_lines@ = parser.consumed_lines@.push(parser.current.line);
        }
    }
    let ghost consumed1 = parser.consumed@;
    let ghost lines1 = parser.consumed_lines@;
    let ghost first_line = parser.scanner.line_no();
    let ghost had_error0 = parser.had_error;
    let mut first: bool = true;
    loop
        invariant_except_break
            first ==> parser.scanner.pos() == first_pos,
            first ==> parser.had_error == had_error0,
            first ==> parser.scanner.line_no() == first_line,
        invariant
            !first ==> kinds_from(s, first_pos)[0] == TokenType::Error,
            parser.wf(),
            parser.scanner.text() == s,
            parser.previous == old(parser).current,
            parser.chunk == old(parser).chunk,
            parser.instrs == old(parser).instrs,
            parser.numbers == old(parser).numbers,
            parser.consumed@ == consumed1,
            parser.consumed_lines@ == lines1,
            parser.instr_lines == old(parser).instr_lines,
            first_line == old(parser).scanner.line_no(),
            lines1 == if old(parser).current.token_type == TokenType::Empty {
                old(parser).consumed_lines@
            } else {
                old(parser).consumed_lines@.push(old(parser).current.line)
            },
            had_error0 ==> parser.had_error,
            had_error0 == old(parser).had_error,
            0 <= from <= parser.scanner.pos() <= s.len(),
            !first ==> parser.had_error,
            first_pos == old(parser).scanner.pos(),
            consumed1 == if old(parser).current.token_type == TokenType::Empty {
                old(parser).consumed@
            } else {
                old(parser).consumed@.push(old(parser).current.token_type)
            },
        ensures
            parser.wf(),
            parser.scanner.text() == s,
            parser.previous == old(parser).current,
            parser.chunk == old(parser).chunk,
            parser.instrs == old(parser).instrs,
            parser.numbers == old(parser).numbers,
            parser.consumed@ == consumed1,
            had_error0 ==> parser.had_error,
            parser.current.token_type != TokenType::Error,
            parser.current.token_type != TokenType::Empty,
            s.len() - parser.scanner.pos() + (if parser.current.token_type == TokenType::Eof {
                0int
            } else {
                1int
            }) <= s.len() - from,
            !parser.had_error ==> parser.tail() == kinds_from(s, first_pos),
            !parser.had_error ==> parser.tail_lines() == lines_from(s, first_pos, first_line),
            parser.consumed_lines@ == lines1,
            parser.instr_lines == old(parser).instr_lines,
            !had_error0 && kinds_from(s, first_pos)[0] != TokenType::Error ==> !parser.had_error,
        decreases s.len() - parser.scanner.pos(),
    {
        let ghost before = parser.scanner.pos();
        let ghost line_before = parser.scanner.line_no();
        proof {
            lemma_stream_step(s, before);
            lemma_lines_step(s, before, line_before);
            parser.scanner.lemma_bounds();
        }
        parser.current = parser.scanner.scan_token();
        proof {
            parser.scanner.lemma_bounds();
        }
        if parser.current.token_type != TokenType::Error {
            break;
        }
        let message = parser.current.lexeme;
        assert(first ==> kinds_from(s, first_pos)[0] == TokenType::Error);
        error_at_current(parser, message);
        first = false;
    }
    proof {
        if !parser.had_error && old(parser).in_step() && old(parser).current.token_type
            != TokenType::Eof {
            assert(parser.consumed@ + parser.tail() =~= old(parser).consumed@ + old(parser).tail());
            assert(parser.consumed_lines@ + parser.tail_lines() =~= old(parser).consumed_lines@ + old(parser).tail_lines());
            if old(parser).current.token_type == TokenType::Empty {
                assert(parser.tail() =~= old(parser).tail());
                assert(parser.tail_lines() =~= old(parser).tail_lines());
            } else {
                assert(old(parser).tail()[0] == old(parser).current.token_type);
                assert(parser.tail() =~= old(parser).tail().drop_first());
                assert(old(parser).tail_lines()[0] == old(parser).current.line);
                assert(parser.tail_lines() =~= old(parser).tail_lines().drop_first());
            }
        }
    }
}

/// What every parsing step keeps: the invariant, the source, the numbers, the
/// progress measure, and an error once reported.
pub open spec fn steps<'src>(before: &Parser<'src>, after: &Parser<'src>) -> bool {
    &&& after.wf()
    &&& after.scanner.text() == before.scanner.text()
    &&& after.numbers == before.numbers
    &&& after.measure() <= before.measure()
    &&& before.had_error ==> after.had_error
}

/// A prefix routine read the expression `e`, whose first token had been moved
/// past already, and wrote its code.
pub open spec fn prefix_done<'src>(before: &Parser<'src>, after: &Parser<'src>, e: Expr) -> bool {
    !after.had_error ==> {
        &&& after.in_step()
        &&& !(e is Binary)
        &&& e.parses_at(Precedence::Primary.rank())
        &&& e.tokens().len() > 0
        &&& e.tokens()[0] == before.previous.token_type
        &&& after.consumed@ == before.consumed@ + e.tokens().drop_first()
        &&& after.instrs@ == before.instrs@ + e.emit(before.chunk.constants@.len())
        &&& after.chunk.constants@.len() == before.chunk.constants@.len() + e.count()
        &&& after.previous.token_type != TokenType::Empty
        &&& after.consumed_lines@.take(before.consumed_lines@.len() as int) == before.consumed_lines@
        &&& after.instr_lines@ == before.instr_lines@ + e.lines(
            after.consumed_lines@.skip(before.consumed_lines@.len() - 1),
        )
    }
}

/// The parser read the expression `e`, which parses at `level`, and wrote its
/// code; the lookahead binds less tightly than `level`.
pub open spec fn parsed<'src>(before: &Parser<'src>, after: &Parser<'src>, e: Expr, level: nat) -> bool {
    !after.had_error ==> {
        &&& after.in_step()
        &&& e.parses_at(level)
        &&& after.consumed@ == before.consumed@ + e.tokens()
        &&& after.instrs@ == before.instrs@ + e.emit(before.chunk.constants@.len())
        &&& after.chunk.constants@.len() == before.chunk.constants@.len() + e.count()
        &&& rule_of(after.current.token_type).precedence.rank() < level
        &&& after.previous.token_type != TokenType::Empty
        &&& after.consumed_lines@.take(before.consumed_lines@.len() as int) == before.consumed_lines@
        &&& after.instr_lines@ == before.instr_lines@ + e.lines(
            after.consumed_lines@.skip(before.consumed_lines@.len() as int),
        )
    }
}

/// Writes one byte, marked with the line of the token just moved past.
pub fn emit_byte<'src>(parser: &mut Parser<'src>, byte: u8)
    ensures
        final(parser).chunk.code@ == old(parser).chunk.code@.push(byte),
        final(parser).chunk.lines@ == old(parser).chunk.lines@.push(old(parser).previous.line),
        final(parser).chunk.constants@ == old(parser).chunk.constants@,
        final(parser).scanner == old(parser).scanner,
        final(parser).current == old(parser).current,
        final(parser).previous == old(parser).previous,
        final(parser).had_error == old(parser).had_error,
        final(parser).panic_mode == old(parser).panic_mode,
        final(parser).diagnostics == old(parser).diagnostics,
        final(parser).numbers == old(parser).numbers,
        final(parser).consumed == old(parser).consumed,
        final(parser).instrs == old(parser).instrs,
        final(parser).consumed_lines == old(parser).consumed_lines,
        final(parser).instr_lines == old(parser).instr_lines,
{
    let line = parser.previous.line;
    parser.chunk.write(byte, line);
}

/// Writes two bytes.
pub fn emit_bytes<'src>(parser: &mut Parser<'src>, byte1: u8, byte2: u8)
    ensures
        final(parser).chunk.code@ == old(parser).chunk.code@.push(byte1).push(byte2),
        final(parser).chunk.lines@ == old(parser).chunk.lines@.push(old(parser).previous.line).push(
            old(parser).previous.line,
        ),
        final(parser).chunk.constants@ == old(parser).chunk.constants@,
        final(parser).scanner == old(parser).scanner,
        final(parser).current == old(parser).current,
        final(parser).previous == old(parser).previous,
        final(parser).had_error == old(parser).had_error,
        final(parser).panic_mode == old(parser).panic_mode,
        final(parser).diagnostics == old(parser).diagnostics,
        final(parser).numbers == old(parser).numbers,
        final(parser).consumed == old(parser).consumed,
        final(parser).instrs == old(parser).instrs,
        final(parser).consumed_lines == old(parser).consumed_lines,
        final(parser).instr_lines == old(parser).instr_lines,
{
    emit_byte(parser, byte1);
    emit_byte(parser, byte2);
}

/// Writes an instruction that takes no operand.
pub fn emit_opcode<'src>(parser: &mut Parser<'src>, op: OpCode)
    requires
        old(parser).wf(),
        op != OpCode::Constant,
    ensures
        final(parser).wf(),
        final(parser).instrs@ == old(parser).instrs@.push(simple(op)),
        final(parser).chunk.constants@ == old(parser).chunk.constants@,
        final(parser).scanner == old(parser).scanner,
        final(parser).current == old(parser).current,
        final(parser).previous == old(parser).previous,
        final(parser).had_error == old(parser).had_error,
        final(parser).numbers == old(parser).numbers,
        final(parser).consumed == old(parser).consumed,
        final(parser).consumed_lines == old(parser).consumed_lines,
        final(parser).instr_lines@ == old(parser).instr_lines@.push(old(parser).previous.line),
        final(parser).diagnostics == old(parser).diagnostics,
{
    emit_byte(parser, op.as_byte());
    proof {
        lemma_spread_push(parser.instrs@, parser.instr_lines@, simple(op), parser.previous.line);
        assert(parser.chunk.lines@ =~= spread(parser.instrs@, parser.instr_lines@) + seq![parser.previous.line]);
        parser.instr_lines@ = parser.instr_lines@.push(parser.previous.line);
        lemma_encode_push(parser.instrs@, simple(op));
        lemma_push_normal(parser.instrs@, simple(op));
        assert(parser.chunk.code@ =~= encode(parser.instrs@) + simple(op).bytes());
        parser.instrs@ = parser.instrs@.push(simple(op));
    }
}

/// Ends the chunk.
pub fn emit_return<'src>(parser: &mut Parser<'src>)
    requires
        old(parser).wf(),
    ensures
        final(parser).wf(),
        final(parser).instrs@ == old(parser).instrs@.push(simple(OpCode::Return)),
        final(parser).chunk.constants@ == old(parser).chunk.constants@,
        final(parser).scanner == old(parser).scanner,
        final(parser).current == old(parser).current,
        final(parser).previous == old(parser).previous,
        final(parser).had_error == old(parser).had_error,
        final(parser).numbers == old(parser).numbers,
        final(parser).consumed == old(parser).consumed,
        final(parser).consumed_lines == old(parser).consumed_lines,
        final(parser).instr_lines@ == old(parser).instr_lines@.push(old(parser).previous.line),
        final(parser).diagnostics == old(parser).diagnostics,
{
    emit_opcode(parser, OpCode::Return);
}

/// Adds the next number to the constant pool and returns its index; past
/// the one-byte limit it reports an error and returns 0.
pub fn make_constant<'src>(parser: &mut Parser<'src>, value: Value) -> (r: u8)
    requires
        old(parser).wf(),
        old(parser).chunk.constants@.len() < old(parser).numbers@.len(),
        value == Value::Number(old(parser).numbers@[old(parser).chunk.constants@.len() as int]),
    ensures
        final(parser).wf(),
        final(parser).chunk.constants@ == old(parser).chunk.constants@.push(value),
        final(parser).chunk.code@ == old(parser).chunk.code@,
        final(parser).chunk.lines@ == old(parser).chunk.lines@,
        final(parser).scanner == old(parser).scanner,
        final(parser).current == old(parser).current,
        final(parser).previous == old(parser).previous,
        final(parser).numbers == old(parser).numbers,
        final(parser).consumed == old(parser).consumed,
        final(parser).instrs == old(parser).instrs,
        final(parser).consumed_lines == old(parser).consumed_lines,
        final(parser).instr_lines == old(parser).instr_lines,
        old(parser).had_error ==> final(parser).had_error,
        old(parser).chunk.constants@.len() <= 255 ==> r == old(parser).chunk.constants@.len()
            && final(parser).had_error == old(parser).had_error,
        old(parser).chunk.constants@.len() > 255 ==> r == 0 && final(parser).had_error,
{
    if parser.chunk.constants.len() > 255 {
        error(parser, "Too many constants in one chunk");
        parser.chunk.add_const(value);
        return 0;
    }
    let idx = parser.chunk.add_const(value);
    idx as u8
}

/// Writes a `Constant` instruction for the next number.
pub fn emit_constant<'src>(parser: &mut Parser<'src>, value: Value)
    requires
        old(parser).wf(),
        old(parser).chunk.constants@.len() < old(parser).numbers@.len(),
        value == Value::Number(old(parser).numbers@[old(parser).chunk.constants@.len() as int]),
    ensures
        final(parser).wf(),
        final(parser).chunk.constants@ == old(parser).chunk.constants@.push(value),
        final(parser).scanner == old(parser).scanner,
        final(parser).current == old(parser).current,
        final(parser).previous == old(parser).previous,
        final(parser).numbers == old(parser).numbers,
        final(parser).consumed == old(parser).consumed,
        final(parser).consumed_lines == old(parser).consumed_lines,
        final(parser).instr_lines@ == old(parser).instr_lines@.push(old(parser).previous.line),
        old(parser).had_error ==> final(parser).had_error,
        old(parser).chunk.constants@.len() <= 255 ==> final(parser).had_error == old(parser).had_error,
        !final(parser).had_error ==> final(parser).instrs@ == old(parser).instrs@.push(
            Instr { op: OpCode::Constant, arg: old(parser).chunk.constants@.len() as u8 },
        ),
{
    let idx = make_constant(parser, value);
    emit_bytes(parser, OpCode::Constant.as_byte(), idx);
    proof {
        let i = Instr { op: OpCode::Constant, arg: idx };
        lemma_encode_push(parser.instrs@, i);
        assert(i.bytes() =~= seq![OpCode::Constant.spec_byte(), idx]);
        assert(parser.chunk.code@ =~= encode(parser.instrs@) + i.bytes());
        lemma_push_normal(parser.instrs@, i);
        lemma_spread_push(parser.instrs@, parser.instr_lines@, i, parser.previous.line);
        assert(parser.chunk.lines@ =~= spread(parser.instrs@, parser.instr_lines@) + seq![parser.previous.line, parser.previous.line]);
        parser.instr_lines@ = parser.instr_lines@.push(parser.previous.line);
        parser.instrs@ = parser.instrs@.push(i);
    }
}

/// Moves past the lookahead when it is of `kind`; reports `message` otherwise.
pub fn consume<'src>(parser: &mut Parser<'src>, token_type: TokenType, message: &'src str) -> (r: bool)
    requires
        old(parser).wf(),
        token_type != TokenType::Eof,
        token_type != TokenType::Empty,
    ensures
        steps(old(parser), final(parser)),
        r == (old(parser).current.token_type == token_type),
        final(parser).chunk == old(parser).chunk,
        final(parser).instrs == old(parser).instrs,
        r ==> final(parser).consumed@ == old(parser).consumed@.push(token_type),
        r ==> final(parser).previous == old(parser).current,
        r ==> final(parser).consumed_lines@ == old(parser).consumed_lines@.push(old(parser).current.line),
        final(parser).instr_lines == old(parser).instr_lines,
        r ==> final(parser).measure() < old(parser).measure(),
        !r ==> final(parser).had_error,
        old(parser).current.token_type != TokenType::Empty ==> final(parser).current.token_type
            != TokenType::Empty,
        !final(parser).had_error && old(parser).in_step() ==> final(parser).in_step(),
        r && !old(parser).had_error && old(parser).in_step() && old(parser).tail().len() >= 2 && old(parser).tail()[1] != TokenType::Error ==> !final(parser).had_error && final(parser).tail() == old(parser).tail().drop_first() && final(parser).tail_lines() == old(parser).tail_lines().drop_first(),
{
    if parser.current.token_type == token_type {
        advance(parser);
        return true;
    }
    error_at_current(parser, message);
    false
}

/// The first token of `follow` ends an expression at `level`: it is not an
/// operator binding that tightly, nor an error.
pub open spec fn ends_at(follow: Seq<TokenType>, level: nat) -> bool {
    &&& follow.len() > 0
    &&& follow[0] != TokenType::Error
    &&& follow[0] != TokenType::Empty
    &&& op_rank(follow[0]) < level
}

/// The pool and the numbers have room for the literals of `e`.
pub open spec fn room_for<'src>(p: &Parser<'src>, e: Expr) -> bool {
    &&& p.chunk.constants@.len() + e.count() <= 256
    &&& p.chunk.constants@.len() + e.count() <= p.numbers@.len()
}

/// Nothing has gone wrong, and the tokens ahead are those of `e`, which
/// parses at `level`, then `follow`, which ends it.
pub open spec fn aims_at<'src>(p: &Parser<'src>, e: Expr, follow: Seq<TokenType>, level: nat) -> bool {
    &&& !p.had_error
    &&& p.in_step()
    &&& p.current.token_type != TokenType::Empty
    &&& p.tail() == e.tokens() + follow
    &&& e.parses_at(level)
    &&& 1 <= level <= Precedence::Unary.rank()
    &&& ends_at(follow, level)
    &&& room_for(p, e)
}

/// As `aims_at`, for a prefix routine: the first token of the operand `e` was
/// just moved past.
pub open spec fn aims_prefix<'src>(p: &Parser<'src>, e: Expr, follow: Seq<TokenType>) -> bool {
    &&& !p.had_error
    &&& p.in_step()
    &&& p.current.token_type != TokenType::Empty
    &&& !(e is Binary)
    &&& e.parses_at(Precedence::Primary.rank())
    &&& e.tokens().len() > 0
    &&& p.previous.token_type == e.tokens()[0]
    &&& p.tail() == e.tokens().drop_first() + follow
    &&& ends_at(follow, Precedence::Unary.rank())
    &&& room_for(p, e)
}

/// With the lookahead in step, the token after it is the second of the tail.
pub proof fn lemma_next_kind<'src>(p: &Parser<'src>)
    requires
        p.wf(),
        p.current.token_type != TokenType::Empty,
        p.current.token_type != TokenType::Eof,
    ensures
        p.tail()[0] == p.current.token_type,
        p.tail().len() >= 1,
        p.tail().drop_first() == kinds_from(p.scanner.text(), p.scanner.pos()),
{
    assert(p.tail().drop_first() =~= kinds_from(p.scanner.text(), p.scanner.pos()));
}

/// The first token of an operand names the prefix routine that reads it.
pub proof fn lemma_prefix_kind(e: Expr)
    requires
        !(e is Binary),
        e.parses_at(Precedence::Primary.rank()),
    ensures
        e.tokens().len() > 0,
        e is Number <==> rule_of(e.tokens()[0]).prefix == Some(ParseFn::Number),
        e is Literal <==> rule_of(e.tokens()[0]).prefix == Some(ParseFn::Literal),
        e is Group <==> rule_of(e.tokens()[0]).prefix == Some(ParseFn::Grouping),
        e is Unary <==> rule_of(e.tokens()[0]).prefix == Some(ParseFn::Unary),
        e is Literal ==> e == Expr::Literal(e.tokens()[0]),
{
}

/// Before the first token of an expression is moved past: what follows its
/// leftmost operand ends an operand, and the token after the lookahead is
/// no error.
pub proof fn lemma_head<'src>(p: &Parser<'src>, e: Expr, follow: Seq<TokenType>, level: nat)
    requires
        p.wf(),
        aims_at(p, e, follow, level),
    ensures
        ({
            let head = leftmost(e);
            let ops = chain(e);
            let head_follow = ops_tokens(ops) + follow;
            &&& rebuild(head, ops) == e
            &&& chain_ok(ops, level)
            &&& !(head is Binary)
            &&& head.parses_at(Precedence::Primary.rank())
            &&& e.count() == head.count() + ops_count(ops)
            &&& p.tail() == head.tokens() + head_follow
            &&& ends_at(head_follow, Precedence::Unary.rank())
            &&& p.tail().len() >= 2
            &&& p.tail()[1] != TokenType::Error
            &&& p.current.token_type != TokenType::Eof
            &&& p.tail().drop_first() == kinds_from(p.scanner.text(), p.scanner.pos())
            &&& head.tokens().len() > 0
            &&& p.tail()[0] == p.current.token_type
            &&& p.tail()[0] == head.tokens()[0]
        }),
{
    let head = leftmost(e);
    let ops = chain(e);
    let head_follow = ops_tokens(ops) + follow;
    lemma_chain(e, level);
    lemma_rebuild_parts(head, ops);
    lemma_tokens_plain(head, Precedence::Primary.rank());
    assert(p.tail() =~= head.tokens() + head_follow);
    if ops.len() > 0 {
        lemma_chain_split(head, ops, 0);
        assert(ops.skip(0) =~= ops);
        assert(head_follow[0] == ops[0].0);
    } else {
        assert(head_follow =~= follow);
    }
    assert(p.tail()[0] == head.tokens()[0]);
    lemma_next_kind(p);
    if head.tokens().len() >= 2 {
        assert(p.tail()[1] == head.tokens()[1]);
    } else {
        assert(p.tail()[1] == head_follow[0]);
    }
}

/// One turn of the operator loop: the lookahead is the `j`-th operator, the
/// token after it starts its right operand, and what follows that operand
/// ends it.
pub proof fn lemma_turn<'src>(
    p: &Parser<'src>,
    head: Expr,
    ops: Seq<(TokenType, Expr)>,
    follow: Seq<TokenType>,
    level: nat,
    j: int,
)
    requires
        p.wf(),
        p.current.token_type != TokenType::Empty,
        p.in_step(),
        0 <= j <= ops.len(),
        p.tail() == ops_tokens(ops.skip(j)) + follow,
        chain_ok(ops, level),
        ends_at(follow, level),
        1 <= level,
    ensures
        j == ops.len() ==> rule_of(p.current.token_type).precedence.rank() < level,
        j < ops.len() ==> {
            let right_follow = ops_tokens(ops.skip(j + 1)) + follow;
            &&& p.current.token_type == ops[j].0
            &&& level <= rule_of(p.current.token_type).precedence.rank()
            &&& p.current.token_type != TokenType::Eof
            &&& p.tail().len() >= 2
            &&& p.tail()[1] != TokenType::Error
            &&& p.tail().drop_first() == ops[j].1.tokens() + right_follow
            &&& p.tail().drop_first() == kinds_from(p.scanner.text(), p.scanner.pos())
            &&& ends_at(right_follow, op_rank(ops[j].0) + 1)
            &&& op_rank(ops[j].0) + 1 <= Precedence::Unary.rank()
        },
{
    if j == ops.len() {
        assert(ops.skip(j) =~= Seq::<(TokenType, Expr)>::empty());
        assert(p.tail() =~= follow);
        if p.current.token_type != TokenType::Eof {
            lemma_next_kind(p);
        }
    } else {
        let right = ops[j].1;
        let right_follow = ops_tokens(ops.skip(j + 1)) + follow;
        lemma_chain_split(head, ops, j);
        lemma_tokens_plain(right, op_rank(ops[j].0) + 1);
        assert(p.tail() =~= seq![ops[j].0] + (right.tokens() + right_follow));
        assert(p.tail()[0] == ops[j].0);
        lemma_next_kind(p);
        assert(p.tail().drop_first() =~= right.tokens() + right_follow);
        assert(p.tail()[1] == right.tokens()[0]);
        if j + 1 < ops.len() {
            lemma_chain_split(head, ops, j + 1);
            assert(right_follow[0] == ops[j + 1].0);
        } else {
            assert(ops.skip(j + 1) =~= Seq::<(TokenType, Expr)>::empty());
            assert(right_follow =~= follow);
        }
    }
}

/// Compiles an expression: everything down to the loosest operator.
pub fn expression<'src>(parser: &mut Parser<'src>, target: Ghost<Expr>, follow: Ghost<Seq<TokenType>>) -> (e: Ghost<Expr>)
    requires
        old(parser).wf(),
        !old(parser).had_error ==> old(parser).in_step(),
    ensures
        steps(old(parser), final(parser)),
        final(parser).current.token_type != TokenType::Empty,
        parsed(old(parser), final(parser), e@, Precedence::Assignment.rank()),
        aims_at(old(parser), target@, follow@, Precedence::Assignment.rank()) ==> !final(parser).had_error
            && e@ == target@ && final(parser).tail() == follow@,
    decreases old(parser).measure(), 1int,
{
    parse_precedence(parser, Precedence::Assignment, target, follow)
}

/// Compiles a number literal into a `Constant` for the next number.
pub fn number<'src>(parser: &mut Parser<'src>) -> (e: Ghost<Expr>)
    requires
        old(parser).wf(),
        !old(parser).had_error ==> old(parser).in_step(),
        old(parser).previous.token_type == TokenType::Number,
    ensures
        steps(old(parser), final(parser)),
        prefix_done(old(parser), final(parser), e@),
        e@ == Expr::Number,
        final(parser).tail() == old(parser).tail(),
        final(parser).current == old(parser).current,
        aims_prefix(old(parser), Expr::Number, old(parser).tail()) ==> !final(parser).had_error,
{
    let k = parser.chunk.constants.len();
    if k < parser.numbers.len() {
        let value = Value::Number(parser.numbers[k]);
        emit_constant(parser, value);
    } else {
        let token = parser.previous;
        error_at(parser, token, "Invalid number");
    }
    proof {
        if !parser.had_error {
            assert(Expr::Number.tokens().drop_first() =~= Seq::<TokenType>::empty());
            assert(parser.consumed@ =~= old(parser).consumed@ + Expr::Number.tokens().drop_first());
            assert(parser.instrs@ =~= old(parser).instrs@ + Expr::Number.emit(
                old(parser).chunk.constants@.len(),
            ));
            let cl = parser.consumed_lines@;
            assert(cl.take(cl.len() as int) =~= cl);
            assert(Expr::Number.lines(cl.skip(cl.len() - 1)) =~= seq![parser.previous.line]);
            assert(parser.instr_lines@ =~= old(parser).instr_lines@ + Expr::Number.lines(
                cl.skip(cl.len() - 1),
            ));
        }
    }
    Ghost(Expr::Number)
}

/// Compiles `true`, `false` or `nil`.
pub fn literal<'src>(parser: &mut Parser<'src>) -> (e: Ghost<Expr>)
    requires
        old(parser).wf(),
        !old(parser).had_error ==> old(parser).in_step(),
        old(parser).previous.token_type == TokenType::True || old(parser).previous.token_type
            == TokenType::False || old(parser).previous.token_type == TokenType::Nil,
    ensures
        steps(old(parser), final(parser)),
        prefix_done(old(parser), final(parser), e@),
        e@ == Expr::Literal(old(parser).previous.token_type),
        final(parser).tail() == old(parser).tail(),
        final(parser).current == old(parser).current,
        final(parser).had_error == old(parser).had_error,
{
    let kind = parser.previous.token_type;
    if kind == TokenType::True {
        emit_opcode(parser, OpCode::True);
    } else if kind == TokenType::False {
        emit_opcode(parser, OpCode::False);
    } else {
        emit_opcode(parser, OpCode::Nil);
    }
    let ghost e = Expr::Literal(kind);
    proof {
        assert(e.tokens().drop_first() =~= Seq::<TokenType>::empty());
        assert(parser.consumed@ =~= old(parser).consumed@ + e.tokens().drop_first());
        assert(parser.instrs@ =~= old(parser).instrs@ + e.emit(old(parser).chunk.constants@.len()));
        let cl = parser.consumed_lines@;
        assert(cl.take(cl.len() as int) =~= cl);
        assert(e.lines(cl.skip(cl.len() - 1)) =~= seq![parser.previous.line]);
        assert(parser.instr_lines@ =~= old(parser).instr_lines@ + e.lines(cl.skip(cl.len() - 1)));
    }
    Ghost(e)
}

/// Compiles a parenthesized expression whose `(` was just moved past.
pub fn grouping<'src>(parser: &mut Parser<'src>, target: Ghost<Expr>, follow: Ghost<Seq<TokenType>>) -> (e: Ghost<Expr>)
    requires
        old(parser).wf(),
        !old(parser).had_error ==> old(parser).in_step(),
        old(parser).previous.token_type == TokenType::LeftParen,
    ensures
        steps(old(parser), final(parser)),
        prefix_done(old(parser), final(parser), e@),
        final(parser).current.token_type != TokenType::Empty,
        aims_prefix(old(parser), target@, follow@) ==> !final(parser).had_error && e@ == target@
            && final(parser).tail() == follow@,
    decreases old(parser).measure(), 2int,
{
    let ghost aim = aims_prefix(&*parser, target@, follow@);
    let ghost inner_target = match target@ {
        Expr::Group(x) => *x,
        _ => Expr::Number,
    };
    let ghost inner_follow = seq![TokenType::RightParen] + follow@;
    proof {
        if aim {
            assert(target@ is Group);
            assert(parser.tail() =~= inner_target.tokens() + inner_follow);
        }
    }
    let inner = expression(parser, Ghost(inner_target), Ghost(inner_follow));
    let ghost mid_lines = parser.consumed_lines@;
    proof {
        if aim {
            assert(parser.tail()[0] == TokenType::RightParen);
            lemma_next_kind(&*parser);
            assert(parser.tail().drop_first() =~= follow@);
        }
    }
    consume(parser, TokenType::RightParen, "Expect ')' after expression");
    let ghost e = Expr::Group(Box::new(inner@));
    proof {
        if !parser.had_error {
            assert(e.tokens().drop_first() =~= inner@.tokens() + seq![TokenType::RightParen]);
            assert(parser.consumed@ =~= old(parser).consumed@ + e.tokens().drop_first());
            let n0 = old(parser).consumed_lines@.len() as int;
            let cl = parser.consumed_lines@;
            assert(cl.take(n0) =~= mid_lines.take(n0));
            assert(cl.skip(n0 - 1).subrange(1, cl.skip(n0 - 1).len() - 1) =~= mid_lines.skip(n0));
        }
    }
    Ghost(e)
}

/// Compiles `-x` or `!x` whose operator was just moved past.
pub fn unary<'src>(parser: &mut Parser<'src>, target: Ghost<Expr>, follow: Ghost<Seq<TokenType>>) -> (e: Ghost<Expr>)
    requires
        old(parser).wf(),
        !old(parser).had_error ==> old(parser).in_step(),
        old(parser).previous.token_type == TokenType::Minus || old(parser).previous.token_type
            == TokenType::Bang,
    ensures
        steps(old(parser), final(parser)),
        prefix_done(old(parser), final(parser), e@),
        final(parser).current.token_type != TokenType::Empty,
        aims_prefix(old(parser), target@, follow@) ==> !final(parser).had_error && e@ == target@
            && final(parser).tail() == follow@,
    decreases old(parser).measure(), 2int,
{
    let ghost aim = aims_prefix(&*parser, target@, follow@);
    let ghost inner_target = match target@ {
        Expr::Unary(_, x) => *x,
        _ => Expr::Number,
    };
    proof {
        if aim {
            assert(target@ is Unary);
            assert(parser.tail() =~= inner_target.tokens() + follow@);
        }
    }
    let operator_type = parser.previous.token_type;
    let inner = parse_precedence(parser, Precedence::Unary, Ghost(inner_target), follow);
    let ghost mid_instr_lines = parser.instr_lines@;
    if operator_type == TokenType::Minus {
        emit_opcode(parser, OpCode::Negate);
    } else {
        emit_opcode(parser, OpCode::Not);
    }
    let ghost e = Expr::Unary(operator_type, Box::new(inner@));
    proof {
        if !parser.had_error {
            assert(e.tokens().drop_first() =~= inner@.tokens());
            assert(parser.consumed@ =~= old(parser).consumed@ + e.tokens().drop_first());
            assert(parser.instrs@ =~= old(parser).instrs@ + e.emit(
                old(parser).chunk.constants@.len(),
            ));
            let n0 = old(parser).consumed_lines@.len() as int;
            let cl = parser.consumed_lines@;
            let ls = cl.skip(n0 - 1);
            assert(ls.drop_first() =~= cl.skip(n0));
            assert(ls.last() == cl.last());
            assert(parser.instr_lines@ =~= mid_instr_lines.push(cl.last()));
            assert(parser.instr_lines@ =~= old(parser).instr_lines@ + e.lines(ls));
        }
    }
    Ghost(e)
}

/// Compiles the right operand of the binary operator just moved past, then
/// the operator; the result is the right operand.
pub fn binary<'src>(parser: &mut Parser<'src>, target: Ghost<Expr>, follow: Ghost<Seq<TokenType>>) -> (right: Ghost<Expr>)
    requires
        old(parser).wf(),
        !old(parser).had_error ==> old(parser).in_step(),
        rule_of(old(parser).previous.token_type).infix == Some(ParseFn::Binary),
    ensures
        steps(old(parser), final(parser)),
        !final(parser).had_error ==> {
            let op = old(parser).previous.token_type;
            &&& final(parser).in_step()
            &&& right@.parses_at(op_rank(op) + 1)
            &&& final(parser).consumed@ == old(parser).consumed@ + right@.tokens()
            &&& final(parser).instrs@ == old(parser).instrs@ + right@.emit(
                old(parser).chunk.constants@.len(),
            ) + binary_instrs(op)
            &&& final(parser).chunk.constants@.len() == old(parser).chunk.constants@.len()
                + right@.count()
            &&& rule_of(final(parser).current.token_type).precedence.rank() < op_rank(op) + 1
            &&& final(parser).previous.token_type != TokenType::Empty
            &&& final(parser).consumed_lines@.take(old(parser).consumed_lines@.len() as int) == old(parser).consumed_lines@
            &&& final(parser).instr_lines@ == old(parser).instr_lines@ + right@.lines(
                final(parser).consumed_lines@.skip(old(parser).consumed_lines@.len() as int),
            ) + Seq::new(binary_instrs(op).len(), |_i: int| final(parser).consumed_lines@.last())
        },
        aims_at(old(parser), target@, follow@, op_rank(old(parser).previous.token_type) + 1)
            ==> !final(parser).had_error && right@ == target@ && final(parser).tail() == follow@,
        final(parser).current.token_type != TokenType::Empty,
    decreases old(parser).measure(), 2int,
{
    let operator_type = parser.previous.token_type;
    let rule = get_rule(operator_type);
    let right = parse_precedence(parser, rule.precedence.increment(), target, follow);
    let ghost mid = parser.instrs@;
    let ghost mid_lines = parser.instr_lines@;
    let ghost l = parser.previous.line;
    if operator_type == TokenType::Plus {
        emit_opcode(parser, OpCode::Add);
    } else if operator_type == TokenType::Minus {
        emit_opcode(parser, OpCode::Subtract);
    } else if operator_type == TokenType::Star {
        emit_opcode(parser, OpCode::Multiply);
    } else if operator_type == TokenType::Slash {
        emit_opcode(parser, OpCode::Divide);
    } else if operator_type == TokenType::EqualEqual {
        emit_opcode(parser, OpCode::Equal);
    } else if operator_type == TokenType::BangEqual {
        emit_opcode(parser, OpCode::Equal);
        emit_opcode(parser, OpCode::Not);
    } else if operator_type == TokenType::Greater {
        emit_opcode(parser, OpCode::Greater);
    } else if operator_type == TokenType::GreaterEqual {
        emit_opcode(parser, OpCode::Less);
        emit_opcode(parser, OpCode::Not);
    } else if operator_type == TokenType::Less {
        emit_opcode(parser, OpCode::Less);
    } else {
        emit_opcode(parser, OpCode::Greater);
        emit_opcode(parser, OpCode::Not);
    }
    assert(parser.instrs@ =~= mid + binary_instrs(operator_type));
    proof {
        if !parser.had_error {
            assert(l == parser.consumed_lines@.last());
            if binary_instrs(operator_type).len() == 1 {
                assert(parser.instr_lines@ =~= mid_lines.push(l));
            } else {
                assert(parser.instr_lines@ =~= mid_lines.push(l).push(l));
            }
            assert(parser.instr_lines@ =~= mid_lines + Seq::new(
                binary_instrs(operator_type).len(),
                |_i: int| parser.consumed_lines@.last(),
            ));
        }
    }
    right
}

/// Compiles an expression whose operators bind at least as tightly as
/// `precedence`.
#[verifier::rlimit(100)]
pub fn parse_precedence<'src>(
    parser: &mut Parser<'src>,
    precedence: Precedence,
    target: Ghost<Expr>,
    follow: Ghost<Seq<TokenType>>,
) -> (e: Ghost<Expr>)
    requires
        old(parser).wf(),
        !old(parser).had_error ==> old(parser).in_step(),
    ensures
        steps(old(parser), final(parser)),
        final(parser).current.token_type != TokenType::Empty,
        parsed(old(parser), final(parser), e@, precedence.rank()),
        aims_at(old(parser), target@, follow@, precedence.rank()) ==> !final(parser).had_error && e@
            == target@ && final(parser).tail() == follow@,
    decreases old(parser).measure(), 0int,
{
    let ghost c0 = parser.consumed@;
    let ghost i0 = parser.instrs@;
    let ghost b0 = parser.chunk.constants@.len();
    let ghost m0 = parser.measure();
    let ghost n0 = parser.consumed_lines@.len() as int;
    let ghost cl0 = parser.consumed_lines@;
    let ghost il0 = parser.instr_lines@;
    let ghost aim = aims_at(&*parser, target@, follow@, precedence.rank());
    let ghost head = leftmost(target@);
    let ghost ops = chain(target@);
    let ghost head_follow = ops_tokens(ops) + follow@;
    proof {
        if aim {
            lemma_head(&*parser, target@, follow@, precedence.rank());
            lemma_prefix_kind(head);
        }
    }
    advance(parser);
    let ghost cl_adv = parser.consumed_lines@;
    proof {
        parser.scanner.lemma_bounds();
        if aim {
            assert(parser.tail() =~= head.tokens().drop_first() + head_follow);
            assert(aims_prefix(&*parser, head, head_follow));
        }
    }
    let rule = get_rule(parser.previous.token_type);
    let first = match rule.prefix {
        Some(ParseFn::Grouping) => grouping(parser, Ghost(head), Ghost(head_follow)),
        Some(ParseFn::Unary) => unary(parser, Ghost(head), Ghost(head_follow)),
        Some(ParseFn::Number) => number(parser),
        Some(ParseFn::Literal) => literal(parser),
        _ => {
            error(parser, "Expect expression");
            return Ghost(Expr::Number);
        },
    };
    let ghost mut left: Expr = first@;
    let ghost mut bound: nat = Precedence::Primary.rank();
    let ghost mut j: int = 0;
    proof {
        if !parser.had_error {
            assert(parser.consumed_lines@.take(n0) =~= cl_adv.take(n0));
            assert(cl_adv.take(n0) =~= cl0);
            assert(c0.push(first@.tokens()[0]) + first@.tokens().drop_first() =~= c0 + first@.tokens());
        }
        if aim {
            assert(first@ == head);
            assert(ops.skip(0) =~= ops);
            assert(ops.take(0) =~= Seq::<(TokenType, Expr)>::empty());
        }
    }
    while precedence.level() <= get_rule(parser.current.token_type).precedence.level()
        invariant
            parser.wf(),
            parser.scanner.text() == old(parser).scanner.text(),
            parser.numbers == old(parser).numbers,
            parser.measure() < m0,
            m0 == old(parser).measure(),
            n0 == old(parser).consumed_lines@.len(),
            c0.len() == n0,
            cl0 == old(parser).consumed_lines@,
            il0 == old(parser).instr_lines@,
            old(parser).had_error ==> parser.had_error,
            c0 == old(parser).consumed@,
            i0 == old(parser).instrs@,
            b0 == old(parser).chunk.constants@.len(),
            aim == aims_at(old(parser), target@, follow@, precedence.rank()),
            parser.current.token_type != TokenType::Empty,
            head == leftmost(target@),
            ops == chain(target@),
            !parser.had_error ==> {
                &&& parser.in_step()
                &&& left.parses_at(bound)
                &&& precedence.rank() <= bound <= Precedence::Primary.rank()
                &&& rule_of(parser.current.token_type).precedence.rank() <= bound
                &&& parser.consumed@ == c0 + left.tokens()
                &&& parser.instrs@ == i0 + left.emit(b0)
                &&& parser.chunk.constants@.len() == b0 + left.count()
                &&& parser.previous.token_type != TokenType::Empty
                &&& parser.consumed_lines@.take(n0) == cl0
                &&& parser.instr_lines@ == il0 + left.lines(parser.consumed_lines@.skip(n0))
            },
            aim ==> {
                &&& !parser.had_error
                &&& 0 <= j <= ops.len()
                &&& left == rebuild(head, ops.take(j))
                &&& parser.tail() == ops_tokens(ops.skip(j)) + follow@
                &&& chain_ok(ops, precedence.rank())
                &&& target@.count() == head.count() + ops_count(ops)
                &&& rebuild(head, ops) == target@
                &&& ends_at(follow@, precedence.rank())
                &&& 1 <= precedence.rank()
                &&& b0 + target@.count() <= 256
                &&& b0 + target@.count() <= parser.numbers@.len()
            },
        decreases parser.measure(),
    {
        let ghost cl_prev = parser.consumed_lines@;
        let ghost right_target = if 0 <= j < ops.len() {
            ops[j].1
        } else {
            Expr::Number
        };
        let ghost right_follow = ops_tokens(ops.skip(j + 1)) + follow@;
        proof {
            if aim {
                lemma_turn(&*parser, head, ops, follow@, precedence.rank(), j);
                lemma_chain_split(head, ops, j);
                lemma_rebuild_parts(head, ops.take(j));
                lemma_ops_concat(ops.take(j), ops.skip(j));
                assert(ops.take(j) + ops.skip(j) =~= ops);
            }
        }
        advance(parser);
        let ghost cl1 = parser.consumed_lines@;
        proof {
            parser.scanner.lemma_bounds();
            if aim {
                assert(aims_at(&*parser, right_target, right_follow, op_rank(ops[j].0) + 1));
            }
        }
        let rule = get_rule(parser.previous.token_type);
        match rule.infix {
            Some(ParseFn::Binary) => {
                let op = parser.previous.token_type;
                let right = binary(parser, Ghost(right_target), Ghost(right_follow));
                proof {
                    parser.scanner.lemma_bounds();
                    if !parser.had_error {
                        lemma_parses_lower(left, op_rank(op), bound);
                        let next = Expr::Binary(op, Box::new(left), Box::new(right@));
                        lemma_tokens_plain(right@, op_rank(op) + 1);
                        assert(cl1.take(cl_prev.len() as int) =~= cl_prev);
                        assert(c0.len() == n0);
                        assert(cl_prev.len() == n0 + left.tokens().len());
                        lemma_grow_lines(left, op, right@, cl_prev, cl1, parser.consumed_lines@, n0);
                        assert(parser.instr_lines@ =~= il0 + next.lines(parser.consumed_lines@.skip(n0)));
                        assert(parser.consumed@ =~= c0 + next.tokens());
                        assert(parser.instrs@ =~= i0 + next.emit(b0));
                        left = next;
                        bound = op_rank(op);
                    }
                    if aim {
                        j = j + 1;
                    }
                }
            },
            _ => {
                error(parser, "Expected infix operator");
                return Ghost(left);
            },
        }
    }
    proof {
        if !parser.had_error {
            lemma_parses_lower(left, precedence.rank(), bound);
        }
        if aim {
            lemma_turn(&*parser, head, ops, follow@, precedence.rank(), j);
            assert(ops.take(j) =~= ops);
            assert(ops.skip(j) =~= Seq::<(TokenType, Expr)>::empty());
            assert(parser.tail() =~= follow@);
        }
    }
    Ghost(left)
}

/// The lines of `left op right` are those of `left`, then those of `right`,
/// then the line of the last token for each instruction of `op`.
proof fn lemma_grow_lines(
    left: Expr,
    op: TokenType,
    right: Expr,
    before: Seq<usize>,
    mid: Seq<usize>,
    after: Seq<usize>,
    n0: int,
)
    requires
        0 <= n0 <= before.len(),
        before.len() == n0 + left.tokens().len(),
        mid.len() == before.len() + 1,
        mid.take(before.len() as int) == before,
        mid.len() <= after.len(),
        after.take(mid.len() as int) == mid,
    ensures
        after.take(n0) == before.take(n0),
        Expr::Binary(op, Box::new(left), Box::new(right)).lines(after.skip(n0)) == left.lines(
            before.skip(n0),
        ) + right.lines(after.skip(mid.len() as int)) + Seq::new(
            binary_instrs(op).len(),
            |_i: int| after.last(),
        ),
{
    let ls = after.skip(n0);
    let n = left.tokens().len() as int;
    assert(after.take(n0) =~= before.take(n0)) by {
        assert forall|i: int| 0 <= i < n0 implies after.take(n0)[i] == before.take(n0)[i] by {
            assert(after[i] == after.take(mid.len() as int)[i]);
            assert(mid[i] == mid.take(before.len() as int)[i]);
        }
    }
    assert(ls.take(n) =~= before.skip(n0)) by {
        assert forall|i: int| 0 <= i < n implies ls.take(n)[i] == before.skip(n0)[i] by {
            assert(after[n0 + i] == after.take(mid.len() as int)[n0 + i]);
            assert(mid[n0 + i] == mid.take(before.len() as int)[n0 + i]);
        }
    }
    assert(ls.subrange(n + 1, ls.len() as int) =~= after.skip(mid.len() as int));
    assert(ls.last() == after.last());
}

/// The source is one well-formed expression `e`, there are numbers for its
/// literals and pool slots for them, and its code never holds more than 256
/// values on the stack.
pub open spec fn valid_source(source: Seq<char>, numbers: Seq<u64>, e: Expr) -> bool {
    &&& e.parses_at(Precedence::Assignment.rank())
    &&& kinds_from(source, 0) == e.tokens().push(TokenType::Eof)
    &&& e.count() <= 256
    &&& e.count() <= numbers.len()
    &&& peak(e.emit(0).push(simple(OpCode::Return))) <= 256
}

/// The source is a well-formed expression `e` followed by more tokens, the
/// first of which is no operator, no error and not the end of input.
pub open spec fn trailing_source(source: Seq<char>, numbers: Seq<u64>, e: Expr, rest: Seq<TokenType>) -> bool {
    &&& e.parses_at(Precedence::Assignment.rank())
    &&& kinds_from(source, 0) == e.tokens() + rest
    &&& ends_at(rest, Precedence::Assignment.rank())
    &&& rest[0] != TokenType::Eof
    &&& e.count() <= 256
    &&& e.count() <= numbers.len()
}

/// The chunk compiled from a source holds the code of its expression `e`,
/// then `Return`; its pool holds the source's numbers in order. Each byte
/// carries the line of the last token read when it was written; `Return`
/// carries the line of the end of input.
pub open spec fn compiled_from(source: Seq<char>, numbers: Seq<u64>, e: Expr, chunk: Chunk) -> bool {
    &&& valid_source(source, numbers, e)
    &&& chunk.code@ == encode(e.emit(0).push(simple(OpCode::Return)))
    &&& decode(chunk.code@) == Some(e.emit(0).push(simple(OpCode::Return)))
    &&& chunk.code@.len() > 0
    &&& chunk.code@.last() == OpCode::Return.spec_byte()
    &&& chunk.lines_match()
    &&& chunk.lines@ == spread(
        e.emit(0).push(simple(OpCode::Return)),
        e.lines(lines_from(source, 0, 1).drop_last()).push(lines_from(source, 0, 1).last()),
    )
    &&& chunk.constants@.len() == e.count()
    &&& forall|k: int| 0 <= k < e.count() ==> chunk.constants@[k] == Value::Number(#[trigger] numbers[k])
}

/// Compiles a source holding one expression. The `k`-th number literal
/// stands for `numbers[k]`. It succeeds exactly on the sources that spell one
/// well-formed expression with numbers and pool slots for its literals; on
/// failure the one diagnostic reported is returned.
pub fn compile<'src>(source: &'src str, numbers: &[u64]) -> (r: Result<Chunk, Vec<Diagnostic<'src>>>)
    requires
        source@.len() < usize::MAX,
    ensures
        (r is Ok) == (exists|e: Expr| valid_source(source@, numbers@, e)),
        match r {
            Ok(chunk) => exists|e: Expr| #[trigger] compiled_from(source@, numbers@, e, chunk),
            Err(diagnostics) => diagnostics@.len() == 1,
        },
        (exists|e: Expr, rest: Seq<TokenType>| trailing_source(source@, numbers@, e, rest)) && !(exists|e: Expr| valid_source(source@, numbers@, e)) ==> {
            &&& r is Err
            &&& r->Err_0@[0].message == "Expect end of expression"
            &&& r->Err_0@[0].location is AtLexeme
            &&& exists|e: Expr, rest: Seq<TokenType>| #[trigger] trailing_source(source@, numbers@, e, rest)
                && r->Err_0@[0].line == lines_from(source@, 0, 1)[e.tokens().len() as int]
        },
{
    let ghost goal = exists|e: Expr| valid_source(source@, numbers@, e);
    let ghost trailing = exists|e: Expr, rest: Seq<TokenType>| trailing_source(source@, numbers@, e, rest);
    let ghost (t2, rest2) = choose|e: Expr, rest: Seq<TokenType>| trailing_source(source@, numbers@, e, rest);
    let ghost target = if goal {
        choose|e: Expr| valid_source(source@, numbers@, e)
    } else {
        t2
    };
    let ghost follow = if goal {
        seq![TokenType::Eof]
    } else {
        rest2
    };
    let mut parser = Parser::new(source);
    parser.numbers = slice_to_vec(numbers);
    proof {
        if goal || trailing {
            lemma_tokens_plain(target, Precedence::Assignment.rank());
            if goal {
                assert(kinds_from(source@, 0) =~= target.tokens() + follow);
            }
            assert(parser.tail()[0] == target.tokens()[0]);
        }
    }
    advance(&mut parser);
    proof {
        if goal || trailing {
            assert(parser.tail() =~= target.tokens() + follow);
        }
    }
    let e = expression(&mut parser, Ghost(target), Ghost(follow));
    proof {
        if goal {
            if parser.current.token_type != TokenType::Eof {
                lemma_next_kind(&parser);
            }
        }
        if !goal && trailing {
            assert(parser.tail()[0] == rest2[0]);
            if parser.current.token_type == TokenType::Eof {
                assert(parser.tail() == seq![TokenType::Eof]);
            }
            lemma_next_kind(&parser);
            assert(parser.current.token_type == rest2[0]);
            assert(parser.consumed_lines@.len() == target.tokens().len());
            assert(parser.tail_lines()[0] == parser.current.line);
            assert((parser.consumed_lines@ + parser.tail_lines())[target.tokens().len() as int]
                == parser.current.line);
        }
    }
    let ghost current_line = parser.current.line;
    let ghost body = parser.instrs@;
    let ghost body_lines = parser.instr_lines@;
    let ghost read_lines = parser.consumed_lines@;
    let ghost read = parser.consumed@;
    let ghost had_error1 = parser.had_error;
    let ghost tail_lines1 = parser.tail_lines();
    if parser.current.token_type == TokenType::Eof {
        proof {
            parser.scanner.lemma_bounds();
            lemma_stream_step(parser.scanner.text(), parser.scanner.pos());
        }
        advance(&mut parser);
    } else {
        error_at_current(&mut parser, "Expect end of expression");
    }
    emit_return(&mut parser);
    if !parser.had_error {
        proof {
            lemma_decode_encode(parser.instrs@);
            if goal {
                assert(body =~= e@.emit(0));
                assert(parser.instrs@ =~= e@.emit(0).push(simple(OpCode::Return)));
                assert(e@ == target);
            }
        }
        if code_peak(&parser.chunk.code) > 256 {
            error(&mut parser, "Too many values on the stack");
        }
    }
    if parser.had_error {
        proof {
            if !goal && trailing {
                assert(parser.diagnostics@[0] == diagnostic_at(parser.current, "Expect end of expression"));
                assert(trailing_source(source@, numbers@, t2, rest2));
            }
        }
        return Err(parser.diagnostics);
    }
    proof {
        let prog = e@.emit(0).push(simple(OpCode::Return));
        assert(body =~= e@.emit(0));
        assert(parser.instrs@ =~= prog);
        lemma_decode_encode(prog);
        lemma_encode_push(e@.emit(0), simple(OpCode::Return));
        assert(read =~= e@.tokens());
        assert(kinds_from(source@, 0) =~= e@.tokens().push(TokenType::Eof));
        let all_lines = lines_from(source@, 0, 1);
        assert(read_lines.skip(0) =~= read_lines);
        assert(tail_lines1 == seq![parser.previous.line]);
        assert(all_lines =~= read_lines.push(parser.previous.line));
        assert(all_lines.drop_last() =~= read_lines);
        assert(body_lines =~= e@.lines(read_lines));
        assert(parser.instr_lines@ =~= e@.lines(all_lines.drop_last()).push(all_lines.last()));
        assert(compiled_from(source@, numbers@, e@, parser.chunk));
    }
    let r: Result<Chunk, Vec<Diagnostic<'src>>> = Ok(parser.chunk);
    assert(compiled_from(source@, numbers@, e@, r->Ok_0));
    r
}

/// Every chunk that `compile` returns is a balanced program: just before its
/// `Return` the stack holds exactly one value, and none of its instructions
/// underflows the stack or reads past the constant pool.
pub proof fn lemma_compiled_balanced(source: Seq<char>, numbers: Seq<u64>, e: Expr, chunk: Chunk)
    requires
        compiled_from(source, numbers, e, chunk),
    ensures
        decode(chunk.code@) is Some,
        balanced(decode(chunk.code@)->Some_0, chunk.constants@.len()),
{
    let body = e.emit(0);
    let ret = simple(OpCode::Return);
    let prog = body.push(ret);
    lemma_emit_fits(e, 0);
    assert(expr_code(body, 0, e.count()));
    lemma_small_runs(ret, ret);
    assert(fits_from(seq![ret], 1));
    lemma_fits_concat(body, seq![ret], 0);
    assert(body + seq![ret] =~= prog);
    assert(prog.drop_last() =~= body);
    assert forall|i: int| 0 <= i < prog.len() - 1 implies (#[trigger] prog[i]).op != OpCode::Return by {
        assert(prog[i] == body[i]);
    }
    assert forall|i: int| 0 <= i < prog.len() && (#[trigger] prog[i]).op == OpCode::Constant implies prog[i].arg
        < chunk.constants@.len() by {
        assert(prog[i] == body[i]);
    }
}


/// A source spelling `a T b`, with `a` and `b` number literals and `T` a
/// binary operator, is compiled, and only as `T` applied to the two numbers:
/// two `Constant`s for the two numbers, then the operator's instructions.
pub proof fn lemma_binary_source(
    source: Seq<char>,
    numbers: Seq<u64>,
    t: TokenType,
    e: Expr,
    chunk: Chunk,
)
    requires
        kinds_from(source, 0) == seq![TokenType::Number, t, TokenType::Number, TokenType::Eof],
        rule_of(t).infix == Some(ParseFn::Binary),
        numbers.len() >= 2,
    ensures
        valid_source(
            source,
            numbers,
            Expr::Binary(t, Box::new(Expr::Number), Box::new(Expr::Number)),
        ),
        compiled_from(source, numbers, e, chunk) ==> {
            &&& e == Expr::Binary(t, Box::new(Expr::Number), Box::new(Expr::Number))
            &&& decode(chunk.code@) == Some(
                seq![
                    Instr { op: OpCode::Constant, arg: 0 },
                    Instr { op: OpCode::Constant, arg: 1 },
                ] + binary_instrs(t) + seq![simple(OpCode::Return)],
            )
            &&& chunk.constants@ == seq![Value::Number(numbers[0]), Value::Number(numbers[1])]
        },
{
    let b = Expr::Binary(t, Box::new(Expr::Number), Box::new(Expr::Number));
    assert(Expr::Number.tokens() == seq![TokenType::Number]);
    assert(Expr::Number.count() == 1);
    assert(Expr::Number.emit(0) == seq![Instr { op: OpCode::Constant, arg: 0 }]);
    assert(Expr::Number.emit(1) == seq![Instr { op: OpCode::Constant, arg: 1 }]);
    assert(b.tokens() =~= seq![TokenType::Number, t, TokenType::Number]);
    assert(b.tokens().push(TokenType::Eof) =~= kinds_from(source, 0));
    lemma_binary_rank(t);
    lemma_peak_len(b.emit(0).push(simple(OpCode::Return)));
    assert(b.emit(0) =~= seq![
        Instr { op: OpCode::Constant, arg: 0 },
        Instr { op: OpCode::Constant, arg: 1 },
    ] + binary_instrs(t));
    assert(Expr::Number.parses_at(op_rank(t)));
    assert(Expr::Number.parses_at(op_rank(t) + 1));
    assert(b.parses_at(Precedence::Assignment.rank()));
    if compiled_from(source, numbers, e, chunk) {
        assert(e.tokens() =~= seq![TokenType::Number, t, TokenType::Number]) by {
            assert(e.tokens().push(TokenType::Eof) == kinds_from(source, 0));
            assert(e.tokens() =~= e.tokens().push(TokenType::Eof).drop_last());
        }
        lemma_three_tokens(e, t);
        assert(e.emit(0) =~= seq![
            Instr { op: OpCode::Constant, arg: 0 },
            Instr { op: OpCode::Constant, arg: 1 },
        ] + binary_instrs(t));
        assert(e.emit(0).push(simple(OpCode::Return)) =~= seq![
            Instr { op: OpCode::Constant, arg: 0 },
            Instr { op: OpCode::Constant, arg: 1 },
        ] + binary_instrs(t) + seq![simple(OpCode::Return)]);
        assert(chunk.constants@ =~= seq![Value::Number(numbers[0]), Value::Number(numbers[1])]);
    }
}

} // verus!
