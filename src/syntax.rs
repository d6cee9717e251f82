use crate::chunk::{depth, fits_from, lemma_depth_push, lemma_fits_concat, lemma_fits_higher, pops, Instr};
use crate::opcode::OpCode;
use crate::rules::{rule_of, ParseFn, Precedence};
use crate::scanner::TokenType;
use vstd::prelude::*;

verus! {

/// The expression a compiled chunk stands for. Number literals are numbered
/// from left to right; each takes the next slot of the constant pool.
pub enum Expr {
    Number,
    Literal(TokenType),
    Group(Box<Expr>),
    Unary(TokenType, Box<Expr>),
    Binary(TokenType, Box<Expr>, Box<Expr>),
}

pub open spec fn simple(op: OpCode) -> Instr {
    Instr { op, arg: 0 }
}

/// The opcode of `true`, `false` or `nil`.
pub open spec fn literal_op(kind: TokenType) -> OpCode {
    if kind == TokenType::True {
        OpCode::True
    } else if kind == TokenType::False {
        OpCode::False
    } else {
        OpCode::Nil
    }
}

/// The instructions of a binary operator; `!=`, `>=` and `<=` negate the
/// opposite test.
pub open spec fn binary_instrs(op: TokenType) -> Seq<Instr> {
    if op == TokenType::Plus {
        seq![simple(OpCode::Add)]
    } else if op == TokenType::Minus {
        seq![simple(OpCode::Subtract)]
    } else if op == TokenType::Star {
        seq![simple(OpCode::Multiply)]
    } else if op == TokenType::Slash {
        seq![simple(OpCode::Divide)]
    } else if op == TokenType::EqualEqual {
        seq![simple(OpCode::Equal)]
    } else if op == TokenType::BangEqual {
        seq![simple(OpCode::Equal), simple(OpCode::Not)]
    } else if op == TokenType::Greater {
        seq![simple(OpCode::Greater)]
    } else if op == TokenType::GreaterEqual {
        seq![simple(OpCode::Less), simple(OpCode::Not)]
    } else if op == TokenType::Less {
        seq![simple(OpCode::Less)]
    } else {
        seq![simple(OpCode::Greater), simple(OpCode::Not)]
    }
}

/// The ladder position of a binary operator.
pub open spec fn op_rank(op: TokenType) -> nat {
    rule_of(op).precedence.rank()
}

impl Expr {
    /// The token kinds that spell the expression.
    pub open spec fn tokens(self) -> Seq<TokenType>
        decreases self,
    {
        match self {
            Expr::Number => seq![TokenType::Number],
            Expr::Literal(k) => seq![k],
            Expr::Group(e) => seq![TokenType::LeftParen] + e.tokens() + seq![TokenType::RightParen],
            Expr::Unary(op, e) => seq![op] + e.tokens(),
            Expr::Binary(op, l, r) => l.tokens() + seq![op] + r.tokens(),
        }
    }

    /// How many number literals the expression holds.
    pub open spec fn count(self) -> nat
        decreases self,
    {
        match self {
            Expr::Number => 1,
            Expr::Literal(_) => 0,
            Expr::Group(e) => e.count(),
            Expr::Unary(_, e) => e.count(),
            Expr::Binary(_, l, r) => l.count() + r.count(),
        }
    }

    /// The expression is the parse of its tokens when operators binding at
    /// least `level` are allowed at its top: binary operators associate to
    /// the left and bind by their precedence.
    pub open spec fn parses_at(self, level: nat) -> bool
        decreases self,
    {
        match self {
            Expr::Number => true,
            Expr::Literal(k) => k == TokenType::True || k == TokenType::False || k == TokenType::Nil,
            Expr::Group(e) => e.parses_at(Precedence::Assignment.rank()),
            Expr::Unary(op, e) => (op == TokenType::Minus || op == TokenType::Bang) && e.parses_at(
                Precedence::Unary.rank(),
            ),
            Expr::Binary(op, l, r) => {
                &&& rule_of(op).infix == Some(ParseFn::Binary)
                &&& level <= op_rank(op)
                &&& l.parses_at(op_rank(op))
                &&& r.parses_at(op_rank(op) + 1)
            },
        }
    }

    /// The code of the expression when its first literal takes pool slot `base`.
    pub open spec fn emit(self, base: nat) -> Seq<Instr>
        decreases self,
    {
        match self {
            Expr::Number => seq![Instr { op: OpCode::Constant, arg: base as u8 }],
            Expr::Literal(k) => seq![simple(literal_op(k))],
            Expr::Group(e) => e.emit(base),
            Expr::Unary(op, e) => e.emit(base) + seq![
                simple(if op == TokenType::Minus { OpCode::Negate } else { OpCode::Not }),
            ],
            Expr::Binary(op, l, r) => l.emit(base) + r.emit(base + l.count()) + binary_instrs(op),
        }
    }
}

impl Expr {
    /// The line of each instruction of the code, given the line of each
    /// token: an operator's instructions carry the line of the last token of
    /// its operands, read just before they are written.
    pub open spec fn lines(self, ls: Seq<usize>) -> Seq<usize>
        decreases self,
    {
        match self {
            Expr::Number => seq![ls[0]],
            Expr::Literal(_) => seq![ls[0]],
            Expr::Group(x) => x.lines(ls.subrange(1, ls.len() - 1)),
            Expr::Unary(_, x) => x.lines(ls.drop_first()) + seq![ls.last()],
            Expr::Binary(op, l, r) => {
                let n = l.tokens().len() as int;
                l.lines(ls.take(n)) + r.lines(ls.subrange(n + 1, ls.len() as int)) + Seq::new(
                    binary_instrs(op).len(),
                    |_i: int| ls.last(),
                )
            },
        }
    }
}

/// There is one line for each instruction.
pub proof fn lemma_lines_len(e: Expr, ls: Seq<usize>, base: nat)
    ensures
        e.lines(ls).len() == e.emit(base).len(),
    decreases e,
{
    match e {
        Expr::Number => {},
        Expr::Literal(_) => {},
        Expr::Group(x) => {
            lemma_lines_len(*x, ls.subrange(1, ls.len() - 1), base);
        },
        Expr::Unary(_, x) => {
            lemma_lines_len(*x, ls.drop_first(), base);
        },
        Expr::Binary(op, l, r) => {
            let n = l.tokens().len() as int;
            lemma_lines_len(*l, ls.take(n), base);
            lemma_lines_len(*r, ls.subrange(n + 1, ls.len() as int), base + l.count());
        },
    }
}

/// An expression that parses at a level parses at every lower one.
pub proof fn lemma_parses_lower(e: Expr, low: nat, high: nat)
    requires
        low <= high,
        e.parses_at(high),
    ensures
        e.parses_at(low),
{
}

/// The leftmost operand of a chain of binary operators.
pub open spec fn leftmost(e: Expr) -> Expr
    decreases e,
{
    match e {
        Expr::Binary(_, l, _) => leftmost(*l),
        _ => e,
    }
}

/// The operators of a left-leaning chain with their right operands, in order.
pub open spec fn chain(e: Expr) -> Seq<(TokenType, Expr)>
    decreases e,
{
    match e {
        Expr::Binary(op, l, r) => chain(*l).push((op, *r)),
        _ => Seq::empty(),
    }
}

/// Applies the operators of a chain, left to right, to a first operand.
pub open spec fn rebuild(first: Expr, ops: Seq<(TokenType, Expr)>) -> Expr
    decreases ops.len(),
{
    if ops.len() == 0 {
        first
    } else {
        Expr::Binary(ops.last().0, Box::new(rebuild(first, ops.drop_last())), Box::new(ops.last().1))
    }
}

pub open spec fn ops_tokens(ops: Seq<(TokenType, Expr)>) -> Seq<TokenType>
    decreases ops.len(),
{
    if ops.len() == 0 {
        Seq::empty()
    } else {
        ops_tokens(ops.drop_last()) + seq![ops.last().0] + ops.last().1.tokens()
    }
}

pub open spec fn ops_count(ops: Seq<(TokenType, Expr)>) -> nat
    decreases ops.len(),
{
    if ops.len() == 0 {
        0
    } else {
        ops_count(ops.drop_last()) + ops.last().1.count()
    }
}

/// A chain of operators that binds at `level`: each operator is binary, binds
/// at least at `level` and no tighter than the one before, and its right
/// operand parses one level above it.
pub open spec fn chain_ok(ops: Seq<(TokenType, Expr)>, level: nat) -> bool {
    &&& forall|j: int|
        0 <= j < ops.len() ==> {
            &&& rule_of((#[trigger] ops[j]).0).infix == Some(ParseFn::Binary)
            &&& level <= op_rank(ops[j].0)
            &&& ops[j].1.parses_at(op_rank(ops[j].0) + 1)
        }
    &&& forall|j: int, k: int| 0 <= j < k < ops.len() ==> op_rank(#[trigger] ops[k].0) <= op_rank(
        #[trigger] ops[j].0,
    )
}

/// No token of a parsed expression is the end of input, an error or the
/// empty token.
pub open spec fn plain_tokens(t: Seq<TokenType>) -> bool {
    forall|i: int|
        0 <= i < t.len() ==> (#[trigger] t[i]) != TokenType::Eof && t[i] != TokenType::Error && t[i]
            != TokenType::Empty
}

pub proof fn lemma_plain_concat(a: Seq<TokenType>, b: Seq<TokenType>)
    requires
        plain_tokens(a),
        plain_tokens(b),
    ensures
        plain_tokens(a + b),
{
    assert forall|i: int| 0 <= i < (a + b).len() implies (#[trigger] (a + b)[i]) != TokenType::Eof
        && (a + b)[i] != TokenType::Error && (a + b)[i] != TokenType::Empty by {
        if i < a.len() {
            assert((a + b)[i] == a[i]);
        } else {
            assert((a + b)[i] == b[i - a.len()]);
        }
    }
}

pub proof fn lemma_tokens_plain(e: Expr, level: nat)
    requires
        e.parses_at(level),
    ensures
        plain_tokens(e.tokens()),
        e.tokens().len() > 0,
    decreases e,
{
    match e {
        Expr::Number => {},
        Expr::Literal(_) => {},
        Expr::Group(x) => {
            lemma_tokens_plain(*x, Precedence::Assignment.rank());
            lemma_plain_concat(seq![TokenType::LeftParen], x.tokens());
            lemma_plain_concat(seq![TokenType::LeftParen] + x.tokens(), seq![TokenType::RightParen]);
        },
        Expr::Unary(op, x) => {
            lemma_tokens_plain(*x, Precedence::Unary.rank());
            lemma_plain_concat(seq![op], x.tokens());
        },
        Expr::Binary(op, l, r) => {
            lemma_tokens_plain(*l, op_rank(op));
            lemma_tokens_plain(*r, op_rank(op) + 1);
            lemma_plain_concat(l.tokens(), seq![op]);
            lemma_plain_concat(l.tokens() + seq![op], r.tokens());
        },
    }
}

/// An expression is its leftmost operand with its chain of operators applied.
pub proof fn lemma_chain(e: Expr, level: nat)
    requires
        e.parses_at(level),
    ensures
        rebuild(leftmost(e), chain(e)) == e,
        !(leftmost(e) is Binary),
        leftmost(e).parses_at(Precedence::Primary.rank()),
        chain_ok(chain(e), level),
    decreases e,
{
    if let Expr::Binary(op, l, r) = e {
        lemma_chain(*l, op_rank(op));
        let ops = chain(*l);
        let all = ops.push((op, *r));
        assert(all.drop_last() =~= ops);
        assert forall|j: int| 0 <= j < all.len() implies {
            &&& rule_of((#[trigger] all[j]).0).infix == Some(ParseFn::Binary)
            &&& level <= op_rank(all[j].0)
            &&& all[j].1.parses_at(op_rank(all[j].0) + 1)
        } by {
            if j < ops.len() {
                assert(all[j] == ops[j]);
            }
        }
        assert forall|j: int, k: int| 0 <= j < k < all.len() implies op_rank(#[trigger] all[k].0)
            <= op_rank(#[trigger] all[j].0) by {
            assert(all[j] == ops[j]);
            if k < ops.len() {
                assert(all[k] == ops[k]);
            }
        }
    }
}

pub proof fn lemma_ops_concat(a: Seq<(TokenType, Expr)>, b: Seq<(TokenType, Expr)>)
    ensures
        ops_tokens(a + b) == ops_tokens(a) + ops_tokens(b),
        ops_count(a + b) == ops_count(a) + ops_count(b),
    decreases b.len(),
{
    if b.len() == 0 {
        assert(a + b =~= a);
        assert(ops_tokens(a) + ops_tokens(b) =~= ops_tokens(a));
    } else {
        lemma_ops_concat(a, b.drop_last());
        assert((a + b).drop_last() =~= a + b.drop_last());
        assert((a + b).last() == b.last());
        assert(ops_tokens(a + b) =~= ops_tokens(a) + ops_tokens(b));
    }
}

/// Splitting a chain after its `j`-th operator.
pub proof fn lemma_chain_split(first: Expr, ops: Seq<(TokenType, Expr)>, j: int)
    requires
        0 <= j < ops.len(),
    ensures
        rebuild(first, ops.take(j + 1)) == Expr::Binary(
            ops[j].0,
            Box::new(rebuild(first, ops.take(j))),
            Box::new(ops[j].1),
        ),
        ops_tokens(ops.skip(j)) == seq![ops[j].0] + ops[j].1.tokens() + ops_tokens(ops.skip(j + 1)),
        ops_count(ops.skip(j)) == ops[j].1.count() + ops_count(ops.skip(j + 1)),
{
    assert(ops.take(j + 1).drop_last() =~= ops.take(j));
    let one = seq![ops[j]];
    assert(ops.skip(j) =~= one + ops.skip(j + 1));
    lemma_ops_concat(one, ops.skip(j + 1));
    assert(one.drop_last() =~= Seq::<(TokenType, Expr)>::empty());
    assert(ops_tokens(one.drop_last()) == Seq::<TokenType>::empty());
    assert(ops_count(one.drop_last()) == 0);
    assert(one.last() == ops[j]);
    assert(ops_tokens(one) =~= seq![ops[j].0] + ops[j].1.tokens());
}

/// The tokens and the literals of a rebuilt chain.
pub proof fn lemma_rebuild_parts(first: Expr, ops: Seq<(TokenType, Expr)>)
    ensures
        rebuild(first, ops).tokens() == first.tokens() + ops_tokens(ops),
        rebuild(first, ops).count() == first.count() + ops_count(ops),
    decreases ops.len(),
{
    if ops.len() > 0 {
        lemma_rebuild_parts(first, ops.drop_last());
        assert(rebuild(first, ops).tokens() =~= first.tokens() + ops_tokens(ops));
    } else {
        assert(first.tokens() + ops_tokens(ops) =~= first.tokens());
    }
}

pub proof fn lemma_small_runs(a: Instr, b: Instr)
    ensures
        depth(seq![a]) == pushes_minus_pops(a),
        depth(seq![a, b]) == pushes_minus_pops(a) + pushes_minus_pops(b),
        seq![a].take(0) =~= Seq::<Instr>::empty(),
        seq![a, b].take(0) =~= Seq::<Instr>::empty(),
        seq![a, b].take(1) =~= seq![a],
{
    lemma_depth_push(Seq::<Instr>::empty(), a);
    assert(Seq::<Instr>::empty().push(a) =~= seq![a]);
    lemma_depth_push(seq![a], b);
    assert(seq![a].push(b) =~= seq![a, b]);
}

pub open spec fn pushes_minus_pops(i: Instr) -> int {
    crate::chunk::pushes(i.op) - pops(i.op)
}

/// The run is an expression's code: it leaves one value more on the stack,
/// never takes a value it did not push, holds no `Return`, and names pool
/// slots in `[lo, hi)`.
pub open spec fn expr_code(c: Seq<Instr>, lo: nat, hi: nat) -> bool {
    &&& fits_from(c, 0)
    &&& depth(c) == 1
    &&& forall|i: int| 0 <= i < c.len() ==> (#[trigger] c[i]).op != OpCode::Return
    &&& forall|i: int| 0 <= i < c.len() && (#[trigger] c[i]).op == OpCode::Constant ==> lo <= c[i].arg < hi
}

/// An operator that takes `n` values and leaves one, after the code of its
/// `n` operands.
pub proof fn lemma_apply(a: Seq<Instr>, b: Seq<Instr>, tail: Seq<Instr>, lo: nat, mid: nat, hi: nat, two: bool)
    requires
        expr_code(a, lo, mid),
        two ==> expr_code(b, mid, hi),
        !two ==> b.len() == 0 && mid == hi,
        lo <= mid <= hi,
        tail.len() == 1 || tail.len() == 2,
        tail[0].op != OpCode::Return && tail[0].op != OpCode::Constant,
        pops(tail[0].op) == if two { 2int } else { 1int },
        crate::chunk::pushes(tail[0].op) == 1,
        tail.len() == 2 ==> tail[1] == simple(OpCode::Not),
    ensures
        expr_code(a + b + tail, lo, hi),
{
    if two {
        lemma_fits_higher(b, 0, 1);
        lemma_fits_concat(a, b, 0);
    } else {
        assert(a + b =~= a);
    }
    if tail.len() == 1 {
        lemma_small_runs(tail[0], tail[0]);
        assert(tail =~= seq![tail[0]]);
    } else {
        lemma_small_runs(tail[0], tail[1]);
        assert(tail =~= seq![tail[0], tail[1]]);
    }
    lemma_fits_concat(a + b, tail, 0);
    let c = a + b + tail;
    assert forall|i: int| 0 <= i < c.len() implies (#[trigger] c[i]).op != OpCode::Return by {
        if i < a.len() {
            assert(c[i] == a[i]);
        } else if i < a.len() + b.len() {
            assert(c[i] == b[i - a.len()]);
        } else {
            assert(c[i] == tail[i - a.len() - b.len()]);
        }
    }
    assert forall|i: int| 0 <= i < c.len() && (#[trigger] c[i]).op == OpCode::Constant implies lo
        <= c[i].arg < hi by {
        if i < a.len() {
            assert(c[i] == a[i]);
        } else if i < a.len() + b.len() {
            assert(c[i] == b[i - a.len()]);
        } else {
            assert(c[i] == tail[i - a.len() - b.len()]);
        }
    }
}

/// The code of an expression leaves exactly one value more on the stack,
/// never takes a value it did not push, holds no `Return`, and names pool
/// slots from `base` on, one for each literal.
pub proof fn lemma_emit_fits(e: Expr, base: nat)
    requires
        base + e.count() <= 256,
    ensures
        expr_code(e.emit(base), base, base + e.count()),
    decreases e,
{
    match e {
        Expr::Number => {
            let i = Instr { op: OpCode::Constant, arg: base as u8 };
            lemma_small_runs(i, i);
        },
        Expr::Literal(k) => {
            let i = simple(literal_op(k));
            lemma_small_runs(i, i);
        },
        Expr::Group(inner) => {
            lemma_emit_fits(*inner, base);
        },
        Expr::Unary(op, inner) => {
            lemma_emit_fits(*inner, base);
            let tail = seq![simple(if op == TokenType::Minus { OpCode::Negate } else { OpCode::Not })];
            lemma_apply(inner.emit(base), Seq::empty(), tail, base, base + e.count(), base + e.count(), false);
            assert(inner.emit(base) + Seq::<Instr>::empty() + tail =~= e.emit(base));
        },
        Expr::Binary(op, l, r) => {
            lemma_emit_fits(*l, base);
            lemma_emit_fits(*r, base + l.count());
            lemma_apply(
                l.emit(base),
                r.emit(base + l.count()),
                binary_instrs(op),
                base,
                base + l.count(),
                base + e.count(),
                true,
            );
        },
    }
}

/// Binary operators bind between equality and factor.
pub proof fn lemma_binary_rank(t: TokenType)
    requires
        rule_of(t).infix == Some(ParseFn::Binary),
    ensures
        Precedence::Equality.rank() <= op_rank(t) <= Precedence::Factor.rank(),
{
    match t {
        TokenType::Minus | TokenType::Plus | TokenType::Slash | TokenType::Star | TokenType::BangEqual
        | TokenType::EqualEqual | TokenType::Greater | TokenType::GreaterEqual | TokenType::Less
        | TokenType::LessEqual => {},
        _ => {},
    }
}

/// The only expression spelled `number T number` is `T` applied to the two.
pub proof fn lemma_three_tokens(e: Expr, t: TokenType)
    requires
        e.tokens() == seq![TokenType::Number, t, TokenType::Number],
        e.parses_at(Precedence::Assignment.rank()),
        rule_of(t).infix == Some(ParseFn::Binary),
    ensures
        e == Expr::Binary(t, Box::new(Expr::Number), Box::new(Expr::Number)),
{
    match e {
        Expr::Number => {},
        Expr::Literal(_) => {},
        Expr::Group(x) => {
            assert(e.tokens()[0] == TokenType::LeftParen);
        },
        Expr::Unary(op, x) => {
            assert(e.tokens()[0] == op);
        },
        Expr::Binary(op, l, r) => {
            lemma_tokens_plain(*l, op_rank(op));
            lemma_tokens_plain(*r, op_rank(op) + 1);
            let lt = l.tokens();
            let rt = r.tokens();
            assert(e.tokens() == lt + seq![op] + rt);
            assert(seq![op].len() == 1);
            assert((lt + seq![op] + rt).len() == lt.len() + 1 + rt.len());
            assert(e.tokens().len() == 3);
            assert(lt.len() + 1 + rt.len() == 3);
            if lt.len() == 2 {
                assert(op == (lt + seq![op] + rt)[2]);
                assert(op == TokenType::Number);
                assert(false);
            }
            assert(lt.len() == 1 && rt.len() == 1);
            assert(lt[0] == (lt + seq![op] + rt)[0]);
            assert(rt[0] == (lt + seq![op] + rt)[2]);
            assert(op == (lt + seq![op] + rt)[1]);
            lemma_single_number(*l, op_rank(op));
            lemma_single_number(*r, op_rank(op) + 1);
        },
    }
}

/// An expression of one token, a number literal, is that literal.
pub proof fn lemma_single_number(e: Expr, level: nat)
    requires
        e.tokens().len() == 1,
        e.tokens()[0] == TokenType::Number,
        e.parses_at(level),
    ensures
        e == Expr::Number,
{
    match e {
        Expr::Number => {},
        Expr::Literal(_) => {},
        Expr::Group(x) => {
            assert(e.tokens()[0] == TokenType::LeftParen);
        },
        Expr::Unary(op, x) => {
            lemma_tokens_plain(*x, Precedence::Unary.rank());
            assert(e.tokens().len() == 1 + x.tokens().len());
        },
        Expr::Binary(op, l, r) => {
            lemma_tokens_plain(*l, op_rank(op));
            lemma_tokens_plain(*r, op_rank(op) + 1);
            assert(e.tokens().len() == l.tokens().len() + 1 + r.tokens().len());
        },
    }
}

} // verus!
