use vstd::prelude::*;
use vstd::string::StrSliceExecFns;

verus! {

/// The kinds of token the scanner produces.
#[derive(Debug, Clone, Copy, PartialEq, Eq, Structural)]
pub enum TokenType {
    // Single-character tokens
    LeftParen,
    RightParen,
    LeftBrace,
    RightBrace,
    Comma,
    Dot,
    Minus,
    Plus,
    Semicolon,
    Slash,
    Star,
    // One or two character tokens
    Bang,
    BangEqual,
    Equal,
    EqualEqual,
    Greater,
    GreaterEqual,
    Less,
    LessEqual,
    // Literals
    Identifier,
    String,
    Number,
    // Keywords
    And,
    Class,
    Else,
    False,
    For,
    Fun,
    If,
    Nil,
    Or,
    Print,
    Return,
    Super,
    This,
    True,
    Var,
    While,
    // Special
    Error,
    Eof,
    // The token before the first scan
    Empty,
}

/// A token: its kind, its text (for an `Error` token, the diagnostic), and
/// the source line it ends on.
#[derive(Debug, Clone, Copy, PartialEq)]
pub struct Token<'src> {
    pub token_type: TokenType,
    pub lexeme: &'src str,
    pub line: usize,
}

impl<'src> Default for Token<'src> {
    fn default() -> (r: Token<'src>)
        ensures
            r.token_type == TokenType::Empty,
            r.lexeme@.len() == 0,
            r.line == 0,
    {
        proof {
            reveal_strlit("");
        }
        Token { token_type: TokenType::Empty, lexeme: "", line: 0 }
    }
}

pub open spec fn is_digit(c: char) -> bool {
    '0' <= c && c <= '9'
}

pub open spec fn is_alpha(c: char) -> bool {
    ('a' <= c && c <= 'z') || ('A' <= c && c <= 'Z') || c == '_'
}

pub open spec fn is_blank(c: char) -> bool {
    c == ' ' || c == '\r' || c == '\t' || c == '\n'
}

/// The character at `i`, or `'\0'` past either end.
pub open spec fn char_at(s: Seq<char>, i: int) -> char {
    if 0 <= i < s.len() {
        s[i]
    } else {
        '\0'
    }
}

/// Where the run of digits starting at `i` ends.
pub open spec fn digits_end(s: Seq<char>, i: int) -> int
    decreases s.len() - i,
{
    if 0 <= i < s.len() && is_digit(s[i]) {
        digits_end(s, i + 1)
    } else {
        i
    }
}

/// Where the run of letters, digits and underscores starting at `i` ends.
pub open spec fn word_end(s: Seq<char>, i: int) -> int
    decreases s.len() - i,
{
    if 0 <= i < s.len() && (is_alpha(s[i]) || is_digit(s[i])) {
        word_end(s, i + 1)
    } else {
        i
    }
}

/// The first closing quote at or after `i`, or the end of the source.
pub open spec fn quote_end(s: Seq<char>, i: int) -> int
    decreases s.len() - i,
{
    if 0 <= i < s.len() && s[i] != '"' {
        quote_end(s, i + 1)
    } else {
        i
    }
}

/// Where blanks and `//` comments starting at `i` end; `in_comment` says that
/// `i` lies inside a comment.
pub open spec fn skip_end(s: Seq<char>, i: int, in_comment: bool) -> int
    decreases s.len() - i, if in_comment { 1int } else { 0int },
{
    if i < 0 || i >= s.len() {
        i
    } else if in_comment {
        if s[i] == '\n' {
            skip_end(s, i, false)
        } else {
            skip_end(s, i + 1, true)
        }
    } else if is_blank(s[i]) {
        skip_end(s, i + 1, false)
    } else if s[i] == '/' && char_at(s, i + 1) == '/' {
        skip_end(s, i + 2, true)
    } else {
        i
    }
}

/// The number of line breaks among the characters in `[a, b)`.
pub open spec fn newlines(s: Seq<char>, a: int, b: int) -> int
    decreases b - a,
{
    if a >= b {
        0
    } else if char_at(s, b - 1) == '\n' {
        newlines(s, a, b - 1) + 1
    } else {
        newlines(s, a, b - 1)
    }
}

/// The reserved word a lexeme spells, or `Identifier`.
pub open spec fn keyword_kind(w: Seq<char>) -> TokenType {
    if w == "and"@ {
        TokenType::And
    } else if w == "class"@ {
        TokenType::Class
    } else if w == "else"@ {
        TokenType::Else
    } else if w == "false"@ {
        TokenType::False
    } else if w == "for"@ {
        TokenType::For
    } else if w == "fun"@ {
        TokenType::Fun
    } else if w == "if"@ {
        TokenType::If
    } else if w == "nil"@ {
        TokenType::Nil
    } else if w == "or"@ {
        TokenType::Or
    } else if w == "print"@ {
        TokenType::Print
    } else if w == "return"@ {
        TokenType::Return
    } else if w == "super"@ {
        TokenType::Super
    } else if w == "this"@ {
        TokenType::This
    } else if w == "true"@ {
        TokenType::True
    } else if w == "var"@ {
        TokenType::Var
    } else if w == "while"@ {
        TokenType::While
    } else {
        TokenType::Identifier
    }
}

/// Where the token that starts at `p` ends (`p` itself at the end of input).
pub open spec fn token_end(s: Seq<char>, p: int) -> int {
    if p < 0 || p >= s.len() {
        p
    } else {
        let c = s[p];
        if c == '!' || c == '=' || c == '<' || c == '>' {
            if char_at(s, p + 1) == '=' {
                p + 2
            } else {
                p + 1
            }
        } else if c == '"' {
            let q = quote_end(s, p + 1);
            if q >= s.len() {
                q
            } else {
                q + 1
            }
        } else if is_digit(c) {
            let d = digits_end(s, p);
            if char_at(s, d) == '.' && is_digit(char_at(s, d + 1)) {
                digits_end(s, d + 1)
            } else {
                d
            }
        } else if is_alpha(c) {
            word_end(s, p + 1)
        } else {
            p + 1
        }
    }
}

/// The kind of the token that starts at `p`.
pub open spec fn token_kind(s: Seq<char>, p: int) -> TokenType {
    if p < 0 || p >= s.len() {
        TokenType::Eof
    } else {
        let c = s[p];
        let eq_next = char_at(s, p + 1) == '=';
        if c == '(' {
            TokenType::LeftParen
        } else if c == ')' {
            TokenType::RightParen
        } else if c == '{' {
            TokenType::LeftBrace
        } else if c == '}' {
            TokenType::RightBrace
        } else if c == ';' {
            TokenType::Semicolon
        } else if c == ',' {
            TokenType::Comma
        } else if c == '.' {
            TokenType::Dot
        } else if c == '-' {
            TokenType::Minus
        } else if c == '+' {
            TokenType::Plus
        } else if c == '/' {
            TokenType::Slash
        } else if c == '*' {
            TokenType::Star
        } else if c == '!' {
            if eq_next {
                TokenType::BangEqual
            } else {
                TokenType::Bang
            }
        } else if c == '=' {
            if eq_next {
                TokenType::EqualEqual
            } else {
                TokenType::Equal
            }
        } else if c == '<' {
            if eq_next {
                TokenType::LessEqual
            } else {
                TokenType::Less
            }
        } else if c == '>' {
            if eq_next {
                TokenType::GreaterEqual
            } else {
                TokenType::Greater
            }
        } else if c == '"' {
            if quote_end(s, p + 1) >= s.len() {
                TokenType::Error
            } else {
                TokenType::String
            }
        } else if is_digit(c) {
            TokenType::Number
        } else if is_alpha(c) {
            keyword_kind(s.subrange(p, word_end(s, p + 1)))
        } else {
            TokenType::Error
        }
    }
}

/// The diagnostic of an `Error` token that starts at `p`.
pub open spec fn error_text(s: Seq<char>, p: int) -> Seq<char> {
    if char_at(s, p) == '"' {
        "Unterminated string."@
    } else {
        "Unexpected character."@
    }
}

pub proof fn lemma_digits_end(s: Seq<char>, i: int)
    requires
        0 <= i <= s.len(),
    ensures
        i <= digits_end(s, i) <= s.len(),
        !is_digit(char_at(s, digits_end(s, i))),
    decreases s.len() - i,
{
    if i < s.len() && is_digit(s[i]) {
        lemma_digits_end(s, i + 1);
    }
}

pub proof fn lemma_word_end(s: Seq<char>, i: int)
    requires
        0 <= i <= s.len(),
    ensures
        i <= word_end(s, i) <= s.len(),
    decreases s.len() - i,
{
    if i < s.len() && (is_alpha(s[i]) || is_digit(s[i])) {
        lemma_word_end(s, i + 1);
    }
}

pub proof fn lemma_quote_end(s: Seq<char>, i: int)
    requires
        0 <= i <= s.len(),
    ensures
        i <= quote_end(s, i) <= s.len(),
    decreases s.len() - i,
{
    if i < s.len() && s[i] != '"' {
        lemma_quote_end(s, i + 1);
    }
}

pub proof fn lemma_skip_end(s: Seq<char>, i: int, in_comment: bool)
    requires
        0 <= i <= s.len(),
    ensures
        i <= skip_end(s, i, in_comment) <= s.len(),
        skip_end(s, i, in_comment) < s.len() ==> !is_blank(s[skip_end(s, i, in_comment)]),
    decreases s.len() - i, if in_comment { 1int } else { 0int },
{
    if i >= s.len() {
    } else if in_comment {
        if s[i] == '\n' {
            lemma_skip_end(s, i, false);
        } else {
            lemma_skip_end(s, i + 1, true);
        }
    } else if is_blank(s[i]) {
        lemma_skip_end(s, i + 1, false);
    } else if s[i] == '/' && char_at(s, i + 1) == '/' {
        lemma_skip_end(s, i + 2, true);
    }
}

/// A token other than the end of input takes at least one character.
pub proof fn lemma_token_end(s: Seq<char>, p: int)
    requires
        0 <= p <= s.len(),
    ensures
        p <= token_end(s, p) <= s.len(),
        (token_end(s, p) == p) == (p == s.len()),
        (token_kind(s, p) == TokenType::Eof) == (p == s.len()),
{
    if p < s.len() {
        let c = s[p];
        if c == '"' {
            lemma_quote_end(s, p + 1);
        } else if is_digit(c) {
            lemma_digits_end(s, p);
            let d = digits_end(s, p);
            if char_at(s, d) == '.' && is_digit(char_at(s, d + 1)) {
                lemma_digits_end(s, d + 1);
            }
        } else if is_alpha(c) {
            lemma_word_end(s, p + 1);
            reveal_strlit("and");
            reveal_strlit("class");
            reveal_strlit("else");
            reveal_strlit("false");
            reveal_strlit("for");
            reveal_strlit("fun");
            reveal_strlit("if");
            reveal_strlit("nil");
            reveal_strlit("or");
            reveal_strlit("print");
            reveal_strlit("return");
            reveal_strlit("super");
            reveal_strlit("this");
            reveal_strlit("true");
            reveal_strlit("var");
            reveal_strlit("while");
        }
    }
}

/// Line breaks over two adjacent spans add up.
pub proof fn lemma_newlines_split(s: Seq<char>, a: int, b: int, c: int)
    requires
        a <= b <= c,
    ensures
        newlines(s, a, c) == newlines(s, a, b) + newlines(s, b, c),
    decreases c - b,
{
    if b < c {
        lemma_newlines_split(s, a, b, c - 1);
    }
}

/// The kinds of the tokens from `pos` on, the end of input included.
pub open spec fn kinds_from(s: Seq<char>, pos: int) -> Seq<TokenType>
    decreases s.len() - pos,
{
    let p = skip_end(s, pos, false);
    let e = token_end(s, p);
    if pos < 0 || p >= s.len() || e <= pos || e > s.len() {
        seq![TokenType::Eof]
    } else {
        seq![token_kind(s, p)] + kinds_from(s, e)
    }
}

/// The lines of the tokens from `pos` on, the end of input included, when
/// the line at `pos` is `line`.
pub open spec fn lines_from(s: Seq<char>, pos: int, line: int) -> Seq<usize>
    decreases s.len() - pos,
{
    let p = skip_end(s, pos, false);
    let e = token_end(s, p);
    if pos < 0 || p >= s.len() || e <= pos || e > s.len() {
        seq![(line + newlines(s, pos, p)) as usize]
    } else {
        let l = line + newlines(s, pos, e);
        seq![l as usize] + lines_from(s, e, l)
    }
}

/// The texts of the number literals from `pos` on, in order.
pub open spec fn number_lexemes_from(s: Seq<char>, pos: int) -> Seq<Seq<char>>
    decreases s.len() - pos,
{
    let p = skip_end(s, pos, false);
    let e = token_end(s, p);
    if pos < 0 || p >= s.len() || e <= pos || e > s.len() {
        Seq::empty()
    } else if token_kind(s, p) == TokenType::Number {
        seq![s.subrange(p, e)] + number_lexemes_from(s, e)
    } else {
        number_lexemes_from(s, e)
    }
}

/// One step of the token stream: the token after the blanks at `pos`, then
/// the rest from where it ends.
pub proof fn lemma_stream_step(s: Seq<char>, pos: int)
    requires
        0 <= pos <= s.len(),
    ensures
        ({
            let p = skip_end(s, pos, false);
            let e = token_end(s, p);
            &&& pos <= p <= e <= s.len()
            &&& (token_kind(s, p) == TokenType::Eof) == (p == s.len())
            &&& p == s.len() ==> kinds_from(s, pos) == seq![TokenType::Eof] && e == p
            &&& p == s.len() ==> number_lexemes_from(s, pos) == Seq::<Seq<char>>::empty()
            &&& p < s.len() ==> e > p && kinds_from(s, pos) == seq![token_kind(s, p)] + kinds_from(s, e)
            &&& p < s.len() && token_kind(s, p) == TokenType::Number ==> number_lexemes_from(s, pos)
                == seq![s.subrange(p, e)] + number_lexemes_from(s, e)
            &&& p < s.len() && token_kind(s, p) != TokenType::Number ==> number_lexemes_from(s, pos)
                == number_lexemes_from(s, e)
        }),
{
    lemma_skip_end(s, pos, false);
    let p = skip_end(s, pos, false);
    lemma_token_end(s, p);
}

/// One step of the lines of the token stream.
pub proof fn lemma_lines_step(s: Seq<char>, pos: int, line: int)
    requires
        0 <= pos <= s.len(),
    ensures
        ({
            let p = skip_end(s, pos, false);
            let e = token_end(s, p);
            &&& p == s.len() ==> lines_from(s, pos, line) == seq![(line + newlines(s, pos, e)) as usize]
            &&& p < s.len() ==> lines_from(s, pos, line) == seq![(line + newlines(s, pos, e)) as usize]
                + lines_from(s, e, line + newlines(s, pos, e))
        }),
{
    lemma_stream_step(s, pos);
}

/// Produces the tokens of a source text one at a time.
pub struct Scanner<'src> {
    source: &'src str,
    length: usize,
    start: usize,
    current: usize,
    line: usize,
}

impl<'src> Scanner<'src> {
    /// The source text.
    pub closed spec fn text(&self) -> Seq<char> {
        self.source@
    }

    /// The position of the next character to read.
    pub closed spec fn pos(&self) -> int {
        self.current as int
    }

    /// Where the last token began.
    pub closed spec fn token_start(&self) -> int {
        self.start as int
    }

    /// The current source line.
    pub closed spec fn line_no(&self) -> int {
        self.line as int
    }

    pub closed spec fn wf(&self) -> bool {
        &&& self.length as int == self.source@.len()
        &&& self.start <= self.current <= self.length
        &&& self.length < usize::MAX
        &&& 1 <= self.line <= self.current + 1
    }

    pub proof fn lemma_bounds(&self)
        requires
            self.wf(),
        ensures
            0 <= self.token_start() <= self.pos() <= self.text().len() < usize::MAX,
            1 <= self.line_no(),
    {
    }

    pub fn new(source: &'src str) -> (r: Scanner<'src>)
        requires
            source@.len() < usize::MAX,
        ensures
            r.wf(),
            r.text() == source@,
            r.pos() == 0,
            r.token_start() == 0,
            r.line_no() == 1,
    {
        Scanner { source, length: source.unicode_len(), start: 0, current: 0, line: 1 }
    }

    pub fn is_at_end(&self) -> (r: bool)
        requires
            self.wf(),
        ensures
            r == (self.pos() >= self.text().len()),
    {
        self.current >= self.length
    }

    /// The token spanning from the start of the lexeme to the cursor.
    pub fn make_token(&self, token_type: TokenType) -> (r: Token<'src>)
        requires
            self.wf(),
        ensures
            r.token_type == token_type,
            r.lexeme@ == self.text().subrange(self.token_start(), self.pos()),
            r.line == self.line_no(),
    {
        Token {
            token_type,
            lexeme: self.source.substring_char(self.start, self.current),
            line: self.line,
        }
    }

    pub fn error_token(&self, message: &'static str) -> (r: Token<'src>)
        ensures
            r.token_type == TokenType::Error,
            r.lexeme@ == message@,
            r.line == self.line_no(),
    {
        Token { token_type: TokenType::Error, lexeme: message, line: self.line }
    }

    /// Consumes and returns the next character.
    pub fn advance(&mut self) -> (c: char)
        requires
            old(self).wf(),
            old(self).pos() < old(self).text().len(),
        ensures
            final(self).wf(),
            c == old(self).text()[old(self).pos()],
            final(self).pos() == old(self).pos() + 1,
            final(self).text() == old(self).text(),
            final(self).token_start() == old(self).token_start(),
            final(self).line_no() == old(self).line_no(),
    {
        let c = self.source.get_char(self.current);
        self.current = self.current + 1;
        c
    }

    pub fn peek(&self) -> (c: char)
        requires
            self.wf(),
        ensures
            c == char_at(self.text(), self.pos()),
    {
        if self.is_at_end() {
            '\0'
        } else {
            self.source.get_char(self.current)
        }
    }

    pub fn peek_next(&self) -> (c: char)
        requires
            self.wf(),
        ensures
            c == char_at(self.text(), self.pos() + 1),
    {
        if self.current >= self.length || self.length - self.current < 2 {
            '\0'
        } else {
            self.source.get_char(self.current + 1)
        }
    }

    /// Consumes the next character when it is `expected`.
    pub fn match_next(&mut self, expected: char) -> (r: bool)
        requires
            old(self).wf(),
        ensures
            final(self).wf(),
            r == (char_at(old(self).text(), old(self).pos()) == expected && old(self).pos() < old(
                self,
            ).text().len()),
            final(self).pos() == old(self).pos() + if r {
                1int
            } else {
                0int
            },
            final(self).text() == old(self).text(),
            final(self).token_start() == old(self).token_start(),
            final(self).line_no() == old(self).line_no(),
    {
        if self.is_at_end() || self.source.get_char(self.current) != expected {
            return false;
        }
        self.current = self.current + 1;
        true
    }

    /// Skips blanks and `//` comments, counting line breaks.
    pub fn skip_whitespace(&mut self)
        requires
            old(self).wf(),
        ensures
            final(self).wf(),
            final(self).pos() == skip_end(old(self).text(), old(self).pos(), false),
            final(self).line_no() == old(self).line_no() + newlines(
                old(self).text(),
                old(self).pos(),
                final(self).pos(),
            ),
            final(self).text() == old(self).text(),
            final(self).token_start() == old(self).token_start(),
    {
        let ghost s = self.text();
        let ghost from = self.pos();
        let ghost l0 = self.line_no();
        let mut in_comment: bool = false;
        loop
            invariant
                self.wf(),
                self.text() == s,
                self.token_start() == old(self).token_start(),
                from <= self.pos() <= s.len(),
                skip_end(s, self.pos(), in_comment) == skip_end(s, from, false),
                self.line_no() == l0 + newlines(s, from, self.pos()),
            ensures
                self.pos() == skip_end(s, from, false),
            decreases s.len() - self.pos(), if in_comment { 1int } else { 0int },
        {
            let c = self.peek();
            if self.is_at_end() {
                assert(skip_end(s, self.pos(), in_comment) == self.pos());
                break;
            }
            if in_comment {
                if c == '\n' {
                    in_comment = false;
                } else {
                    self.advance();
                    assert(newlines(s, from, self.pos()) == newlines(s, from, self.pos() - 1));
                }
            } else if c == ' ' || c == '\r' || c == '\t' {
                self.advance();
                assert(newlines(s, from, self.pos()) == newlines(s, from, self.pos() - 1));
            } else if c == '\n' {
                self.advance();
                self.line = self.line + 1;
                assert(newlines(s, from, self.pos()) == newlines(s, from, self.pos() - 1) + 1);
            } else if c == '/' && self.peek_next() == '/' {
                self.advance();
                self.advance();
                assert(newlines(s, from, self.pos() - 1) == newlines(s, from, self.pos() - 2));
                assert(newlines(s, from, self.pos()) == newlines(s, from, self.pos() - 1));
                in_comment = true;
            } else {
                assert(skip_end(s, self.pos(), false) == self.pos());
                break;
            }
        }
    }

    /// Scans the rest of a string literal whose opening quote was just read.
    pub fn string(&mut self) -> (r: Token<'src>)
        requires
            old(self).wf(),
            old(self).pos() == old(self).token_start() + 1,
        ensures
            final(self).wf(),
            final(self).text() == old(self).text(),
            final(self).token_start() == old(self).token_start(),
            ({
                let q = quote_end(old(self).text(), old(self).pos());
                &&& q >= old(self).text().len() ==> {
                    &&& final(self).pos() == q
                    &&& r.token_type == TokenType::Error
                    &&& r.lexeme@ == "Unterminated string."@
                }
                &&& q < old(self).text().len() ==> {
                    &&& final(self).pos() == q + 1
                    &&& r.token_type == TokenType::String
                    &&& r.lexeme@ == old(self).text().subrange(
                        old(self).token_start(),
                        final(self).pos(),
                    )
                }
            }),
            final(self).line_no() == old(self).line_no() + newlines(
                old(self).text(),
                old(self).pos(),
                final(self).pos(),
            ),
            r.line == final(self).line_no(),
    {
        let ghost s = self.text();
        let ghost from = self.pos();
        let ghost l0 = self.line_no();
        while self.peek() != '"' && !self.is_at_end()
            invariant
                self.wf(),
                self.text() == s,
                self.token_start() == old(self).token_start(),
                from <= self.pos() <= s.len(),
                quote_end(s, self.pos()) == quote_end(s, from),
                self.line_no() == l0 + newlines(s, from, self.pos()),
            decreases s.len() - self.pos(),
        {
            if self.peek() == '\n' {
                self.advance();
                self.line = self.line + 1;
            } else {
                self.advance();
            }
        }
        if self.is_at_end() {
            return self.error_token("Unterminated string.");
        }
        self.advance();
        self.make_token(TokenType::String)
    }

    /// Scans the rest of a number literal whose first digit was just read.
    pub fn number(&mut self) -> (r: Token<'src>)
        requires
            old(self).wf(),
            old(self).pos() == old(self).token_start() + 1,
            is_digit(old(self).text()[old(self).token_start()]),
        ensures
            final(self).wf(),
            final(self).text() == old(self).text(),
            final(self).token_start() == old(self).token_start(),
            final(self).pos() == token_end(old(self).text(), old(self).token_start()),
            final(self).line_no() == old(self).line_no(),
            newlines(old(self).text(), old(self).pos(), final(self).pos()) == 0,
            r.token_type == TokenType::Number,
            r.lexeme@ == old(self).text().subrange(old(self).token_start(), final(self).pos()),
            r.line == final(self).line_no(),
    {
        let ghost s = self.text();
        let ghost from = self.pos();
        while is_digit_char(self.peek())
            invariant
                self.wf(),
                self.text() == s,
                self.token_start() == old(self).token_start(),
                self.line_no() == old(self).line_no(),
                from <= self.pos() <= s.len(),
                digits_end(s, self.pos()) == digits_end(s, from),
                newlines(s, from, self.pos()) == 0,
            decreases s.len() - self.pos(),
        {
            self.advance();
        }
        if self.peek() == '.' && is_digit_char(self.peek_next()) {
            self.advance();
            let ghost d = self.pos();
            while is_digit_char(self.peek())
                invariant
                    self.wf(),
                    self.text() == s,
                    self.token_start() == old(self).token_start(),
                    self.line_no() == old(self).line_no(),
                    d <= self.pos() <= s.len(),
                    digits_end(s, self.pos()) == digits_end(s, d),
                    newlines(s, from, self.pos()) == 0,
                decreases s.len() - self.pos(),
            {
                self.advance();
            }
        }
        self.make_token(TokenType::Number)
    }

    /// Whether the current lexeme spells `word`.
    pub fn lexeme_is(&self, word: &str) -> (r: bool)
        requires
            self.wf(),
        ensures
            r == (self.text().subrange(self.token_start(), self.pos()) == word@),
    {
        let n = word.unicode_len();
        if n != self.current - self.start {
            return false;
        }
        let ghost lex = self.text().subrange(self.token_start(), self.pos());
        let mut i: usize = 0;
        while i < n
            invariant
                self.wf(),
                n == word@.len(),
                n == lex.len(),
                lex == self.text().subrange(self.token_start(), self.pos()),
                i <= n,
                forall|k: int| 0 <= k < i ==> lex[k] == word@[k],
            decreases n - i,
        {
            if self.source.get_char(self.start + i) != word.get_char(i) {
                assert(lex[i as int] != word@[i as int]);
                return false;
            }
            i = i + 1;
        }
        assert(lex =~= word@);
        true
    }

    /// The token for the lexeme just read: a reserved word or an identifier.
    pub fn identifier_token(&mut self) -> (r: Token<'src>)
        requires
            old(self).wf(),
        ensures
            *final(self) == *old(self),
            r.token_type == keyword_kind(old(self).text().subrange(old(self).token_start(), old(self).pos())),
            r.lexeme@ == old(self).text().subrange(old(self).token_start(), old(self).pos()),
            r.line == old(self).line_no(),
    {
        let token_type = if self.lexeme_is("and") {
            TokenType::And
        } else if self.lexeme_is("class") {
            TokenType::Class
        } else if self.lexeme_is("else") {
            TokenType::Else
        } else if self.lexeme_is("false") {
            TokenType::False
        } else if self.lexeme_is("for") {
            TokenType::For
        } else if self.lexeme_is("fun") {
            TokenType::Fun
        } else if self.lexeme_is("if") {
            TokenType::If
        } else if self.lexeme_is("nil") {
            TokenType::Nil
        } else if self.lexeme_is("or") {
            TokenType::Or
        } else if self.lexeme_is("print") {
            TokenType::Print
        } else if self.lexeme_is("return") {
            TokenType::Return
        } else if self.lexeme_is("super") {
            TokenType::Super
        } else if self.lexeme_is("this") {
            TokenType::This
        } else if self.lexeme_is("true") {
            TokenType::True
        } else if self.lexeme_is("var") {
            TokenType::Var
        } else if self.lexeme_is("while") {
            TokenType::While
        } else {
            TokenType::Identifier
        };
        self.make_token(token_type)
    }

    /// Scans the rest of an identifier whose first character was just read.
    pub fn identifier(&mut self) -> (r: Token<'src>)
        requires
            old(self).wf(),
            old(self).pos() == old(self).token_start() + 1,
        ensures
            final(self).wf(),
            final(self).text() == old(self).text(),
            final(self).token_start() == old(self).token_start(),
            final(self).pos() == word_end(old(self).text(), old(self).pos()),
            final(self).line_no() == old(self).line_no(),
            newlines(old(self).text(), old(self).pos(), final(self).pos()) == 0,
            r.token_type == keyword_kind(
                old(self).text().subrange(old(self).token_start(), final(self).pos()),
            ),
            r.lexeme@ == old(self).text().subrange(old(self).token_start(), final(self).pos()),
            r.line == final(self).line_no(),
    {
        let ghost s = self.text();
        let ghost from = self.pos();
        loop
            invariant
                self.wf(),
                self.text() == s,
                self.token_start() == old(self).token_start(),
                self.line_no() == old(self).line_no(),
                from <= self.pos() <= s.len(),
                word_end(s, self.pos()) == word_end(s, from),
                newlines(s, from, self.pos()) == 0,
            ensures
                self.pos() == word_end(s, from),
            decreases s.len() - self.pos(),
        {
            let c = self.peek();
            if !(is_alpha_char(c) || is_digit_char(c)) || self.is_at_end() {
                break;
            }
            self.advance();
        }
        self.identifier_token()
    }

    /// Skips blanks and comments, then reads the next token.
    pub fn scan_token(&mut self) -> (r: Token<'src>)
        requires
            old(self).wf(),
        ensures
            final(self).wf(),
            final(self).text() == old(self).text(),
            ({
                let s = old(self).text();
                let p = skip_end(s, old(self).pos(), false);
                &&& final(self).token_start() == p
                &&& final(self).pos() == token_end(s, p)
                &&& r.token_type == token_kind(s, p)
                &&& r.token_type != TokenType::Error ==> r.lexeme@ == s.subrange(p, final(self).pos())
                &&& r.token_type == TokenType::Error ==> r.lexeme@ == error_text(s, p)
            }),
            final(self).line_no() == old(self).line_no() + newlines(
                old(self).text(),
                old(self).pos(),
                final(self).pos(),
            ),
            r.line == final(self).line_no(),
    {
        let ghost s = self.text();
        let ghost o = self.pos();
        proof {
            lemma_skip_end(s, o, false);
        }
        self.skip_whitespace();
        self.start = self.current;
        if self.is_at_end() {
            return self.make_token(TokenType::Eof);
        }
        let ghost p = self.pos();
        let ghost l1 = self.line_no();
        let c = self.advance();
        assert(newlines(s, o, p + 1) == newlines(s, o, p));
        let token = if c == '(' {
            self.make_token(TokenType::LeftParen)
        } else if c == ')' {
            self.make_token(TokenType::RightParen)
        } else if c == '{' {
            self.make_token(TokenType::LeftBrace)
        } else if c == '}' {
            self.make_token(TokenType::RightBrace)
        } else if c == ';' {
            self.make_token(TokenType::Semicolon)
        } else if c == ',' {
            self.make_token(TokenType::Comma)
        } else if c == '.' {
            self.make_token(TokenType::Dot)
        } else if c == '-' {
            self.make_token(TokenType::Minus)
        } else if c == '+' {
            self.make_token(TokenType::Plus)
        } else if c == '/' {
            self.make_token(TokenType::Slash)
        } else if c == '*' {
            self.make_token(TokenType::Star)
        } else if c == '!' || c == '=' || c == '<' || c == '>' {
            let paired = self.match_next('=');
            assert(newlines(s, p + 1, p + 1) == 0);
            assert(newlines(s, p + 1, self.pos()) == 0);
            if c == '!' {
                self.make_token(if paired { TokenType::BangEqual } else { TokenType::Bang })
            } else if c == '=' {
                self.make_token(if paired { TokenType::EqualEqual } else { TokenType::Equal })
            } else if c == '<' {
                self.make_token(if paired { TokenType::LessEqual } else { TokenType::Less })
            } else {
                self.make_token(
                    if paired {
                        TokenType::GreaterEqual
                    } else {
                        TokenType::Greater
                    },
                )
            }
        } else if c == '"' {
            proof {
                lemma_quote_end(s, p + 1);
            }
            self.string()
        } else if is_digit_char(c) {
            proof {
                lemma_digits_end(s, p + 1);
            }
            self.number()
        } else if is_alpha_char(c) {
            proof {
                lemma_word_end(s, p + 1);
            }
            self.identifier()
        } else {
            self.error_token("Unexpected character.")
        };
        proof {
            lemma_token_end(s, p);
            lemma_newlines_split(s, o, p + 1, self.pos());
        }
        token
    }
}

/// The texts of the number literals of a source, in order, for the caller to
/// convert into numbers before compiling.
pub fn number_literals<'src>(source: &'src str) -> (r: Vec<&'src str>)
    requires
        source@.len() < usize::MAX,
    ensures
        r@.map_values(|l: &'src str| l@) == number_lexemes_from(source@, 0),
{
    let mut scanner = Scanner::new(source);
    let mut found: Vec<&'src str> = Vec::new();
    let ghost s = source@;
    loop
        invariant
            scanner.wf(),
            scanner.text() == s,
            0 <= scanner.pos() <= s.len(),
            found@.map_values(|l: &'src str| l@) + number_lexemes_from(s, scanner.pos())
                == number_lexemes_from(s, 0),
        ensures
            found@.map_values(|l: &'src str| l@) == number_lexemes_from(s, 0),
        decreases s.len() - scanner.pos(),
    {
        let ghost before = scanner.pos();
        proof {
            lemma_stream_step(s, before);
        }
        let token = scanner.scan_token();
        if token.token_type == TokenType::Eof {
            assert(found@.map_values(|l: &'src str| l@) + Seq::<Seq<char>>::empty()
                =~= found@.map_values(|l: &'src str| l@));
            break;
        }
        if token.token_type == TokenType::Number {
            let ghost old_found = found@;
            found.push(token.lexeme);
            assert(found@.map_values(|l: &'src str| l@) =~= old_found.map_values(
                |l: &'src str| l@,
            ).push(token.lexeme@));
            assert(found@.map_values(|l: &'src str| l@) + number_lexemes_from(s, scanner.pos())
                =~= old_found.map_values(|l: &'src str| l@) + number_lexemes_from(s, before));
        }
    }
    found
}

pub fn is_digit_char(c: char) -> (r: bool)
    ensures
        r == is_digit(c),
{
    '0' <= c && c <= '9'
}

pub fn is_alpha_char(c: char) -> (r: bool)
    ensures
        r == is_alpha(c),
{
    ('a' <= c && c <= 'z') || ('A' <= c && c <= 'Z') || c == '_'
}

} // verus!
