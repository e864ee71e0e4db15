use vstd::prelude::*;
use crate::ast::{BinaryOp, Expr, SpecExpr};
use crate::error::{SyntaxError, SyntaxErrorKind};
use crate::lexer::{Token, TokenKind, TokenView, chars_of, lex, lexer, single_token, tokens_view};

verus! {

/// The outcome of reading one grammar rule: the tree and the position just
/// after it, or the first syntax error.
pub type Parsed = Result<(SpecExpr, int), SyntaxError>;

/// The token at `p`, or past the last one the end-of-stream marker, whose
/// text is `0`.
pub open spec fn token_at(ts: Seq<TokenView>, p: int) -> TokenView {
    if 0 <= p < ts.len() {
        ts[p]
    } else {
        TokenView { kind: TokenKind::Sentinel, text: seq!['0'] }
    }
}

pub open spec fn is_symbol(t: TokenView, kind: TokenKind, c: char) -> bool {
    t.kind == kind && t.text == seq![c]
}

pub open spec fn error_at(kind: SyntaxErrorKind, p: int) -> SyntaxError {
    SyntaxError { kind, position: p as usize }
}

pub open spec fn additive_op(t: TokenView) -> Option<BinaryOp> {
    if is_symbol(t, TokenKind::BinaryOp, '+') {
        Some(BinaryOp::Add)
    } else if is_symbol(t, TokenKind::BinaryOp, '-') {
        Some(BinaryOp::Sub)
    } else {
        None
    }
}

pub open spec fn multiplicative_op(t: TokenView) -> Option<BinaryOp> {
    if is_symbol(t, TokenKind::BinaryOp, '*') {
        Some(BinaryOp::Mul)
    } else if is_symbol(t, TokenKind::BinaryOp, '/') {
        Some(BinaryOp::Div)
    } else {
        None
    }
}

pub open spec fn ascii_digit(c: char) -> bool {
    '0' <= c <= '9'
}

/// ASCII digits and at most one `.`, with at least one digit.
pub open spec fn valid_numeral(s: Seq<char>) -> bool {
    &&& forall|i: int| 0 <= i < s.len() ==> ascii_digit(#[trigger] s[i]) || s[i] == '.'
    &&& exists|i: int| 0 <= i < s.len() && ascii_digit(#[trigger] s[i])
    &&& forall|i: int, j: int| 0 <= i < j < s.len() && #[trigger] s[i] == '.' ==> #[trigger] s[j] != '.'
}

// Each rule below takes the position where it starts. Where a rule goes on
// from the position that a sub-rule returned, it first compares the two: the
// sub-rules never move backwards, and the comparison lets the definitions
// terminate without that fact.

/// expression := term (('+' | '-') term)*
pub open spec fn expression_at(ts: Seq<TokenView>, p: int) -> Parsed
    decreases ts.len() - p, 8int,
{
    match term_at(ts, p) {
        Err(e) => Err(e),
        Ok((t, q)) => if p <= q <= ts.len() {
            expression_rest(ts, q, t)
        } else {
            Ok((t, q))
        },
    }
}

/// The `(('+' | '-') term)*` part, folded to the left onto `acc`.
pub open spec fn expression_rest(ts: Seq<TokenView>, p: int, acc: SpecExpr) -> Parsed
    decreases ts.len() - p, 7int,
{
    match additive_op(token_at(ts, p)) {
        None => Ok((acc, p)),
        Some(op) => match term_at(ts, p + 1) {
            Err(e) => Err(e),
            Ok((t, q)) => if p + 1 <= q <= ts.len() {
                expression_rest(ts, q, SpecExpr::Binary(op, Box::new(acc), Box::new(t)))
            } else {
                Ok((t, q))
            },
        },
    }
}

/// term := unary (('*' | '/') unary)*
pub open spec fn term_at(ts: Seq<TokenView>, p: int) -> Parsed
    decreases ts.len() - p, 6int,
{
    match unary_at(ts, p) {
        Err(e) => Err(e),
        Ok((u, q)) => if p <= q <= ts.len() {
            term_rest(ts, q, u)
        } else {
            Ok((u, q))
        },
    }
}

/// The `(('*' | '/') unary)*` part, folded to the left onto `acc`.
pub open spec fn term_rest(ts: Seq<TokenView>, p: int, acc: SpecExpr) -> Parsed
    decreases ts.len() - p, 5int,
{
    match multiplicative_op(token_at(ts, p)) {
        None => Ok((acc, p)),
        Some(op) => match unary_at(ts, p + 1) {
            Err(e) => Err(e),
            Ok((u, q)) => if p + 1 <= q <= ts.len() {
                term_rest(ts, q, SpecExpr::Binary(op, Box::new(acc), Box::new(u)))
            } else {
                Ok((u, q))
            },
        },
    }
}

/// unary := '-' unary | power
pub open spec fn unary_at(ts: Seq<TokenView>, p: int) -> Parsed
    decreases ts.len() - p, 4int,
{
    if is_symbol(token_at(ts, p), TokenKind::UnaryOp, '-') {
        match unary_at(ts, p + 1) {
            Err(e) => Err(e),
            Ok((u, q)) => Ok((SpecExpr::Negate(Box::new(u)), q)),
        }
    } else {
        power_at(ts, p)
    }
}

/// power := factor ('^' unary)?, so that `^` groups to the right.
pub open spec fn power_at(ts: Seq<TokenView>, p: int) -> Parsed
    decreases ts.len() - p, 3int,
{
    match factor_at(ts, p) {
        Err(e) => Err(e),
        Ok((f, q)) => if p <= q <= ts.len() && is_symbol(
            token_at(ts, q),
            TokenKind::BinaryOp,
            '^',
        ) {
            match unary_at(ts, q + 1) {
                Err(e) => Err(e),
                Ok((u, r)) => Ok((SpecExpr::Binary(BinaryOp::Pow, Box::new(f), Box::new(u)), r)),
            }
        } else {
            Ok((f, q))
        },
    }
}

/// After a parenthesised expression that opened at `open` and ended at `q`:
/// the position after its `)`, or the error.
pub open spec fn close_at(ts: Seq<TokenView>, open: int, q: int) -> Result<int, SyntaxError> {
    if is_symbol(token_at(ts, q), TokenKind::Parenthesis, ')') {
        Ok(q + 1)
    } else if q >= ts.len() {
        Err(error_at(SyntaxErrorKind::UnclosedParenthesis, open))
    } else {
        Err(error_at(SyntaxErrorKind::UnexpectedToken, q))
    }
}

/// factor := Number | Function '(' expression ')' | '(' expression ')'
pub open spec fn factor_at(ts: Seq<TokenView>, p: int) -> Parsed
    decreases ts.len() - p, 2int,
{
    let t = token_at(ts, p);
    if p < 0 || p >= ts.len() {
        Err(error_at(SyntaxErrorKind::MissingOperand, p))
    } else if t.kind == TokenKind::Number {
        if valid_numeral(t.text) {
            Ok((SpecExpr::Number(t.text), p + 1))
        } else {
            Err(error_at(SyntaxErrorKind::InvalidNumber, p))
        }
    } else if t.kind == TokenKind::Function {
        if is_symbol(token_at(ts, p + 1), TokenKind::Parenthesis, '(') {
            match expression_at(ts, p + 2) {
                Err(e) => Err(e),
                Ok((e, q)) => match close_at(ts, p + 1, q) {
                    Err(err) => Err(err),
                    Ok(r) => Ok((SpecExpr::Call(t.text, Box::new(e)), r)),
                },
            }
        } else {
            Err(error_at(SyntaxErrorKind::BareIdentifier, p))
        }
    } else if is_symbol(t, TokenKind::Parenthesis, '(') {
        match expression_at(ts, p + 1) {
            Err(e) => Err(e),
            Ok((e, q)) => match close_at(ts, p, q) {
                Err(err) => Err(err),
                Ok(r) => Ok((e, r)),
            },
        }
    } else {
        Err(error_at(SyntaxErrorKind::UnexpectedToken, p))
    }
}

/// A whole token sequence as one expression: the tree, or the first error.
pub open spec fn parse_tokens(ts: Seq<TokenView>) -> Result<SpecExpr, SyntaxError> {
    match expression_at(ts, 0) {
        Err(e) => Err(e),
        Ok((e, q)) => if q == ts.len() {
            Ok(e)
        } else if is_symbol(token_at(ts, q), TokenKind::Parenthesis, ')') {
            Err(error_at(SyntaxErrorKind::UnmatchedClosingParenthesis, q))
        } else {
            Err(error_at(SyntaxErrorKind::UnexpectedToken, q))
        },
    }
}

/// The view of a parse result.
pub open spec fn result_view(r: Result<Expr, SyntaxError>) -> Result<SpecExpr, SyntaxError> {
    match r {
        Ok(e) => Ok(e@),
        Err(err) => Err(err),
    }
}

pub open spec fn outcome(r: Result<Expr, SyntaxError>, q: usize) -> Parsed {
    match r {
        Ok(e) => Ok((e@, q as int)),
        Err(err) => Err(err),
    }
}

/// Whether `s` is the single character `c`.
fn text_is_char(s: &String, c: char) -> (r: bool)
    ensures
        r == (s@ == seq![c]),
{
    let t = s.as_str();
    if t.unicode_len() == 1 {
        let d = t.get_char(0);
        if d == c {
            assert(s@ =~= seq![c]);
        }
        d == c
    } else {
        false
    }
}

/// Whether `s` is a numeral: ASCII digits and at most one `.`, with at least
/// one digit.
pub fn check_numeral(s: &String) -> (r: bool)
    ensures
        r == valid_numeral(s@),
{
    let cs = chars_of(s.as_str());
    let n = cs.len();
    let mut seen_digit = false;
    let mut seen_dot = false;
    let ghost mut dot: int = 0;
    let mut i: usize = 0;
    while i < n
        invariant
            cs@ == s@,
            n == cs.len(),
            i <= n,
            forall|k: int| 0 <= k < i ==> ascii_digit(#[trigger] cs@[k]) || cs@[k] == '.',
            seen_digit == exists|k: int| 0 <= k < i && ascii_digit(#[trigger] cs@[k]),
            seen_dot ==> 0 <= dot < i && cs@[dot] == '.',
            !seen_dot ==> forall|k: int| 0 <= k < i ==> #[trigger] cs@[k] != '.',
            forall|k: int, j: int| 0 <= k < j < i && #[trigger] cs@[k] == '.' ==> #[trigger] cs@[j] != '.',
        decreases n - i,
    {
        let c = cs[i];
        if '0' <= c && c <= '9' {
            seen_digit = true;
        } else if c == '.' {
            if seen_dot {
                assert(cs@[dot] == '.' && cs@[i as int] == '.');
                return false;
            }
            seen_dot = true;
            proof {
                dot = i as int;
            }
        } else {
            assert(!(ascii_digit(cs@[i as int]) || cs@[i as int] == '.'));
            return false;
        }
        i = i + 1;
    }
    seen_digit
}

/// A recursive-descent parser: the tokens of one line and a cursor into
/// them that only moves forward.
pub struct Parser {
    curr_token: usize,
    all_tokens: Vec<Token>,
}

impl Parser {
    /// The tokens being read.
    pub closed spec fn tokens(&self) -> Seq<TokenView> {
        tokens_view(self.all_tokens@)
    }

    /// The index of the token under the cursor.
    pub closed spec fn position(&self) -> int {
        self.curr_token as int
    }

    /// A parser with no tokens.
    pub fn new() -> (p: Self)
        ensures
            p.tokens() == Seq::<TokenView>::empty(),
            p.position() == 0,
    {
        let p = Parser { curr_token: 0, all_tokens: Vec::new() };
        assert(p.tokens() =~= Seq::<TokenView>::empty());
        p
    }

    /// The token just after the cursor, or the end-of-stream marker.
    pub fn next_token(&self) -> (t: Token)
        ensures
            t@ == token_at(self.tokens(), self.position() + 1),
    {
        let n = self.all_tokens.len();
        if n > 0 && self.curr_token < n - 1 {
            self.all_tokens[self.curr_token + 1].copy()
        } else {
            single_token(TokenKind::Sentinel, '0')
        }
    }

    fn current_is(&self, kind: TokenKind, c: char) -> (r: bool)
        requires
            kind != TokenKind::Sentinel,
        ensures
            r == is_symbol(token_at(self.tokens(), self.position()), kind, c),
            r ==> self.curr_token < self.all_tokens.len(),
    {
        if self.curr_token < self.all_tokens.len() {
            let t = &self.all_tokens[self.curr_token];
            t.kind == kind && text_is_char(&t.text, c)
        } else {
            assert(seq![c].len() == 1);
            false
        }
    }

    /// Reads the tokens of one line as a single expression, from the first
    /// token to the last.
    pub fn create_ast(&mut self, tokens: &Vec<Token>) -> (r: Result<Expr, SyntaxError>)
        ensures
            final(self).tokens() == tokens_view(tokens@),
            result_view(r) == parse_tokens(tokens_view(tokens@)),
    {
        let mut copied: Vec<Token> = Vec::new();
        let mut i: usize = 0;
        while i < tokens.len()
            invariant
                i <= tokens.len(),
                copied@ == tokens@.take(i as int),
            decreases tokens.len() - i,
        {
            copied.push(tokens[i].copy());
            assert(copied@ =~= tokens@.take(i + 1));
            i = i + 1;
        }
        assert(copied@ =~= tokens@);
        self.all_tokens = copied;
        self.curr_token = 0;
        let ghost ts = self.tokens();
        match self.parse_expression() {
            Err(e) => Err(e),
            Ok(e) => {
                let q = self.curr_token;
                if q == self.all_tokens.len() {
                    Ok(e)
                } else if self.current_is(TokenKind::Parenthesis, ')') {
                    Err(SyntaxError { kind: SyntaxErrorKind::UnmatchedClosingParenthesis, position: q })
                } else {
                    Err(SyntaxError { kind: SyntaxErrorKind::UnexpectedToken, position: q })
                }
            },
        }
    }

    fn additive_here(&self) -> (r: Option<BinaryOp>)
        ensures
            r == additive_op(token_at(self.tokens(), self.position())),
            r is Some ==> self.curr_token < self.all_tokens.len(),
    {
        if self.current_is(TokenKind::BinaryOp, '+') {
            Some(BinaryOp::Add)
        } else if self.current_is(TokenKind::BinaryOp, '-') {
            Some(BinaryOp::Sub)
        } else {
            None
        }
    }

    fn multiplicative_here(&self) -> (r: Option<BinaryOp>)
        ensures
            r == multiplicative_op(token_at(self.tokens(), self.position())),
            r is Some ==> self.curr_token < self.all_tokens.len(),
    {
        if self.current_is(TokenKind::BinaryOp, '*') {
            Some(BinaryOp::Mul)
        } else if self.current_is(TokenKind::BinaryOp, '/') {
            Some(BinaryOp::Div)
        } else {
            None
        }
    }

    fn parse_expression(&mut self) -> (r: Result<Expr, SyntaxError>)
        requires
            old(self).position() <= old(self).tokens().len(),
        ensures
            final(self).tokens() == old(self).tokens(),
            old(self).position() <= final(self).position() <= final(self).tokens().len(),
            expression_at(old(self).tokens(), old(self).position()) == outcome(
                r,
                final(self).curr_token,
            ),
        decreases old(self).tokens().len() - old(self).position(), 8int,
    {
        let ghost ts = self.tokens();
        let ghost p0 = self.position();
        let mut acc = match self.parse_term() {
            Err(e) => return Err(e),
            Ok(t) => t,
        };
        loop
            invariant
                ts == old(self).tokens(),
                p0 == old(self).position(),
                self.tokens() == ts,
                p0 <= self.position() <= ts.len(),
                expression_at(ts, p0) == expression_rest(ts, self.position(), acc@),
            decreases ts.len() - self.position(),
        {
            let op = match self.additive_here() {
                None => return Ok(acc),
                Some(op) => op,
            };
            self.curr_token = self.curr_token + 1;
            match self.parse_term() {
                Err(e) => return Err(e),
                Ok(t) => {
                    acc = Expr::Binary(op, Box::new(acc), Box::new(t));
                },
            }
        }
    }

    fn parse_term(&mut self) -> (r: Result<Expr, SyntaxError>)
        requires
            old(self).position() <= old(self).tokens().len(),
        ensures
            final(self).tokens() == old(self).tokens(),
            old(self).position() <= final(self).position() <= final(self).tokens().len(),
            term_at(old(self).tokens(), old(self).position()) == outcome(r, final(self).curr_token),
        decreases old(self).tokens().len() - old(self).position(), 6int,
    {
        let ghost ts = self.tokens();
        let ghost p0 = self.position();
        let mut acc = match self.parse_unary() {
            Err(e) => return Err(e),
            Ok(u) => u,
        };
        loop
            invariant
                ts == old(self).tokens(),
                p0 == old(self).position(),
                self.tokens() == ts,
                p0 <= self.position() <= ts.len(),
                term_at(ts, p0) == term_rest(ts, self.position(), acc@),
            decreases ts.len() - self.position(),
        {
            let op = match self.multiplicative_here() {
                None => return Ok(acc),
                Some(op) => op,
            };
            self.curr_token = self.curr_token + 1;
            match self.parse_unary() {
                Err(e) => return Err(e),
                Ok(u) => {
                    acc = Expr::Binary(op, Box::new(acc), Box::new(u));
                },
            }
        }
    }

    fn parse_unary(&mut self) -> (r: Result<Expr, SyntaxError>)
        requires
            old(self).position() <= old(self).tokens().len(),
        ensures
            final(self).tokens() == old(self).tokens(),
            old(self).position() <= final(self).position() <= final(self).tokens().len(),
            unary_at(old(self).tokens(), old(self).position()) == outcome(r, final(self).curr_token),
        decreases old(self).tokens().len() - old(self).position(), 4int,
    {
        if self.current_is(TokenKind::UnaryOp, '-') {
            self.curr_token = self.curr_token + 1;
            match self.parse_unary() {
                Err(e) => Err(e),
                Ok(u) => Ok(Expr::Negate(Box::new(u))),
            }
        } else {
            self.parse_power()
        }
    }

    fn parse_power(&mut self) -> (r: Result<Expr, SyntaxError>)
        requires
            old(self).position() <= old(self).tokens().len(),
        ensures
            final(self).tokens() == old(self).tokens(),
            old(self).position() <= final(self).position() <= final(self).tokens().len(),
            power_at(old(self).tokens(), old(self).position()) == outcome(r, final(self).curr_token),
        decreases old(self).tokens().len() - old(self).position(), 3int,
    {
        let base = match self.parse_factor() {
            Err(e) => return Err(e),
            Ok(f) => f,
        };
        if self.current_is(TokenKind::BinaryOp, '^') {
            self.curr_token = self.curr_token + 1;
            match self.parse_unary() {
                Err(e) => Err(e),
                Ok(u) => Ok(Expr::Binary(BinaryOp::Pow, Box::new(base), Box::new(u))),
            }
        } else {
            Ok(base)
        }
    }

    /// Expects the `)` of the group that `open` opened.
    fn close(&mut self, open: usize) -> (r: Result<(), SyntaxError>)
        requires
            old(self).position() <= old(self).tokens().len(),
        ensures
            final(self).tokens() == old(self).tokens(),
            old(self).position() <= final(self).position() <= final(self).tokens().len(),
            close_at(old(self).tokens(), open as int, old(self).position()) == match r {
                Ok(_) => Ok(final(self).position()),
                Err(e) => Err::<int, SyntaxError>(e),
            },
    {
        if self.current_is(TokenKind::Parenthesis, ')') {
            self.curr_token = self.curr_token + 1;
            Ok(())
        } else if self.curr_token >= self.all_tokens.len() {
            Err(SyntaxError { kind: SyntaxErrorKind::UnclosedParenthesis, position: open })
        } else {
            Err(SyntaxError { kind: SyntaxErrorKind::UnexpectedToken, position: self.curr_token })
        }
    }

    fn parse_factor(&mut self) -> (r: Result<Expr, SyntaxError>)
        requires
            old(self).position() <= old(self).tokens().len(),
        ensures
            final(self).tokens() == old(self).tokens(),
            old(self).position() <= final(self).position() <= final(self).tokens().len(),
            factor_at(old(self).tokens(), old(self).position()) == outcome(
                r,
                final(self).curr_token,
            ),
        decreases old(self).tokens().len() - old(self).position(), 2int,
    {
        let p = self.curr_token;
        if p >= self.all_tokens.len() {
            return Err(SyntaxError { kind: SyntaxErrorKind::MissingOperand, position: p });
        }
        let kind = self.all_tokens[p].kind;
        if kind == TokenKind::Number {
            if check_numeral(&self.all_tokens[p].text) {
                let text = self.all_tokens[p].text.clone();
                self.curr_token = p + 1;
                Ok(Expr::Number(text))
            } else {
                Err(SyntaxError { kind: SyntaxErrorKind::InvalidNumber, position: p })
            }
        } else if kind == TokenKind::Function {
            let following = self.next_token();
            if following.kind == TokenKind::Parenthesis && text_is_char(&following.text, '(') {
                let name = self.all_tokens[p].text.clone();
                self.curr_token = p + 2;
                let arg = match self.parse_expression() {
                    Err(e) => return Err(e),
                    Ok(e) => e,
                };
                match self.close(p + 1) {
                    Err(e) => Err(e),
                    Ok(()) => Ok(Expr::Call(name, Box::new(arg))),
                }
            } else {
                Err(SyntaxError { kind: SyntaxErrorKind::BareIdentifier, position: p })
            }
        } else if self.current_is(TokenKind::Parenthesis, '(') {
            self.curr_token = p + 1;
            let inner = match self.parse_expression() {
                Err(e) => return Err(e),
                Ok(e) => e,
            };
            match self.close(p) {
                Err(e) => Err(e),
                Ok(()) => Ok(inner),
            }
        } else {
            Err(SyntaxError { kind: SyntaxErrorKind::UnexpectedToken, position: p })
        }
    }
}

/// Parses a token sequence into one expression tree.
pub fn parse(tokens: &Vec<Token>) -> (r: Result<Expr, SyntaxError>)
    ensures
        result_view(r) == parse_tokens(tokens_view(tokens@)),
{
    let mut parser = Parser::new();
    parser.create_ast(tokens)
}

/// Reads one line of text as an expression: its tokens, then its tree.
pub fn parse_line(text: &str) -> (r: Result<Expr, SyntaxError>)
    ensures
        result_view(r) == parse_tokens(lex(text@)),
{
    let tokens = lexer(text);
    parse(&tokens)
}

} // verus!
