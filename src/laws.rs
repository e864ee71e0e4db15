use vstd::prelude::*;
use crate::ast::{BinaryOp, Expr, SpecExpr};
use crate::error::SyntaxError;
use crate::lexer::{TokenKind, TokenView, lex, single};
use crate::parser::{
    Parsed, expression_at, result_view, expression_rest, factor_at, is_symbol, parse_tokens, power_at, term_at,
    term_rest, token_at, unary_at, valid_numeral,
};

verus! {

pub open spec fn op_char(op: BinaryOp) -> char {
    match op {
        BinaryOp::Add => '+',
        BinaryOp::Sub => '-',
        BinaryOp::Mul => '*',
        BinaryOp::Div => '/',
        BinaryOp::Pow => '^',
    }
}

/// A tree whose numerals are all valid.
pub open spec fn well_formed(e: SpecExpr) -> bool
    decreases e,
{
    match e {
        SpecExpr::Binary(_, l, r) => well_formed(*l) && well_formed(*r),
        SpecExpr::Negate(x) => well_formed(*x),
        SpecExpr::Call(_, x) => well_formed(*x),
        SpecExpr::Number(t) => valid_numeral(t),
    }
}

/// The tokens of a tree written out with every operation in parentheses:
/// `(l op r)`, `(-x)`, `name(x)`, and numerals as they are.
pub open spec fn tokens_of(e: SpecExpr) -> Seq<TokenView>
    decreases e,
{
    match e {
        SpecExpr::Binary(op, l, r) => seq![single(TokenKind::Parenthesis, '(')] + tokens_of(*l)
            + seq![single(TokenKind::BinaryOp, op_char(op))] + tokens_of(*r) + seq![
            single(TokenKind::Parenthesis, ')'),
        ],
        SpecExpr::Negate(x) => seq![
            single(TokenKind::Parenthesis, '('),
            single(TokenKind::UnaryOp, '-'),
        ] + tokens_of(*x) + seq![single(TokenKind::Parenthesis, ')')],
        SpecExpr::Call(name, x) => seq![
            TokenView { kind: TokenKind::Function, text: name },
            single(TokenKind::Parenthesis, '('),
        ] + tokens_of(*x) + seq![single(TokenKind::Parenthesis, ')')],
        SpecExpr::Number(t) => seq![TokenView { kind: TokenKind::Number, text: t }],
    }
}

proof fn lemma_tokens_of_first(e: SpecExpr)
    ensures
        tokens_of(e).len() >= 1,
        tokens_of(e)[0].kind != TokenKind::UnaryOp,
    decreases e,
{
}

/// Reading an operand that a non-`^` token follows, as a `unary`.
proof fn lemma_unary_of_factor(ts: Seq<TokenView>, p: int, e: SpecExpr, q: int)
    requires
        0 <= p <= q <= ts.len(),
        factor_at(ts, p) == Parsed::Ok((e, q)),
        token_at(ts, p).kind != TokenKind::UnaryOp,
        !is_symbol(token_at(ts, q), TokenKind::BinaryOp, '^'),
    ensures
        power_at(ts, p) == Parsed::Ok((e, q)),
        unary_at(ts, p) == Parsed::Ok((e, q)),
{
}

/// Reading an operand that `)` or the end follows, as a `term` and as an
/// `expression`.
proof fn lemma_expression_of_unary(ts: Seq<TokenView>, p: int, e: SpecExpr, q: int)
    requires
        0 <= p <= q <= ts.len(),
        unary_at(ts, p) == Parsed::Ok((e, q)),
        q == ts.len() || is_symbol(token_at(ts, q), TokenKind::Parenthesis, ')'),
    ensures
        term_at(ts, p) == Parsed::Ok((e, q)),
        expression_at(ts, p) == Parsed::Ok((e, q)),
{
    assert(term_rest(ts, q, e) == Parsed::Ok((e, q)));
    assert(expression_rest(ts, q, e) == Parsed::Ok((e, q)));
}

proof fn lemma_single_is(k: TokenKind, c: char, k2: TokenKind, d: char)
    ensures
        is_symbol(single(k, c), k2, d) == (k == k2 && c == d),
{
    if seq![c] == seq![d] {
        assert(seq![c][0] == seq![d][0]);
    }
}

proof fn lemma_negate_case(ts: Seq<TokenView>, p: int, x: SpecExpr, q: int)
    requires
        0 <= p,
        p + 2 <= q < ts.len(),
        token_at(ts, p) == single(TokenKind::Parenthesis, '('),
        token_at(ts, p + 1) == single(TokenKind::UnaryOp, '-'),
        token_at(ts, p + 2).kind != TokenKind::UnaryOp,
        factor_at(ts, p + 2) == Parsed::Ok((x, q)),
        token_at(ts, q) == single(TokenKind::Parenthesis, ')'),
    ensures
        factor_at(ts, p) == Parsed::Ok((SpecExpr::Negate(Box::new(x)), q + 1)),
{
    let e = SpecExpr::Negate(Box::new(x));
    lemma_single_is(TokenKind::Parenthesis, ')', TokenKind::BinaryOp, '^');
    lemma_single_is(TokenKind::Parenthesis, '(', TokenKind::Parenthesis, '(');
    lemma_single_is(TokenKind::Parenthesis, ')', TokenKind::Parenthesis, ')');
    lemma_single_is(TokenKind::UnaryOp, '-', TokenKind::UnaryOp, '-');
    lemma_unary_of_factor(ts, p + 2, x, q);
    assert(unary_at(ts, p + 1) == Parsed::Ok((e, q)));
    lemma_expression_of_unary(ts, p + 1, e, q);
}

proof fn lemma_call_case(ts: Seq<TokenView>, p: int, name: Seq<char>, x: SpecExpr, q: int)
    requires
        0 <= p,
        p + 2 <= q < ts.len(),
        token_at(ts, p) == (TokenView { kind: TokenKind::Function, text: name }),
        token_at(ts, p + 1) == single(TokenKind::Parenthesis, '('),
        token_at(ts, p + 2).kind != TokenKind::UnaryOp,
        factor_at(ts, p + 2) == Parsed::Ok((x, q)),
        token_at(ts, q) == single(TokenKind::Parenthesis, ')'),
    ensures
        factor_at(ts, p) == Parsed::Ok((SpecExpr::Call(name, Box::new(x)), q + 1)),
{
    lemma_single_is(TokenKind::Parenthesis, ')', TokenKind::BinaryOp, '^');
    lemma_single_is(TokenKind::Parenthesis, '(', TokenKind::Parenthesis, '(');
    lemma_single_is(TokenKind::Parenthesis, ')', TokenKind::Parenthesis, ')');
    lemma_unary_of_factor(ts, p + 2, x, q);
    lemma_expression_of_unary(ts, p + 2, x, q);
}

#[verifier::rlimit(40)]
proof fn lemma_binary_case(
    ts: Seq<TokenView>,
    p: int,
    op: BinaryOp,
    l: SpecExpr,
    q1: int,
    r: SpecExpr,
    q2: int,
)
    requires
        0 <= p,
        p + 1 <= q1,
        q1 + 1 <= q2 < ts.len(),
        token_at(ts, p) == single(TokenKind::Parenthesis, '('),
        token_at(ts, p + 1).kind != TokenKind::UnaryOp,
        factor_at(ts, p + 1) == Parsed::Ok((l, q1)),
        token_at(ts, q1) == single(TokenKind::BinaryOp, op_char(op)),
        token_at(ts, q1 + 1).kind != TokenKind::UnaryOp,
        factor_at(ts, q1 + 1) == Parsed::Ok((r, q2)),
        token_at(ts, q2) == single(TokenKind::Parenthesis, ')'),
    ensures
        factor_at(ts, p) == Parsed::Ok((SpecExpr::Binary(op, Box::new(l), Box::new(r)), q2 + 1)),
{
    let e = SpecExpr::Binary(op, Box::new(l), Box::new(r));
    lemma_single_is(TokenKind::Parenthesis, ')', TokenKind::BinaryOp, '^');
    lemma_single_is(TokenKind::Parenthesis, ')', TokenKind::BinaryOp, '*');
    lemma_single_is(TokenKind::Parenthesis, ')', TokenKind::BinaryOp, '/');
    lemma_single_is(TokenKind::Parenthesis, ')', TokenKind::BinaryOp, '+');
    lemma_single_is(TokenKind::Parenthesis, ')', TokenKind::BinaryOp, '-');
    lemma_single_is(TokenKind::Parenthesis, '(', TokenKind::Parenthesis, '(');
    lemma_single_is(TokenKind::Parenthesis, ')', TokenKind::Parenthesis, ')');
    lemma_single_is(TokenKind::BinaryOp, op_char(op), TokenKind::BinaryOp, '^');
    lemma_single_is(TokenKind::BinaryOp, op_char(op), TokenKind::BinaryOp, '*');
    lemma_single_is(TokenKind::BinaryOp, op_char(op), TokenKind::BinaryOp, '/');
    lemma_single_is(TokenKind::BinaryOp, op_char(op), TokenKind::BinaryOp, '+');
    lemma_single_is(TokenKind::BinaryOp, op_char(op), TokenKind::BinaryOp, '-');
    lemma_unary_of_factor(ts, q1 + 1, r, q2);
    match op {
        BinaryOp::Pow => {
            assert(power_at(ts, p + 1) == Parsed::Ok((e, q2)));
            assert(unary_at(ts, p + 1) == Parsed::Ok((e, q2)));
            lemma_expression_of_unary(ts, p + 1, e, q2);
        },
        BinaryOp::Mul | BinaryOp::Div => {
            lemma_unary_of_factor(ts, p + 1, l, q1);
            assert(term_rest(ts, q2, e) == Parsed::Ok((e, q2)));
            assert(term_rest(ts, q1, l) == Parsed::Ok((e, q2)));
            assert(term_at(ts, p + 1) == Parsed::Ok((e, q2)));
            assert(expression_rest(ts, q2, e) == Parsed::Ok((e, q2)));
            assert(expression_at(ts, p + 1) == Parsed::Ok((e, q2)));
        },
        BinaryOp::Add | BinaryOp::Sub => {
            lemma_unary_of_factor(ts, p + 1, l, q1);
            assert(term_rest(ts, q1, l) == Parsed::Ok((l, q1)));
            assert(term_at(ts, p + 1) == Parsed::Ok((l, q1)));
            lemma_expression_of_unary(ts, q1 + 1, r, q2);
            assert(expression_rest(ts, q2, e) == Parsed::Ok((e, q2)));
            assert(expression_rest(ts, q1, l) == Parsed::Ok((e, q2)));
            assert(expression_at(ts, p + 1) == Parsed::Ok((e, q2)));
        },
    }
}

/// Where `part` stands at `p + at` inside `whole`, which stands at `p`.
proof fn lemma_part_at(ts: Seq<TokenView>, p: int, whole: Seq<TokenView>, at: int, part: Seq<TokenView>)
    requires
        0 <= p,
        0 <= at,
        at + part.len() <= whole.len(),
        p + whole.len() <= ts.len(),
        ts.subrange(p, p + whole.len()) == whole,
        whole.subrange(at, at + part.len()) == part,
    ensures
        ts.subrange(p + at, p + at + part.len()) == part,
{
    assert(ts.subrange(p + at, p + at + part.len()) =~= part) by {
        assert forall|i: int| 0 <= i < part.len() implies ts.subrange(
            p + at,
            p + at + part.len(),
        )[i] == part[i] by {
            assert(ts.subrange(p, p + whole.len())[at + i] == ts[p + at + i]);
            assert(whole.subrange(at, at + part.len())[i] == whole[at + i]);
        }
    }
}

/// The token at `p + i` inside `whole`, which stands at `p`.
proof fn lemma_token_in(ts: Seq<TokenView>, p: int, whole: Seq<TokenView>, i: int)
    requires
        0 <= p,
        0 <= i < whole.len(),
        p + whole.len() <= ts.len(),
        ts.subrange(p, p + whole.len()) == whole,
    ensures
        token_at(ts, p + i) == whole[i],
{
    assert(ts.subrange(p, p + whole.len())[i] == ts[p + i]);
}

/// Where the tokens of a tree stand at `p`: where those of its parts stand.
proof fn lemma_layout(ts: Seq<TokenView>, p: int, e: SpecExpr)
    requires
        0 <= p,
        p + tokens_of(e).len() <= ts.len(),
        ts.subrange(p, p + tokens_of(e).len()) == tokens_of(e),
    ensures
        token_at(ts, p) == tokens_of(e)[0],
        match e {
            SpecExpr::Binary(op, l, r) => {
                let a = tokens_of(*l).len() as int;
                let b = tokens_of(*r).len() as int;
                &&& ts.subrange(p + 1, p + 1 + a) == tokens_of(*l)
                &&& ts.subrange(p + 2 + a, p + 2 + a + b) == tokens_of(*r)
                &&& token_at(ts, p + 1).kind != TokenKind::UnaryOp
                &&& token_at(ts, p + 1 + a) == single(TokenKind::BinaryOp, op_char(op))
                &&& token_at(ts, p + 2 + a).kind != TokenKind::UnaryOp
                &&& token_at(ts, p + 2 + a + b) == single(TokenKind::Parenthesis, ')')
            },
            SpecExpr::Negate(x) | SpecExpr::Call(_, x) => {
                let m = tokens_of(*x).len() as int;
                &&& ts.subrange(p + 2, p + 2 + m) == tokens_of(*x)
                &&& token_at(ts, p + 1) == tokens_of(e)[1]
                &&& token_at(ts, p + 2).kind != TokenKind::UnaryOp
                &&& token_at(ts, p + 2 + m) == single(TokenKind::Parenthesis, ')')
            },
            SpecExpr::Number(_) => true,
        },
{
    let w = tokens_of(e);
    lemma_token_in(ts, p, w, 0);
    match e {
        SpecExpr::Number(_) => {},
        SpecExpr::Negate(x) | SpecExpr::Call(_, x) => {
            let tx = tokens_of(*x);
            let m = tx.len() as int;
            assert(w.subrange(2, 2 + m) =~= tx);
            lemma_part_at(ts, p, w, 2, tx);
            lemma_tokens_of_first(*x);
            lemma_token_in(ts, p, w, 1);
            lemma_token_in(ts, p, w, 2);
            lemma_token_in(ts, p, w, 2 + m);
            assert(w[2] == tx[0]);
        },
        SpecExpr::Binary(op, l, r) => {
            let tl = tokens_of(*l);
            let tr = tokens_of(*r);
            let a = tl.len() as int;
            let b = tr.len() as int;
            assert(w.subrange(1, 1 + a) =~= tl);
            assert(w.subrange(2 + a, 2 + a + b) =~= tr);
            lemma_part_at(ts, p, w, 1, tl);
            lemma_part_at(ts, p, w, 2 + a, tr);
            lemma_tokens_of_first(*l);
            lemma_tokens_of_first(*r);
            lemma_token_in(ts, p, w, 1);
            lemma_token_in(ts, p, w, 1 + a);
            lemma_token_in(ts, p, w, 2 + a);
            lemma_token_in(ts, p, w, 2 + a + b);
            assert(w[1] == tl[0]);
            assert(w[2 + a] == tr[0]);
        },
    }
}

/// Where the tokens of a well-formed tree stand at `p`, a `factor` read at
/// `p` gives the tree back and stops just after them.
proof fn lemma_factor_reads(ts: Seq<TokenView>, p: int, e: SpecExpr)
    requires
        well_formed(e),
        0 <= p,
        p + tokens_of(e).len() <= ts.len(),
        ts.subrange(p, p + tokens_of(e).len()) == tokens_of(e),
    ensures
        factor_at(ts, p) == Parsed::Ok((e, p + tokens_of(e).len())),
    decreases e, 1int,
{
    lemma_layout(ts, p, e);
    match e {
        SpecExpr::Number(_) => {},
        SpecExpr::Binary(..) => lemma_binary_reads(ts, p, e),
        _ => lemma_operand_reads(ts, p, e),
    }
}

proof fn lemma_operand_reads(ts: Seq<TokenView>, p: int, e: SpecExpr)
    requires
        well_formed(e),
        0 <= p,
        p + tokens_of(e).len() <= ts.len(),
        ts.subrange(p, p + tokens_of(e).len()) == tokens_of(e),
        e is Negate || e is Call,
    ensures
        factor_at(ts, p) == Parsed::Ok((e, p + tokens_of(e).len())),
    decreases e, 0int,
{
    lemma_layout(ts, p, e);
    match e {
        SpecExpr::Negate(x) => {
            lemma_factor_reads(ts, p + 2, *x);
            lemma_negate_case(ts, p, *x, p + 2 + tokens_of(*x).len());
        },
        SpecExpr::Call(name, x) => {
            lemma_factor_reads(ts, p + 2, *x);
            lemma_call_case(ts, p, name, *x, p + 2 + tokens_of(*x).len());
        },
        _ => {},
    }
}

proof fn lemma_binary_reads(ts: Seq<TokenView>, p: int, e: SpecExpr)
    requires
        well_formed(e),
        0 <= p,
        p + tokens_of(e).len() <= ts.len(),
        ts.subrange(p, p + tokens_of(e).len()) == tokens_of(e),
        e is Binary,
    ensures
        factor_at(ts, p) == Parsed::Ok((e, p + tokens_of(e).len())),
    decreases e, 0int,
{
    lemma_layout(ts, p, e);
    match e {
        SpecExpr::Binary(op, l, r) => {
            let a = tokens_of(*l).len() as int;
            let b = tokens_of(*r).len() as int;
            lemma_factor_reads(ts, p + 1, *l);
            lemma_factor_reads(ts, p + 2 + a, *r);
            lemma_binary_case(ts, p, op, *l, p + 1 + a, *r, p + 2 + a + b);
        },
        _ => {},
    }
}

/// Every well-formed tree, written out with its operations in parentheses,
/// is read back as that same tree: on such input the parser succeeds and
/// loses nothing.
pub proof fn lemma_parse_of_printed(e: SpecExpr)
    requires
        well_formed(e),
    ensures
        parse_tokens(tokens_of(e)) == Ok::<SpecExpr, SyntaxError>(e),
{
    let ts = tokens_of(e);
    assert(ts.subrange(0, ts.len() as int) =~= ts);
    lemma_factor_reads(ts, 0, e);
    lemma_tokens_of_first(e);
    lemma_unary_of_factor(ts, 0, e, ts.len() as int);
    lemma_expression_of_unary(ts, 0, e, ts.len() as int);
}

/// Reading a line depends on its text alone: two readings of the same text
/// have the same outcome, whatever was read before.
pub proof fn lemma_reading_is_repeatable(
    text: Seq<char>,
    first: Result<Expr, SyntaxError>,
    second: Result<Expr, SyntaxError>,
)
    requires
        result_view(first) == parse_tokens(lex(text)),
        result_view(second) == parse_tokens(lex(text)),
    ensures
        result_view(first) == result_view(second),
{
}

} // verus!
