use speedjunk::ast::{BinaryOp, Expr};
use speedjunk::error::{MathError, SyntaxError, SyntaxErrorKind};
use speedjunk::functions::{MathFunction, lookup_function};
use speedjunk::lexer::lexer;
use speedjunk::parser::{Parser, parse, parse_line};

fn num(text: &str) -> Expr {
    Expr::Number(text.to_string())
}

fn bin(op: BinaryOp, l: Expr, r: Expr) -> Expr {
    Expr::Binary(op, Box::new(l), Box::new(r))
}

fn neg(x: Expr) -> Expr {
    Expr::Negate(Box::new(x))
}

fn syntax(kind: SyntaxErrorKind, position: usize) -> Result<Expr, SyntaxError> {
    Err(SyntaxError { kind, position })
}

#[test]
fn multiplication_binds_tighter_than_addition() {
    assert_eq!(
        parse_line("2+3*4"),
        Ok(bin(BinaryOp::Add, num("2"), bin(BinaryOp::Mul, num("3"), num("4"))))
    );
}

#[test]
fn parentheses_override_precedence() {
    assert_eq!(
        parse_line("(2+3)*4"),
        Ok(bin(BinaryOp::Mul, bin(BinaryOp::Add, num("2"), num("3")), num("4")))
    );
}

#[test]
fn power_groups_to_the_right() {
    assert_eq!(
        parse_line("2^3^2"),
        Ok(bin(BinaryOp::Pow, num("2"), bin(BinaryOp::Pow, num("3"), num("2"))))
    );
}

#[test]
fn subtraction_and_division_group_to_the_left() {
    assert_eq!(
        parse_line("8-4-2"),
        Ok(bin(BinaryOp::Sub, bin(BinaryOp::Sub, num("8"), num("4")), num("2")))
    );
    assert_eq!(
        parse_line("8/4/2"),
        Ok(bin(BinaryOp::Div, bin(BinaryOp::Div, num("8"), num("4")), num("2")))
    );
}

#[test]
fn leading_minus_is_unary() {
    assert_eq!(
        parse_line("-3+5"),
        Ok(bin(BinaryOp::Add, neg(num("3")), num("5")))
    );
}

#[test]
fn minus_after_binary_operator_is_unary() {
    assert_eq!(
        parse_line("3--2"),
        Ok(bin(BinaryOp::Sub, num("3"), neg(num("2"))))
    );
}

#[test]
fn minus_after_power_is_unary() {
    assert_eq!(
        parse_line("2^-1"),
        Ok(bin(BinaryOp::Pow, num("2"), neg(num("1"))))
    );
}

#[test]
fn unary_minus_binds_looser_than_power() {
    assert_eq!(
        parse_line("-2^2"),
        Ok(neg(bin(BinaryOp::Pow, num("2"), num("2"))))
    );
}

#[test]
fn unclosed_parenthesis_names_the_opening() {
    assert_eq!(parse_line("(1+2"), syntax(SyntaxErrorKind::UnclosedParenthesis, 0));
    assert_eq!(parse_line("sqrt(9"), syntax(SyntaxErrorKind::UnclosedParenthesis, 1));
}

#[test]
fn missing_right_operand() {
    assert_eq!(parse_line("1+"), syntax(SyntaxErrorKind::MissingOperand, 2));
}

#[test]
fn empty_line_lacks_an_operand() {
    assert_eq!(parse_line(""), syntax(SyntaxErrorKind::MissingOperand, 0));
    assert_eq!(parse_line("   "), syntax(SyntaxErrorKind::MissingOperand, 0));
}

#[test]
fn operator_where_operand_expected() {
    assert_eq!(parse_line("*3"), syntax(SyntaxErrorKind::UnexpectedToken, 0));
    assert_eq!(parse_line("1+)"), syntax(SyntaxErrorKind::UnexpectedToken, 2));
}

#[test]
fn stray_closing_parenthesis() {
    assert_eq!(parse_line("1)"), syntax(SyntaxErrorKind::UnmatchedClosingParenthesis, 1));
    assert_eq!(parse_line("(1))"), syntax(SyntaxErrorKind::UnmatchedClosingParenthesis, 3));
}

#[test]
fn trailing_operand_is_unexpected() {
    assert_eq!(parse_line("1 2"), syntax(SyntaxErrorKind::UnexpectedToken, 1));
    assert_eq!(parse_line("(1 2)"), syntax(SyntaxErrorKind::UnexpectedToken, 2));
}

#[test]
fn bare_identifier_is_rejected() {
    assert_eq!(parse_line("x+1"), syntax(SyntaxErrorKind::BareIdentifier, 0));
}

#[test]
fn invalid_numerals_are_rejected_when_read() {
    assert_eq!(parse_line("1.2.3"), syntax(SyntaxErrorKind::InvalidNumber, 0));
    assert_eq!(parse_line("2+1,5"), syntax(SyntaxErrorKind::InvalidNumber, 2));
    assert_eq!(parse_line("2.5"), Ok(num("2.5")));
    assert_eq!(parse_line("7."), Ok(num("7.")));
    assert_eq!(parse_line(".5"), Ok(num(".5")));
    assert_eq!(parse_line("."), syntax(SyntaxErrorKind::InvalidNumber, 0));
}

#[test]
fn double_minus_at_start_is_rejected() {
    // The second `-` follows a prefix minus, not a binary operator.
    assert_eq!(parse_line("--3"), syntax(SyntaxErrorKind::UnexpectedToken, 1));
}

#[test]
fn reading_twice_gives_the_same_result() {
    for line in ["2+3*4", "(1+2", "sqrt(9)", "1+", "foo(1)"] {
        assert_eq!(parse_line(line), parse_line(line));
    }
}

#[test]
fn function_call_is_parsed_and_dispatched() {
    assert_eq!(
        parse_line("sqrt(9)"),
        Ok(Expr::Call("sqrt".to_string(), Box::new(num("9"))))
    );
    assert_eq!(lookup_function("sqrt"), Ok(MathFunction::Sqrt));
    assert_eq!(
        parse_line("sqrt(-1)"),
        Ok(Expr::Call("sqrt".to_string(), Box::new(neg(num("1")))))
    );
}

#[test]
fn unknown_function_is_reported_by_name() {
    assert_eq!(
        parse_line("foo(1)"),
        Ok(Expr::Call("foo".to_string(), Box::new(num("1"))))
    );
    assert_eq!(
        lookup_function("foo"),
        Err(MathError::UnknownFunction("foo".to_string()))
    );
}

#[test]
fn function_table() {
    assert_eq!(lookup_function("ln"), Ok(MathFunction::Ln));
    assert_eq!(lookup_function("log"), Ok(MathFunction::Log));
    assert_eq!(lookup_function("exp"), Ok(MathFunction::Exp));
    assert_eq!(lookup_function("sin"), Ok(MathFunction::Sin));
    assert_eq!(lookup_function("cos"), Ok(MathFunction::Cos));
    assert_eq!(lookup_function("tan"), Ok(MathFunction::Tan));
    assert_eq!(lookup_function("abs"), Ok(MathFunction::Abs));
    assert_eq!(
        lookup_function("sq"),
        Err(MathError::UnknownFunction("sq".to_string()))
    );
    assert_eq!(
        lookup_function("sqrtx"),
        Err(MathError::UnknownFunction("sqrtx".to_string()))
    );
}

#[test]
fn parse_and_parser_agree() {
    let tokens = lexer("(2+3)*sqrt(4)");
    let mut parser = Parser::new();
    assert_eq!(parser.create_ast(&tokens), parse(&tokens));
}

#[test]
fn fully_parenthesised_text_reads_back() {
    assert_eq!(
        parse_line("((1-2)/(-(3)))"),
        Ok(bin(BinaryOp::Div, bin(BinaryOp::Sub, num("1"), num("2")), neg(num("3"))))
    );
}
