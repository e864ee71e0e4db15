use speedjunk::lexer::{
    CharClass, Token, TokenKind, chars_of, classify, is_decimal, is_operator, is_parenthesis, lexer,
    scan,
};
use speedjunk::parser::{Parser, check_numeral};

fn tok(kind: TokenKind, text: &str) -> Token {
    Token { kind, text: text.to_string() }
}

#[test]
fn character_classes() {
    for c in ['+', '-', '*', '/', '^'] {
        assert!(is_operator(c));
    }
    assert!(!is_operator('('));
    assert!(!is_operator('x'));
    assert!(is_decimal('.'));
    assert!(is_decimal(','));
    assert!(!is_decimal('1'));
    assert!(is_parenthesis('('));
    assert!(is_parenthesis(')'));
    assert!(!is_parenthesis('['));
}

#[test]
fn numbers_words_and_operators() {
    assert_eq!(
        lexer("12.5+sqrt(x)"),
        vec![
            tok(TokenKind::Number, "12.5"),
            tok(TokenKind::BinaryOp, "+"),
            tok(TokenKind::Function, "sqrt"),
            tok(TokenKind::Parenthesis, "("),
            tok(TokenKind::Function, "x"),
            tok(TokenKind::Parenthesis, ")"),
        ]
    );
}

#[test]
fn whitespace_and_unknown_characters_are_skipped() {
    assert_eq!(
        lexer(" 2 \t$ 3 "),
        vec![tok(TokenKind::Number, "2"), tok(TokenKind::Number, "3")]
    );
    assert_eq!(lexer(""), vec![]);
}

#[test]
fn unicode_white_space_is_skipped() {
    assert_eq!(
        lexer("1\u{a0}+\u{3000}2\n"),
        vec![tok(TokenKind::Number, "1"), tok(TokenKind::BinaryOp, "+"), tok(TokenKind::Number, "2")]
    );
}

#[test]
fn separators_stay_inside_a_number() {
    assert_eq!(lexer("1,5.2"), vec![tok(TokenKind::Number, "1,5.2")]);
    // A separator may start a number.
    assert_eq!(lexer(".5"), vec![tok(TokenKind::Number, ".5")]);
    assert_eq!(lexer("2*,5"), vec![
        tok(TokenKind::Number, "2"),
        tok(TokenKind::BinaryOp, "*"),
        tok(TokenKind::Number, ",5"),
    ]);
}

#[test]
fn unicode_letters_and_digits() {
    assert_eq!(lexer("é٣"), vec![tok(TokenKind::Function, "é"), tok(TokenKind::Number, "٣")]);
}

#[test]
fn minus_classification() {
    assert_eq!(
        lexer("-1-(-2)*-3"),
        vec![
            tok(TokenKind::UnaryOp, "-"),
            tok(TokenKind::Number, "1"),
            tok(TokenKind::BinaryOp, "-"),
            tok(TokenKind::Parenthesis, "("),
            tok(TokenKind::UnaryOp, "-"),
            tok(TokenKind::Number, "2"),
            tok(TokenKind::Parenthesis, ")"),
            tok(TokenKind::BinaryOp, "*"),
            tok(TokenKind::UnaryOp, "-"),
            tok(TokenKind::Number, "3"),
        ]
    );
    assert_eq!(
        lexer("--"),
        vec![tok(TokenKind::UnaryOp, "-"), tok(TokenKind::BinaryOp, "-")]
    );
}

#[test]
fn copy_is_identical() {
    let t = tok(TokenKind::Function, "cos");
    assert_eq!(t.copy(), t);
}

#[test]
fn chars_in_order() {
    assert_eq!(chars_of("aé1"), vec!['a', 'é', '1']);
}

#[test]
fn numerals() {
    assert!(check_numeral(&"10".to_string()));
    assert!(check_numeral(&"0.25".to_string()));
    assert!(!check_numeral(&".".to_string()));
    assert!(!check_numeral(&"1..2".to_string()));
    assert!(!check_numeral(&"3,0".to_string()));
    assert!(!check_numeral(&"".to_string()));
}

#[test]
fn next_token_looks_one_ahead() {
    let mut parser = Parser::new();
    assert_eq!(parser.next_token().kind, TokenKind::Sentinel);
    let tokens = lexer("1+2");
    let _ = parser.create_ast(&tokens);
    // The cursor ends after the last token.
    assert_eq!(parser.next_token().kind, TokenKind::Sentinel);
    let mut fresh = Parser::new();
    let one = lexer("7");
    let _ = fresh.create_ast(&one);
    assert_eq!(fresh.next_token(), tok(TokenKind::Sentinel, "0"));
    assert_eq!(Parser::new().next_token(), tok(TokenKind::Sentinel, "0"));
    let mut inside = Parser::new();
    let three = lexer("1+)");
    let _ = inside.create_ast(&three);
    // The cursor stops at the offending `)`, the last token.
    assert_eq!(inside.next_token(), tok(TokenKind::Sentinel, "0"));
}

#[test]
fn classes_of_characters() {
    assert_eq!(
        classify(' '),
        CharClass { whitespace: true, numeric: false, alphabetic: false }
    );
    assert_eq!(
        classify('7'),
        CharClass { whitespace: false, numeric: true, alphabetic: false }
    );
    assert_eq!(
        classify('q'),
        CharClass { whitespace: false, numeric: false, alphabetic: true }
    );
    assert_eq!(
        classify('+'),
        CharClass { whitespace: false, numeric: false, alphabetic: false }
    );
}

#[test]
fn scan_follows_the_given_classes() {
    let chars = vec!['a', '1', ' ', '-'];
    // Treat 'a' as a digit and '1' as a letter.
    let classes = vec![
        CharClass { whitespace: false, numeric: true, alphabetic: false },
        CharClass { whitespace: false, numeric: false, alphabetic: true },
        CharClass { whitespace: true, numeric: false, alphabetic: false },
        CharClass { whitespace: false, numeric: false, alphabetic: false },
    ];
    assert_eq!(
        scan(&chars, &classes),
        vec![
            tok(TokenKind::Number, "a"),
            tok(TokenKind::Function, "1"),
            tok(TokenKind::BinaryOp, "-"),
        ]
    );
}
