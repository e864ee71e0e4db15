use vstd::prelude::*;

verus! {

pub open spec fn operator_char(c: char) -> bool {
    c == '+' || c == '-' || c == '*' || c == '/' || c == '^'
}

pub open spec fn decimal_char(c: char) -> bool {
    c == ',' || c == '.'
}

pub open spec fn parenthesis_char(c: char) -> bool {
    c == '(' || c == ')'
}

/// True for the five operator characters `+ - * / ^`.
pub fn is_operator(c: char) -> (r: bool)
    ensures
        r == operator_char(c),
{
    match c {
        '+' => true,
        '-' => true,
        '*' => true,
        '/' => true,
        '^' => true,
        _ => false,
    }
}

/// True for the decimal separators `,` and `.`.
pub fn is_decimal(c: char) -> (r: bool)
    ensures
        r == decimal_char(c),
{
    match c {
        ',' => true,
        '.' => true,
        _ => false,
    }
}

/// True for `(` and `)`.
pub fn is_parenthesis(c: char) -> (r: bool)
    ensures
        r == parenthesis_char(c),
{
    match c {
        '(' => true,
        ')' => true,
        _ => false,
    }
}

/// The characters of `s`, in order.
pub fn chars_of(s: &str) -> (r: Vec<char>)
    ensures
        r@ == s@,
{
    let mut r: Vec<char> = Vec::new();
    for c in it: s.chars()
        invariant
            r@ == it.seq().take(it.index() as int),
    {
        r.push(c);
    }
    r
}

/// The characters with the Unicode `White_Space` property.
pub open spec fn whitespace_char(c: char) -> bool {
    ||| '\u{9}' <= c <= '\u{d}'
    ||| c == ' '
    ||| c == '\u{85}'
    ||| c == '\u{a0}'
    ||| c == '\u{1680}'
    ||| '\u{2000}' <= c <= '\u{200a}'
    ||| c == '\u{2028}'
    ||| c == '\u{2029}'
    ||| c == '\u{202f}'
    ||| c == '\u{205f}'
    ||| c == '\u{3000}'
}

pub uninterp spec fn numeric_char(c: char) -> bool;

pub uninterp spec fn alphabetic_char(c: char) -> bool;

/// Relies on `char::is_whitespace`: whether `c` has the Unicode `White_Space`
/// property, which these code points make up.
#[verifier::external_body]
fn is_whitespace(c: char) -> (r: bool)
    ensures
        r == whitespace_char(c),
{
    c.is_whitespace()
}

/// Relies on `char::is_numeric`: whether `c` is in one of the Unicode number
/// categories, a fact about `c` alone.
#[verifier::external_body]
fn is_numeric(c: char) -> (r: bool)
    ensures
        r == numeric_char(c),
{
    c.is_numeric()
}

/// Relies on `char::is_alphabetic`: whether `c` has the Unicode `Alphabetic`
/// property, a fact about `c` alone.
#[verifier::external_body]
fn is_alphabetic(c: char) -> (r: bool)
    ensures
        r == alphabetic_char(c),
{
    c.is_alphabetic()
}

/// Relies on `String::push`: appends `c` to the end of `s`.
#[verifier::external_body]
fn push_char(s: &mut String, c: char)
    ensures
        final(s)@ == old(s)@.push(c),
{
    s.push(c)
}

/// The class of a lexical unit.
#[derive(Debug, Clone, Copy, PartialEq, Eq, Structural)]
pub enum TokenKind {
    /// A run of digits and decimal separators that starts with either.
    Number,
    /// One of `+ - * / ^` in operator position.
    BinaryOp,
    /// A `-` that follows an operator, an opening parenthesis, or nothing.
    UnaryOp,
    /// A run of letters; an identifier or a function name.
    Function,
    /// `(` or `)`.
    Parenthesis,
    /// The end-of-stream marker, with the text `0`; it stands for no character
    /// of the input.
    Sentinel,
}

/// What a token is, as mathematics: its kind and its characters.
pub struct TokenView {
    pub kind: TokenKind,
    pub text: Seq<char>,
}

/// A classified lexical unit with the characters it was made from.
#[derive(Debug, Clone, PartialEq, Eq)]
pub struct Token {
    pub kind: TokenKind,
    pub text: String,
}

impl View for Token {
    type V = TokenView;

    open spec fn view(&self) -> TokenView {
        TokenView { kind: self.kind, text: self.text@ }
    }
}

impl Token {
    /// An identical, independently owned token.
    pub fn copy(&self) -> (r: Token)
        ensures
            r == *self,
    {
        Token { kind: self.kind, text: self.text.clone() }
    }
}

pub open spec fn tokens_view(ts: Seq<Token>) -> Seq<TokenView> {
    ts.map_values(|t: Token| t@)
}

/// What the lexer needs to know of a character beyond its identity.
#[derive(Debug, Clone, Copy, PartialEq, Eq, Structural)]
pub struct CharClass {
    pub whitespace: bool,
    pub numeric: bool,
    pub alphabetic: bool,
}

pub open spec fn class_of(c: char) -> CharClass {
    CharClass {
        whitespace: whitespace_char(c),
        numeric: numeric_char(c),
        alphabetic: alphabetic_char(c),
    }
}

/// The Unicode classes of `c` that the lexer reads.
pub fn classify(c: char) -> (r: CharClass)
    ensures
        r == class_of(c),
{
    CharClass { whitespace: is_whitespace(c), numeric: is_numeric(c), alphabetic: is_alphabetic(c) }
}

/// The end of the run of digits and decimal separators that goes on at `j`;
/// `k` holds the classes of the characters of `s`.
pub open spec fn number_end(s: Seq<char>, k: Seq<CharClass>, j: int) -> int
    decreases s.len() - j,
{
    if 0 <= j < s.len() && (k[j].numeric || decimal_char(s[j])) {
        number_end(s, k, j + 1)
    } else {
        j
    }
}

/// The end of the run of letters that goes on at `j`.
pub open spec fn word_end(s: Seq<char>, k: Seq<CharClass>, j: int) -> int
    decreases s.len() - j,
{
    if 0 <= j < s.len() && k[j].alphabetic {
        word_end(s, k, j + 1)
    } else {
        j
    }
}

pub proof fn lemma_number_end_bounds(s: Seq<char>, k: Seq<CharClass>, j: int)
    requires
        0 <= j <= s.len(),
    ensures
        j <= number_end(s, k, j) <= s.len(),
    decreases s.len() - j,
{
    if j < s.len() && (k[j].numeric || decimal_char(s[j])) {
        lemma_number_end_bounds(s, k, j + 1);
    }
}

pub proof fn lemma_word_end_bounds(s: Seq<char>, k: Seq<CharClass>, j: int)
    requires
        0 <= j <= s.len(),
    ensures
        j <= word_end(s, k, j) <= s.len(),
    decreases s.len() - j,
{
    if j < s.len() && k[j].alphabetic {
        lemma_word_end_bounds(s, k, j + 1);
    }
}

pub open spec fn single(kind: TokenKind, c: char) -> TokenView {
    TokenView { kind, text: seq![c] }
}

/// The tokens of `s` from index `i` on, where `k` holds the classes of its
/// characters. `unary` says whether a `-` at this point is a prefix minus:
/// true at the start of the line and after a binary operator or an opening
/// parenthesis.
pub open spec fn scan_from(s: Seq<char>, k: Seq<CharClass>, i: int, unary: bool) -> Seq<
    TokenView,
>
    decreases s.len() - i,
{
    if i < 0 || i >= s.len() {
        seq![]
    } else {
        let c = s[i];
        if k[i].whitespace {
            scan_from(s, k, i + 1, unary)
        } else if k[i].numeric || decimal_char(c) {
            let e = number_end(s, k, i + 1);
            proof {
                lemma_number_end_bounds(s, k, i + 1);
            }
            seq![TokenView { kind: TokenKind::Number, text: s.subrange(i, e) }] + scan_from(
                s,
                k,
                e,
                false,
            )
        } else if k[i].alphabetic {
            let e = word_end(s, k, i + 1);
            proof {
                lemma_word_end_bounds(s, k, i + 1);
            }
            seq![TokenView { kind: TokenKind::Function, text: s.subrange(i, e) }] + scan_from(
                s,
                k,
                e,
                false,
            )
        } else if operator_char(c) {
            if c == '-' && unary {
                seq![single(TokenKind::UnaryOp, c)] + scan_from(s, k, i + 1, false)
            } else {
                seq![single(TokenKind::BinaryOp, c)] + scan_from(s, k, i + 1, true)
            }
        } else if parenthesis_char(c) {
            seq![single(TokenKind::Parenthesis, c)] + scan_from(s, k, i + 1, c == '(')
        } else {
            scan_from(s, k, i + 1, unary)
        }
    }
}

/// The classes of the characters of `s`.
pub open spec fn classes_of(s: Seq<char>) -> Seq<CharClass> {
    s.map_values(|c: char| class_of(c))
}

/// The token sequence of a whole line.
pub open spec fn lex(s: Seq<char>) -> Seq<TokenView> {
    scan_from(s, classes_of(s), 0, true)
}

/// A token of one character.
pub fn single_token(kind: TokenKind, c: char) -> (t: Token)
    ensures
        t@ == single(kind, c),
{
    let mut text = String::new();
    push_char(&mut text, c);
    assert(text@ =~= seq![c]);
    Token { kind, text }
}

/// Splits characters into tokens, scanning left to right, given the class
/// of each character. Whitespace and characters that start no token are
/// skipped; a `-` is a prefix minus at the start and after a binary operator
/// or `(`.
pub fn scan(chars: &Vec<char>, classes: &Vec<CharClass>) -> (tokens: Vec<Token>)
    requires
        classes.len() == chars.len(),
    ensures
        tokens_view(tokens@) == scan_from(chars@, classes@, 0, true),
{
    let n = chars.len();
    let ghost s = chars@;
    let ghost k = classes@;
    let mut tokens: Vec<Token> = Vec::new();
    let mut unary = true;
    let mut i: usize = 0;
    while i < n
        invariant
            s == chars@,
            k == classes@,
            n == s.len(),
            n == k.len(),
            i <= n,
            tokens_view(tokens@) + scan_from(s, k, i as int, unary) == scan_from(s, k, 0, true),
        decreases n - i,
    {
        let c = chars[i];
        let class = classes[i];
        let ghost before = tokens_view(tokens@);
        if class.whitespace {
            i = i + 1;
        } else if class.numeric || is_decimal(c) {
            let mut text = String::new();
            push_char(&mut text, c);
            let mut j: usize = i + 1;
            while j < n && (classes[j].numeric || is_decimal(chars[j]))
                invariant
                    s == chars@,
                    k == classes@,
                    n == s.len(),
                    n == k.len(),
                    i < j <= n,
                    text@ == s.subrange(i as int, j as int),
                    number_end(s, k, j as int) == number_end(s, k, i + 1),
                decreases n - j,
            {
                push_char(&mut text, chars[j]);
                assert(text@ =~= s.subrange(i as int, j + 1));
                j = j + 1;
            }
            let t = Token { kind: TokenKind::Number, text };
            tokens.push(t);
            assert(tokens_view(tokens@) =~= before.push(t@));
            assert(before.push(t@) + scan_from(s, k, j as int, false) =~= before + (seq![t@]
                + scan_from(s, k, j as int, false)));
            unary = false;
            i = j;
        } else if class.alphabetic {
            let mut text = String::new();
            push_char(&mut text, c);
            let mut j: usize = i + 1;
            while j < n && classes[j].alphabetic
                invariant
                    s == chars@,
                    k == classes@,
                    n == s.len(),
                    n == k.len(),
                    i < j <= n,
                    text@ == s.subrange(i as int, j as int),
                    word_end(s, k, j as int) == word_end(s, k, i + 1),
                decreases n - j,
            {
                push_char(&mut text, chars[j]);
                assert(text@ =~= s.subrange(i as int, j + 1));
                j = j + 1;
            }
            let t = Token { kind: TokenKind::Function, text };
            tokens.push(t);
            assert(tokens_view(tokens@) =~= before.push(t@));
            assert(before.push(t@) + scan_from(s, k, j as int, false) =~= before + (seq![t@]
                + scan_from(s, k, j as int, false)));
            unary = false;
            i = j;
        } else if is_operator(c) {
            let kind = if c == '-' && unary {
                TokenKind::UnaryOp
            } else {
                TokenKind::BinaryOp
            };
            let t = single_token(kind, c);
            tokens.push(t);
            assert(tokens_view(tokens@) =~= before.push(t@));
            unary = kind == TokenKind::BinaryOp;
            assert(before.push(t@) + scan_from(s, k, i + 1, unary) =~= before + (seq![t@]
                + scan_from(s, k, i + 1, unary)));
            i = i + 1;
        } else if is_parenthesis(c) {
            let t = single_token(TokenKind::Parenthesis, c);
            tokens.push(t);
            assert(tokens_view(tokens@) =~= before.push(t@));
            unary = c == '(';
            assert(before.push(t@) + scan_from(s, k, i + 1, unary) =~= before + (seq![t@]
                + scan_from(s, k, i + 1, unary)));
            i = i + 1;
        } else {
            i = i + 1;
        }
    }
    assert(tokens_view(tokens@) + scan_from(s, k, i as int, unary) =~= tokens_view(tokens@));
    tokens
}

/// Splits a line of text into tokens: each character is classified, then
/// the characters are scanned.
pub fn lexer(data: &str) -> (tokens: Vec<Token>)
    ensures
        tokens_view(tokens@) == lex(data@),
{
    let chars = chars_of(data);
    let mut classes: Vec<CharClass> = Vec::new();
    let mut i: usize = 0;
    while i < chars.len()
        invariant
            i <= chars.len(),
            classes@ == classes_of(chars@.take(i as int)),
        decreases chars.len() - i,
    {
        classes.push(classify(chars[i]));
        assert(classes@ =~= classes_of(chars@.take(i + 1)));
        i = i + 1;
    }
    assert(chars@.take(i as int) =~= chars@);
    scan(&chars, &classes)
}

} // verus!
