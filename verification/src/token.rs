//! Token and error data types, and the character classes of the grammar.

use vstd::prelude::*;

verus! {

/// A source position: `line` and `column` are 1-based and human readable,
/// `offset` counts codepoints consumed since the start of the input (0-based).
#[derive(Clone, Copy, Debug, PartialEq, Eq, Structural)]
pub struct Position {
    pub line: usize,
    pub column: usize,
    pub offset: usize,
}

/// How a piece of punctuation relates to nesting.
#[derive(Clone, Copy, Debug, PartialEq, Eq, Structural)]
pub enum PunctuationKind {
    /// An opening bracket, carrying the 0-based nesting depth of its kind
    /// at the moment it was opened.
    Open(usize),
    /// A closing bracket, carrying the depth it closes out of: the open
    /// count of the matching kind after the decrement.
    Close(usize),
    /// A delimiter that does not nest, such as `,` or `;`.
    Separator,
}

/// A single punctuation character together with its nesting role.
#[derive(Clone, Copy, Debug, PartialEq, Eq, Structural)]
pub struct Punctuation {
    pub raw: char,
    pub kind: PunctuationKind,
}

/// One classified unit of the input stream.
#[derive(Clone, Debug, PartialEq, Eq)]
pub enum TokenType {
    /// Sentinel: the input is exhausted.
    EndOfStream,
    /// Bracket or separator punctuation.
    Punctuation { raw: char, kind: PunctuationKind },
    /// A maximal run of operator characters, such as `-` or `=>`.
    Operator(String),
    /// A letter or underscore followed by letters, digits and underscores.
    Identifier(String),
    /// A single quoted character.
    CharLiteral(char),
    /// The raw lexeme of a numeric literal; interpreting its value is left
    /// to a downstream layer.
    Numeric(String),
    /// A character that matches no rule of the grammar: a valid terminal
    /// classification, not an error.
    Unknown(char),
}

/// Why a numeric scan failed.
#[derive(Clone, Copy, Debug, PartialEq, Eq, Structural)]
pub enum MalformedNumberReason {
    /// A second decimal point inside one numeric literal.
    RepeatedDot,
    /// A second exponent marker inside one numeric literal.
    RepeatedExponent,
    /// An exponent marker with no digit after it (or after its sign).
    MissingExponentDigits,
}

/// The error taxonomy shared with layers built atop the lexer. Every kind
/// carries the position at the point of failure.
#[derive(Clone, Debug, PartialEq, Eq)]
pub enum LexerError {
    /// Reserved for callers whose input loading fails; the lexer core
    /// performs no input or output itself.
    IOFailure { message: String, position: Position },
    /// Reserved for a consumer that expects a specific token kind; the
    /// lexer itself never raises this.
    MissingExpectedSymbol { expected: TokenType, found: TokenType, position: Position },
    /// A closing bracket with no matching open pending. `open_kind` is the
    /// opening character that would have had to precede it.
    MisbalancedSymbol { symbol: char, open_kind: char, position: Position },
    /// Reserved for callers that treat an unclassifiable character as a
    /// failure; the lexer classifies such a character as an `Unknown` token.
    UnknownSymbol { symbol: char, position: Position },
    /// A numeric literal that violates the numeric grammar.
    MalformedNumber { reason: MalformedNumberReason, position: Position },
    /// An opening quote with no closing quote after the literal body.
    UnterminatedCharLiteral { position: Position },
}

/// The Unicode white space characters.
pub open spec fn is_whitespace_char(c: char) -> bool {
    let u = c as u32;
    (9 <= u && u <= 13) || u == 32 || u == 0x85 || u == 0xA0 || u == 0x1680 || (0x2000 <= u
        && u <= 0x200A) || u == 0x2028 || u == 0x2029 || u == 0x202F || u == 0x205F || u == 0x3000
}

/// Whitespace test, proved against `is_whitespace_char`.
pub fn is_whitespace(c: char) -> (r: bool)
    ensures
        r == is_whitespace_char(c),
{
    let u = c as u32;
    (9 <= u && u <= 13) || u == 32 || u == 0x85 || u == 0xA0 || u == 0x1680 || (0x2000 <= u
        && u <= 0x200A) || u == 0x2028 || u == 0x2029 || u == 0x202F || u == 0x205F || u == 0x3000
}

/// An ASCII decimal digit.
pub open spec fn is_ascii_digit(c: char) -> bool {
    48 <= c as u32 && c as u32 <= 57
}

/// Digit test, proved against `is_ascii_digit`.
pub fn is_digit(c: char) -> (r: bool)
    ensures
        r == is_ascii_digit(c),
{
    let u = c as u32;
    48 <= u && u <= 57
}

/// A character that may begin an identifier: an ASCII letter or `_`.
pub open spec fn is_identifier_start(c: char) -> bool {
    let u = c as u32;
    (65 <= u && u <= 90) || (97 <= u && u <= 122) || u == 95
}

/// Identifier-start test, proved against `is_identifier_start`.
pub fn is_ident_start(c: char) -> (r: bool)
    ensures
        r == is_identifier_start(c),
{
    let u = c as u32;
    (65 <= u && u <= 90) || (97 <= u && u <= 122) || u == 95
}

/// A character that may continue an identifier: a letter, digit or `_`.
pub open spec fn is_identifier_continue(c: char) -> bool {
    is_identifier_start(c) || is_ascii_digit(c)
}

/// Identifier-continue test, proved against `is_identifier_continue`.
pub fn is_ident_continue(c: char) -> (r: bool)
    ensures
        r == is_identifier_continue(c),
{
    is_ident_start(c) || is_digit(c)
}

/// The shape of an identifier lexeme: a letter or underscore followed by
/// letters, digits and underscores.
pub open spec fn is_identifier_lexeme(x: Seq<char>) -> bool {
    &&& x.len() >= 1
    &&& is_identifier_start(x[0])
    &&& forall|i: int| 1 <= i < x.len() ==> is_identifier_continue(x[i])
}

/// The recognized operator characters; an operator token is a maximal run
/// of these.
pub open spec fn is_operator_char(c: char) -> bool {
    c == '+' || c == '-' || c == '*' || c == '/' || c == '=' || c == '<' || c == '>' || c == '!'
        || c == '&' || c == '|' || c == '^' || c == '%'
}

/// Operator-character test, proved against `is_operator_char`.
pub fn is_op_char(c: char) -> (r: bool)
    ensures
        r == is_operator_char(c),
{
    c == '+' || c == '-' || c == '*' || c == '/' || c == '=' || c == '<' || c == '>' || c == '!'
        || c == '&' || c == '|' || c == '^' || c == '%'
}

/// An opening bracket of one of the three supported kinds.
pub open spec fn is_open_bracket(c: char) -> bool {
    c == '(' || c == '[' || c == '{'
}

/// A closing bracket of one of the three supported kinds.
pub open spec fn is_close_bracket(c: char) -> bool {
    c == ')' || c == ']' || c == '}'
}

/// The opening bracket that matches a closing one: `)` matches `(`,
/// `]` matches `[`, `}` matches `{`.
pub open spec fn opening_of(c: char) -> char
    recommends
        is_close_bracket(c),
{
    if c == ')' {
        '('
    } else if c == ']' {
        '['
    } else {
        '{'
    }
}

} // verus!
