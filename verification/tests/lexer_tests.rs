use lexer::lexer::Lexer;
use lexer::token::{
    LexerError, MalformedNumberReason, Position, Punctuation, PunctuationKind, TokenType,
};

fn pos(line: usize, column: usize, offset: usize) -> Position {
    Position { line, column, offset }
}

fn open_tok(raw: char, depth: usize) -> TokenType {
    TokenType::Punctuation { raw, kind: PunctuationKind::Open(depth) }
}

fn close_tok(raw: char, depth: usize) -> TokenType {
    TokenType::Punctuation { raw, kind: PunctuationKind::Close(depth) }
}

#[test]
fn empty_input_end_of_stream_idempotent() {
    let mut lx = Lexer::new("");
    assert_eq!(lx.next_token(), Ok(TokenType::EndOfStream));
    assert_eq!(lx.next_token(), Ok(TokenType::EndOfStream));
    assert_eq!(lx.next_token(), Ok(TokenType::EndOfStream));
}

#[test]
fn whitespace_only_end_of_stream_idempotent() {
    let mut lx = Lexer::new(" \t\n  ");
    assert_eq!(lx.next_token(), Ok(TokenType::EndOfStream));
    assert_eq!(lx.next_token(), Ok(TokenType::EndOfStream));
}

#[test]
fn paren_pairs_end_to_end() {
    let mut lx = Lexer::new("()()");
    assert_eq!(lx.next_token(), Ok(open_tok('(', 0)));
    assert_eq!(lx.next_token(), Ok(close_tok(')', 0)));
    assert_eq!(lx.next_token(), Ok(open_tok('(', 0)));
    assert_eq!(lx.next_token(), Ok(close_tok(')', 0)));
    assert_eq!(lx.next_token(), Ok(TokenType::EndOfStream));
}

#[test]
fn unclosed_open_is_not_an_error_at_end() {
    let mut lx = Lexer::new("(()");
    assert_eq!(lx.next_token(), Ok(open_tok('(', 0)));
    assert_eq!(lx.next_token(), Ok(open_tok('(', 1)));
    assert_eq!(lx.next_token(), Ok(close_tok(')', 1)));
    assert_eq!(lx.next_token(), Ok(TokenType::EndOfStream));
}

#[test]
fn misbalanced_close_reports_position_and_consumes() {
    let mut lx = Lexer::new(")");
    assert_eq!(
        lx.next_token(),
        Err(LexerError::MisbalancedSymbol {
            symbol: ')',
            open_kind: '(',
            position: pos(1, 1, 0),
        })
    );
    // the offending character was consumed: exactly one codepoint
    assert_eq!(lx.codepoint_offset, 1);
    // and the stream then ends without a further error
    assert_eq!(lx.next_token(), Ok(TokenType::EndOfStream));
}

#[test]
fn misbalanced_close_of_other_kind() {
    let mut lx = Lexer::new("((]");
    assert_eq!(lx.next_token(), Ok(open_tok('(', 0)));
    assert_eq!(lx.next_token(), Ok(open_tok('(', 1)));
    assert_eq!(
        lx.next_token(),
        Err(LexerError::MisbalancedSymbol {
            symbol: ']',
            open_kind: '[',
            position: pos(1, 3, 2),
        })
    );
}

#[test]
fn misbalanced_close_on_second_line() {
    let mut lx = Lexer::new("\n)");
    assert_eq!(
        lx.next_token(),
        Err(LexerError::MisbalancedSymbol {
            symbol: ')',
            open_kind: '(',
            position: pos(2, 1, 1),
        })
    );
}

#[test]
fn three_bracket_kinds_track_depth_separately() {
    let mut lx = Lexer::new("([{}])");
    assert_eq!(lx.next_token(), Ok(open_tok('(', 0)));
    assert_eq!(lx.next_token(), Ok(open_tok('[', 0)));
    assert_eq!(lx.next_token(), Ok(open_tok('{', 0)));
    assert_eq!(lx.next_token(), Ok(close_tok('}', 0)));
    assert_eq!(lx.next_token(), Ok(close_tok(']', 0)));
    assert_eq!(lx.next_token(), Ok(close_tok(')', 0)));
    assert_eq!(lx.next_token(), Ok(TokenType::EndOfStream));
}

#[test]
fn well_nested_opens_and_closes_share_depths() {
    let mut lx = Lexer::new("(())()");
    let expected = [
        open_tok('(', 0),
        open_tok('(', 1),
        close_tok(')', 1),
        close_tok(')', 0),
        open_tok('(', 0),
        close_tok(')', 0),
    ];
    for want in expected {
        assert_eq!(lx.next_token(), Ok(want));
    }
    assert_eq!(lx.next_token(), Ok(TokenType::EndOfStream));
}

#[test]
fn separators_do_not_nest() {
    let mut lx = Lexer::new(",;");
    assert_eq!(
        lx.next_token(),
        Ok(TokenType::Punctuation { raw: ',', kind: PunctuationKind::Separator })
    );
    assert_eq!(
        lx.next_token(),
        Ok(TokenType::Punctuation { raw: ';', kind: PunctuationKind::Separator })
    );
}

#[test]
fn identifier_full_run() {
    let mut lx = Lexer::new("foo_bar1");
    assert_eq!(lx.next_token(), Ok(TokenType::Identifier(String::from("foo_bar1"))));
    assert_eq!(lx.next_token(), Ok(TokenType::EndOfStream));
}

#[test]
fn identifier_stops_at_first_non_matching_character() {
    let mut lx = Lexer::new("abc+def");
    assert_eq!(lx.next_token(), Ok(TokenType::Identifier(String::from("abc"))));
    assert_eq!(lx.next_token(), Ok(TokenType::Operator(String::from("+"))));
    assert_eq!(lx.next_token(), Ok(TokenType::Identifier(String::from("def"))));
    assert_eq!(lx.next_token(), Ok(TokenType::EndOfStream));
}

#[test]
fn identifier_may_start_with_underscore_and_hold_digits() {
    let mut lx = Lexer::new("_x9 y");
    assert_eq!(lx.next_token(), Ok(TokenType::Identifier(String::from("_x9"))));
    assert_eq!(lx.next_token(), Ok(TokenType::Identifier(String::from("y"))));
}

#[test]
fn numeric_integer() {
    let mut lx = Lexer::new("123");
    assert_eq!(lx.next_token(), Ok(TokenType::Numeric(String::from("123"))));
    assert_eq!(lx.next_token(), Ok(TokenType::EndOfStream));
}

#[test]
fn numeric_fraction() {
    let mut lx = Lexer::new("1.5");
    assert_eq!(lx.next_token(), Ok(TokenType::Numeric(String::from("1.5"))));
}

#[test]
fn numeric_exponent() {
    let mut lx = Lexer::new("1e10");
    assert_eq!(lx.next_token(), Ok(TokenType::Numeric(String::from("1e10"))));
}

#[test]
fn numeric_fraction_with_signed_exponent() {
    let mut lx = Lexer::new("1.5e-3");
    assert_eq!(lx.next_token(), Ok(TokenType::Numeric(String::from("1.5e-3"))));
}

#[test]
fn numeric_second_dot_rejected() {
    let mut lx = Lexer::new("1.2.3");
    assert_eq!(
        lx.next_token(),
        Err(LexerError::MalformedNumber {
            reason: MalformedNumberReason::RepeatedDot,
            position: pos(1, 4, 3),
        })
    );
}

#[test]
fn numeric_bare_exponent_rejected() {
    let mut lx = Lexer::new("1e");
    assert_eq!(
        lx.next_token(),
        Err(LexerError::MalformedNumber {
            reason: MalformedNumberReason::MissingExponentDigits,
            position: pos(1, 2, 1),
        })
    );
}

#[test]
fn numeric_second_exponent_rejected() {
    let mut lx = Lexer::new("1e2e3");
    assert_eq!(
        lx.next_token(),
        Err(LexerError::MalformedNumber {
            reason: MalformedNumberReason::RepeatedExponent,
            position: pos(1, 4, 3),
        })
    );
}

#[test]
fn numeric_trailing_dot_is_not_consumed() {
    let mut lx = Lexer::new("1.");
    assert_eq!(lx.next_token(), Ok(TokenType::Numeric(String::from("1"))));
    assert_eq!(lx.next_token(), Ok(TokenType::Unknown('.')));
    assert_eq!(lx.next_token(), Ok(TokenType::EndOfStream));
}

#[test]
fn operator_single_character() {
    let mut lx = Lexer::new("-");
    assert_eq!(lx.next_token(), Ok(TokenType::Operator(String::from("-"))));
}

#[test]
fn operator_greedy_longest_match() {
    let mut lx = Lexer::new("a=>b");
    assert_eq!(lx.next_token(), Ok(TokenType::Identifier(String::from("a"))));
    assert_eq!(lx.next_token(), Ok(TokenType::Operator(String::from("=>"))));
    assert_eq!(lx.next_token(), Ok(TokenType::Identifier(String::from("b"))));
}

#[test]
fn char_literal_round() {
    let mut lx = Lexer::new("'x'");
    assert_eq!(lx.next_token(), Ok(TokenType::CharLiteral('x')));
    assert_eq!(lx.next_token(), Ok(TokenType::EndOfStream));
}

#[test]
fn char_literal_missing_close_at_end() {
    let mut lx = Lexer::new("'x");
    assert_eq!(
        lx.next_token(),
        Err(LexerError::UnterminatedCharLiteral { position: pos(1, 3, 2) })
    );
}

#[test]
fn char_literal_missing_body_at_end() {
    let mut lx = Lexer::new("'");
    assert_eq!(
        lx.next_token(),
        Err(LexerError::UnterminatedCharLiteral { position: pos(1, 2, 1) })
    );
}

#[test]
fn char_literal_wrong_close_is_not_consumed() {
    let mut lx = Lexer::new("'xy");
    assert_eq!(
        lx.next_token(),
        Err(LexerError::UnterminatedCharLiteral { position: pos(1, 3, 2) })
    );
    assert_eq!(lx.next_token(), Ok(TokenType::Identifier(String::from("y"))));
}

#[test]
fn unknown_character_is_a_token_not_an_error() {
    let mut lx = Lexer::new("@");
    assert_eq!(lx.next_token(), Ok(TokenType::Unknown('@')));
    assert_eq!(lx.next_token(), Ok(TokenType::EndOfStream));
}

#[test]
fn positions_advance_per_codepoint_and_newline_resets_column() {
    let mut lx = Lexer::new("a\nb");
    assert_eq!((lx.cur_line, lx.cur_col, lx.codepoint_offset), (1, 1, 0));
    assert_eq!(lx.consume_char(), Some('a'));
    assert_eq!((lx.cur_line, lx.cur_col, lx.codepoint_offset), (1, 2, 1));
    assert_eq!(lx.consume_char(), Some('\n'));
    assert_eq!((lx.cur_line, lx.cur_col, lx.codepoint_offset), (2, 1, 2));
    assert_eq!(lx.consume_char(), Some('b'));
    assert_eq!((lx.cur_line, lx.cur_col, lx.codepoint_offset), (2, 2, 3));
    assert_eq!(lx.consume_char(), None);
    assert_eq!((lx.cur_line, lx.cur_col, lx.codepoint_offset), (2, 2, 3));
}

#[test]
fn position_after_token_on_second_line() {
    let mut lx = Lexer::new("\n x");
    assert_eq!(lx.next_token(), Ok(TokenType::Identifier(String::from("x"))));
    assert_eq!((lx.cur_line, lx.cur_col, lx.codepoint_offset), (2, 3, 3));
}

#[test]
fn peek_has_no_side_effect() {
    let lx = Lexer::new("ab");
    assert_eq!(lx.peek(), Some('a'));
    assert_eq!(lx.peek(), Some('a'));
    assert_eq!(lx.codepoint_offset, 0);
    let mut lx = lx;
    assert_eq!(lx.consume_char(), Some('a'));
    assert_eq!(lx.peek(), Some('b'));
}

#[test]
fn current_position_reflects_the_cursor() {
    let mut lx = Lexer::new("ab");
    assert_eq!(lx.current_position(), pos(1, 1, 0));
    lx.consume_char();
    assert_eq!(lx.current_position(), pos(1, 2, 1));
}

#[test]
fn unicode_whitespace_is_skipped() {
    let mut lx = Lexer::new("\u{00A0}\u{2003}x");
    assert_eq!(lx.next_token(), Ok(TokenType::Identifier(String::from("x"))));
}

#[test]
fn depth_zero_is_reused_after_a_full_pair() {
    let mut lx = Lexer::new("()(");
    assert_eq!(lx.next_token(), Ok(open_tok('(', 0)));
    assert_eq!(lx.next_token(), Ok(close_tok(')', 0)));
    assert_eq!(lx.next_token(), Ok(open_tok('(', 0)));
}

#[test]
fn shared_taxonomy_values_compare_by_contents() {
    // the reserved kinds exist for consumers above the lexer
    let expected = TokenType::Punctuation { raw: ')', kind: PunctuationKind::Close(0) };
    let found = TokenType::EndOfStream;
    let e = LexerError::MissingExpectedSymbol {
        expected: expected.clone(),
        found: found.clone(),
        position: pos(1, 1, 0),
    };
    assert_eq!(
        e,
        LexerError::MissingExpectedSymbol { expected, found, position: pos(1, 1, 0) }
    );
    let io = LexerError::IOFailure { message: String::from("read failed"), position: pos(1, 1, 0) };
    assert_ne!(io, LexerError::UnknownSymbol { symbol: '@', position: pos(1, 1, 0) });
    let p = Punctuation { raw: '(', kind: PunctuationKind::Open(2) };
    assert_eq!(p, Punctuation { raw: '(', kind: PunctuationKind::Open(2) });
}

#[test]
fn end_to_end_statement() {
    let mut lx = Lexer::new("fn main() { x = 1; }");
    assert_eq!(lx.next_token(), Ok(TokenType::Identifier(String::from("fn"))));
    assert_eq!(lx.next_token(), Ok(TokenType::Identifier(String::from("main"))));
    assert_eq!(lx.next_token(), Ok(open_tok('(', 0)));
    assert_eq!(lx.next_token(), Ok(close_tok(')', 0)));
    assert_eq!(lx.next_token(), Ok(open_tok('{', 0)));
    assert_eq!(lx.next_token(), Ok(TokenType::Identifier(String::from("x"))));
    assert_eq!(lx.next_token(), Ok(TokenType::Operator(String::from("="))));
    assert_eq!(lx.next_token(), Ok(TokenType::Numeric(String::from("1"))));
    assert_eq!(
        lx.next_token(),
        Ok(TokenType::Punctuation { raw: ';', kind: PunctuationKind::Separator })
    );
    assert_eq!(lx.next_token(), Ok(close_tok('}', 0)));
    assert_eq!(lx.next_token(), Ok(TokenType::EndOfStream));
}
