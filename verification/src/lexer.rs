//! The lexer engine: a character cursor with position bookkeeping, a
//! per-kind bracket balance, and the token classification dispatch.

use vstd::prelude::*;

use crate::scan::{
    ident_end, lemma_ident_end, lemma_line_col_bounds, lemma_numeric_scan_bounds, lemma_op_end,
    lemma_skip_ws_end, numeric_scan, op_end, skip_ws_end, spec_col, spec_line, NumericScan,
};
use crate::token::{
    is_ascii_digit, is_close_bracket, is_digit, is_ident_continue, is_ident_start,
    is_identifier_continue,
    is_identifier_lexeme, is_identifier_start, is_op_char, is_open_bracket, is_operator_char,
    is_whitespace, is_whitespace_char, opening_of, LexerError, MalformedNumberReason, Position,
    PunctuationKind, TokenType,
};

verus! {

/// The open counts of the three bracket kinds, keyed by the opening
/// character, as a mathematical value for contracts.
pub struct BalanceCounts {
    pub paren: int,
    pub square: int,
    pub curly: int,
}

impl BalanceCounts {
    /// The count for the kind whose opening character is `c`.
    pub open spec fn of(self, c: char) -> int {
        if c == '(' {
            self.paren
        } else if c == '[' {
            self.square
        } else {
            self.curly
        }
    }
}

/// Relies on `str::chars`: iterating a string slice yields exactly its
/// characters, in order. A string never holds `usize::MAX` characters,
/// since its byte length is at most `isize::MAX` and every character
/// occupies at least one byte.
#[verifier::external_body]
fn chars_of(text: &str) -> (v: Vec<char>)
    ensures
        v@ == text@,
        v@.len() < usize::MAX,
{
    text.chars().collect()
}

/// Relies on `String::push`: appends exactly one character at the end.
#[verifier::external_body]
fn push_char(s: &mut String, c: char)
    ensures
        final(s)@ == old(s)@.push(c),
{
    s.push(c);
}

/// The lexer: owns the character sequence being scanned, the cursor with
/// its human-readable position, and the bracket balance of the session.
pub struct Lexer {
    /// 1-based line of the next character to be consumed.
    pub cur_line: usize,
    /// 1-based column of the next character to be consumed.
    pub cur_col: usize,
    /// Codepoints consumed since the start of the input.
    pub codepoint_offset: usize,
    /// The character sequence being scanned.
    pub input: Vec<char>,
    /// Index of the next character to be consumed.
    pub pos: usize,
    /// Pending opens of `(`.
    pub paren_opens: usize,
    /// Pending opens of `[`.
    pub square_opens: usize,
    /// Pending opens of `{`.
    pub curly_opens: usize,
}

impl Lexer {
    /// The whole character sequence under the lexer.
    pub open spec fn text(self) -> Seq<char> {
        self.input@
    }

    /// The index of the next character to be consumed.
    pub open spec fn cursor(self) -> int {
        self.pos as int
    }

    /// The open counts of the three bracket kinds.
    pub open spec fn counts(self) -> BalanceCounts {
        BalanceCounts {
            paren: self.paren_opens as int,
            square: self.square_opens as int,
            curly: self.curly_opens as int,
        }
    }

    /// Well-formedness: the cursor is inside the input, the position
    /// fields agree with the characters consumed so far, and no bracket
    /// kind has more opens pending than characters consumed.
    pub open spec fn wf(self) -> bool {
        &&& 0 <= self.cursor() <= self.text().len()
        &&& self.text().len() < usize::MAX
        &&& self.codepoint_offset == self.cursor()
        &&& self.cur_line == spec_line(self.text(), self.cursor())
        &&& self.cur_col == spec_col(self.text(), self.cursor())
        &&& 0 <= self.counts().paren <= self.cursor()
        &&& 0 <= self.counts().square <= self.cursor()
        &&& 0 <= self.counts().curly <= self.cursor()
    }

    /// A fresh lexer at line 1, column 1, offset 0, with no bracket open.
    pub fn new(chars: &str) -> (l: Lexer)
        ensures
            l.wf(),
            l.text() == chars@,
            l.cursor() == 0,
            l.cur_line == 1,
            l.cur_col == 1,
            l.codepoint_offset == 0,
            l.counts() == (BalanceCounts { paren: 0, square: 0, curly: 0 }),
    {
        Lexer {
            cur_line: 1,
            cur_col: 1,
            codepoint_offset: 0,
            input: chars_of(chars),
            pos: 0,
            paren_opens: 0,
            square_opens: 0,
            curly_opens: 0,
        }
    }

    /// The position of the next character to be consumed.
    pub fn current_position(&self) -> (p: Position)
        ensures
            p == (Position {
                line: self.cur_line,
                column: self.cur_col,
                offset: self.codepoint_offset,
            }),
    {
        Position { line: self.cur_line, column: self.cur_col, offset: self.codepoint_offset }
    }

    /// The next character, if any, without consuming it. No side effects.
    pub fn peek(&self) -> (r: Option<char>)
        requires
            self.wf(),
        ensures
            r == if self.cursor() < self.text().len() {
                Some(self.text()[self.cursor()])
            } else {
                Option::<char>::None
            },
    {
        if self.pos < self.input.len() {
            Some(self.input[self.pos])
        } else {
            None
        }
    }

    /// Consumes the next character, advancing the position: the offset
    /// grows by exactly one, a newline moves to column 1 of the next line,
    /// and any other character advances the column by one. At end of input
    /// nothing changes and `None` is returned.
    pub fn consume_char(&mut self) -> (r: Option<char>)
        requires
            old(self).wf(),
        ensures
            final(self).wf(),
            final(self).text() == old(self).text(),
            final(self).counts() == old(self).counts(),
            if old(self).cursor() < old(self).text().len() {
                let c = old(self).text()[old(self).cursor()];
                &&& r == Some(c)
                &&& final(self).cursor() == old(self).cursor() + 1
                &&& final(self).codepoint_offset == old(self).codepoint_offset + 1
                &&& (c == '\n' ==> final(self).cur_line == old(self).cur_line + 1
                    && final(self).cur_col == 1)
                &&& (c != '\n' ==> final(self).cur_line == old(self).cur_line
                    && final(self).cur_col == old(self).cur_col + 1)
            } else {
                r is None && *final(self) == *old(self)
            },
    {
        if self.pos < self.input.len() {
            let c = self.input[self.pos];
            proof {
                lemma_line_col_bounds(self.input@, self.pos as int);
            }
            self.pos = self.pos + 1;
            self.codepoint_offset = self.codepoint_offset + 1;
            if c == '\n' {
                self.cur_line = self.cur_line + 1;
                self.cur_col = 1;
            } else {
                self.cur_col = self.cur_col + 1;
            }
            Some(c)
        } else {
            None
        }
    }

    /// Consumes whitespace until a non-whitespace character is next, or
    /// the input is exhausted. Produces no token.
    pub fn skip_whitespace(&mut self)
        requires
            old(self).wf(),
        ensures
            final(self).wf(),
            final(self).text() == old(self).text(),
            final(self).counts() == old(self).counts(),
            final(self).cursor() == skip_ws_end(old(self).text(), old(self).cursor()),
    {
        loop
            invariant
                self.wf(),
                self.text() == old(self).text(),
                self.counts() == old(self).counts(),
                skip_ws_end(self.text(), self.cursor()) == skip_ws_end(
                    old(self).text(),
                    old(self).cursor(),
                ),
            ensures
                self.wf(),
                self.text() == old(self).text(),
                self.counts() == old(self).counts(),
                skip_ws_end(self.text(), self.cursor()) == skip_ws_end(
                    old(self).text(),
                    old(self).cursor(),
                ),
                self.cursor() == self.text().len() || !is_whitespace_char(
                    self.text()[self.cursor()],
                ),
            decreases self.text().len() - self.cursor(),
        {
            if self.pos < self.input.len() {
                let c = self.input[self.pos];
                if is_whitespace(c) {
                    self.consume_char();
                } else {
                    break ;
                }
            } else {
                break ;
            }
        }
        proof {
            assert(skip_ws_end(self.text(), self.cursor()) == self.cursor());
        }
    }

    /// The bracket that pairs with `c`, in either direction: `(` maps to
    /// `)` and `)` to `(`, and likewise for the square and curly kinds.
    /// Any other character is a contract violation of the caller.
    fn map_balance(c: char) -> (m: char)
        requires
            is_open_bracket(c) || is_close_bracket(c),
        ensures
            is_close_bracket(c) ==> m == opening_of(c),
            c == '(' ==> m == ')',
            c == '[' ==> m == ']',
            c == '{' ==> m == '}',
    {
        match c {
            '}' => '{',
            '{' => '}',
            ')' => '(',
            '(' => ')',
            '[' => ']',
            _ => '[',
        }
    }

    /// Records one more pending open of the kind of `c` and returns the
    /// depth this opening is at: the count of that kind before the
    /// increment.
    fn push_balance(&mut self, c: char) -> (depth: usize)
        requires
            old(self).wf(),
            is_open_bracket(c),
            old(self).counts().of(c) < old(self).cursor(),
        ensures
            final(self).wf(),
            depth == old(self).counts().of(c),
            final(self).counts().of(c) == old(self).counts().of(c) + 1,
            forall|k: char|
                is_open_bracket(k) && k != c ==> final(self).counts().of(k) == old(
                    self,
                ).counts().of(k),
            final(self).text() == old(self).text(),
            final(self).cursor() == old(self).cursor(),
            final(self).cur_line == old(self).cur_line,
            final(self).cur_col == old(self).cur_col,
            final(self).codepoint_offset == old(self).codepoint_offset,
    {
        if c == '(' {
            let depth = self.paren_opens;
            self.paren_opens = self.paren_opens + 1;
            depth
        } else if c == '[' {
            let depth = self.square_opens;
            self.square_opens = self.square_opens + 1;
            depth
        } else {
            let depth = self.curly_opens;
            self.curly_opens = self.curly_opens + 1;
            depth
        }
    }

    /// Looks up the pending opens of the kind matching the closing
    /// bracket `c`: when none is pending the close is misbalanced and the
    /// state does not change; otherwise the count is decremented and the
    /// depth being closed out of — the post-decrement count — returned.
    /// A misbalance is reported at `at`, the position of the offending
    /// character.
    fn pop_balance(&mut self, c: char, at: Position) -> (r: Result<usize, LexerError>)
        requires
            old(self).wf(),
            is_close_bracket(c),
        ensures
            final(self).wf(),
            final(self).text() == old(self).text(),
            final(self).cursor() == old(self).cursor(),
            final(self).cur_line == old(self).cur_line,
            final(self).cur_col == old(self).cur_col,
            final(self).codepoint_offset == old(self).codepoint_offset,
            if old(self).counts().of(opening_of(c)) >= 1 {
                &&& r matches Ok(depth)
                &&& depth == old(self).counts().of(opening_of(c)) - 1
                &&& final(self).counts().of(opening_of(c)) == old(self).counts().of(opening_of(c))
                    - 1
                &&& forall|k: char|
                    is_open_bracket(k) && k != opening_of(c) ==> final(self).counts().of(k)
                        == old(self).counts().of(k)
            } else {
                &&& r matches Err(e)
                &&& e == (LexerError::MisbalancedSymbol {
                    symbol: c,
                    open_kind: opening_of(c),
                    position: at,
                })
                &&& final(self).counts() == old(self).counts()
            },
    {
        let open = Self::map_balance(c);
        if c == ')' {
            if self.paren_opens >= 1 {
                self.paren_opens = self.paren_opens - 1;
                Ok(self.paren_opens)
            } else {
                Err(LexerError::MisbalancedSymbol { symbol: c, open_kind: open, position: at })
            }
        } else if c == ']' {
            if self.square_opens >= 1 {
                self.square_opens = self.square_opens - 1;
                Ok(self.square_opens)
            } else {
                Err(LexerError::MisbalancedSymbol { symbol: c, open_kind: open, position: at })
            }
        } else {
            if self.curly_opens >= 1 {
                self.curly_opens = self.curly_opens - 1;
                Ok(self.curly_opens)
            } else {
                Err(LexerError::MisbalancedSymbol { symbol: c, open_kind: open, position: at })
            }
        }
    }

    /// The position of the character consumed last, which must not have
    /// been a newline.
    fn previous_position(&self) -> (p: Position)
        requires
            self.wf(),
            1 <= self.cursor(),
            self.text()[self.cursor() - 1] != '\n',
        ensures
            p.line == spec_line(self.text(), self.cursor() - 1),
            p.column == spec_col(self.text(), self.cursor() - 1),
            p.offset == self.cursor() - 1,
    {
        proof {
            lemma_line_col_bounds(self.text(), self.cursor() - 1);
        }
        Position { line: self.cur_line, column: self.cur_col - 1, offset: self.codepoint_offset - 1 }
    }

    /// Greedily consumes the identifier run that follows the already
    /// consumed starting character, and produces the identifier token:
    /// `start` followed by every identifier character up to, and not
    /// including, the first character that is not one.
    pub fn parse_identifier(&mut self, start: char) -> (t: TokenType)
        requires
            old(self).wf(),
            is_identifier_start(start),
        ensures
            final(self).wf(),
            final(self).text() == old(self).text(),
            final(self).counts() == old(self).counts(),
            final(self).cursor() == ident_end(old(self).text(), old(self).cursor()),
            t matches TokenType::Identifier(x) && x@ == seq![start] + old(self).text().subrange(
                old(self).cursor(),
                ident_end(old(self).text(), old(self).cursor()),
            ) && is_identifier_lexeme(x@),
    {
        let ghost s = old(self).text();
        let ghost p0 = old(self).cursor();
        let mut lexeme = String::new();
        push_char(&mut lexeme, start);
        proof {
            assert(lexeme@ =~= seq![start] + s.subrange(p0, p0));
        }
        loop
            invariant
                self.wf(),
                self.text() == s,
                self.counts() == old(self).counts(),
                0 <= p0 <= self.cursor() <= s.len(),
                lexeme@ == seq![start] + s.subrange(p0, self.cursor()),
                ident_end(s, self.cursor()) == ident_end(s, p0),
            ensures
                self.wf(),
                self.text() == s,
                self.counts() == old(self).counts(),
                self.cursor() == ident_end(s, p0),
                lexeme@ == seq![start] + s.subrange(p0, self.cursor()),
            decreases s.len() - self.cursor(),
        {
            if self.pos < self.input.len() {
                let c = self.input[self.pos];
                if is_ident_continue(c) {
                    self.consume_char();
                    push_char(&mut lexeme, c);
                    proof {
                        assert(lexeme@ =~= seq![start] + s.subrange(p0, self.cursor()));
                    }
                } else {
                    break ;
                }
            } else {
                break ;
            }
        }
        proof {
            lemma_ident_end(s, p0);
            assert forall|i: int| 1 <= i < lexeme@.len() implies is_identifier_continue(
                lexeme@[i],
            ) by {
                assert(lexeme@[i] == s.subrange(p0, ident_end(s, p0))[i - 1]);
            }
        }
        TokenType::Identifier(lexeme)
    }

    /// Greedily consumes the run of operator characters that follows the
    /// already consumed starting character, and produces the operator
    /// token holding the longest such run.
    pub fn parse_operator(&mut self, start: char) -> (t: TokenType)
        requires
            old(self).wf(),
            is_operator_char(start),
        ensures
            final(self).wf(),
            final(self).text() == old(self).text(),
            final(self).counts() == old(self).counts(),
            final(self).cursor() == op_end(old(self).text(), old(self).cursor()),
            t matches TokenType::Operator(x) && x@ == seq![start] + old(self).text().subrange(
                old(self).cursor(),
                op_end(old(self).text(), old(self).cursor()),
            ),
    {
        let ghost s = old(self).text();
        let ghost p0 = old(self).cursor();
        let mut lexeme = String::new();
        push_char(&mut lexeme, start);
        proof {
            assert(lexeme@ =~= seq![start] + s.subrange(p0, p0));
        }
        loop
            invariant
                self.wf(),
                self.text() == s,
                self.counts() == old(self).counts(),
                0 <= p0 <= self.cursor() <= s.len(),
                lexeme@ == seq![start] + s.subrange(p0, self.cursor()),
                op_end(s, self.cursor()) == op_end(s, p0),
            ensures
                self.wf(),
                self.text() == s,
                self.counts() == old(self).counts(),
                self.cursor() == op_end(s, p0),
                lexeme@ == seq![start] + s.subrange(p0, self.cursor()),
            decreases s.len() - self.cursor(),
        {
            if self.pos < self.input.len() {
                let c = self.input[self.pos];
                if is_op_char(c) {
                    self.consume_char();
                    push_char(&mut lexeme, c);
                    proof {
                        assert(lexeme@ =~= seq![start] + s.subrange(p0, self.cursor()));
                    }
                } else {
                    break ;
                }
            } else {
                break ;
            }
        }
        TokenType::Operator(lexeme)
    }

    /// Runs the numeric grammar after the already consumed leading digit:
    /// the token holds the raw lexeme, left unconverted. On a repeated
    /// dot, a repeated exponent marker, or an exponent marker without a
    /// following digit, the scan fails at the offending character, which
    /// stays unconsumed, and the error reports its position.
    pub fn parse_number(&mut self, start: char) -> (r: Result<TokenType, LexerError>)
        requires
            old(self).wf(),
            is_ascii_digit(start),
        ensures
            final(self).wf(),
            final(self).text() == old(self).text(),
            final(self).counts() == old(self).counts(),
            match numeric_scan(old(self).text(), old(self).cursor(), false, false) {
                NumericScan::Accepted { end } => r matches Ok(TokenType::Numeric(x)) && x@ == seq![
                    start,
                ] + old(self).text().subrange(old(self).cursor(), end) && final(self).cursor()
                    == end,
                NumericScan::Rejected { at, reason } => r matches Err(
                    LexerError::MalformedNumber { reason: why, position },
                ) && why == reason && position.line == spec_line(old(self).text(), at)
                    && position.column == spec_col(old(self).text(), at) && position.offset == at
                    && final(self).cursor() == at,
            },
    {
        let ghost s = old(self).text();
        let ghost p0 = old(self).cursor();
        let mut lexeme = String::new();
        push_char(&mut lexeme, start);
        proof {
            assert(lexeme@ =~= seq![start] + s.subrange(p0, p0));
        }
        let mut seen_dot = false;
        let mut seen_exp = false;
        loop
            invariant
                self.wf(),
                self.text() == s,
                s == old(self).text(),
                p0 == old(self).cursor(),
                self.counts() == old(self).counts(),
                0 <= p0 <= self.cursor() <= s.len(),
                lexeme@ == seq![start] + s.subrange(p0, self.cursor()),
                numeric_scan(s, p0, false, false) == numeric_scan(
                    s,
                    self.cursor(),
                    seen_dot,
                    seen_exp,
                ),
            decreases s.len() - self.cursor(),
        {
            if self.pos == self.input.len() {
                return Ok(TokenType::Numeric(lexeme));
            }
            let c = self.input[self.pos];
            if is_digit(c) {
                self.consume_char();
                push_char(&mut lexeme, c);
                proof {
                    assert(lexeme@ =~= seq![start] + s.subrange(p0, self.cursor()));
                }
            } else if c == '.' {
                if seen_dot {
                    return Err(LexerError::MalformedNumber {
                        reason: MalformedNumberReason::RepeatedDot,
                        position: self.current_position(),
                    });
                }
                if self.pos + 1 < self.input.len() && is_digit(self.input[self.pos + 1]) {
                    self.consume_char();
                    push_char(&mut lexeme, c);
                    let d = self.input[self.pos];
                    self.consume_char();
                    push_char(&mut lexeme, d);
                    seen_dot = true;
                    proof {
                        assert(lexeme@ =~= seq![start] + s.subrange(p0, self.cursor()));
                    }
                } else {
                    return Ok(TokenType::Numeric(lexeme));
                }
            } else if c == 'e' || c == 'E' {
                if seen_exp {
                    return Err(LexerError::MalformedNumber {
                        reason: MalformedNumberReason::RepeatedExponent,
                        position: self.current_position(),
                    });
                }
                let has_sign = self.pos + 1 < self.input.len() && (self.input[self.pos + 1] == '+'
                    || self.input[self.pos + 1] == '-');
                let digit_idx = if has_sign {
                    self.pos + 2
                } else {
                    self.pos + 1
                };
                if digit_idx < self.input.len() && is_digit(self.input[digit_idx]) {
                    self.consume_char();
                    push_char(&mut lexeme, c);
                    if has_sign {
                        let g = self.input[self.pos];
                        self.consume_char();
                        push_char(&mut lexeme, g);
                    }
                    let d = self.input[self.pos];
                    self.consume_char();
                    push_char(&mut lexeme, d);
                    seen_exp = true;
                    proof {
                        assert(lexeme@ =~= seq![start] + s.subrange(p0, self.cursor()));
                    }
                } else {
                    return Err(LexerError::MalformedNumber {
                        reason: MalformedNumberReason::MissingExponentDigits,
                        position: self.current_position(),
                    });
                }
            } else {
                return Ok(TokenType::Numeric(lexeme));
            }
        }
    }

    /// Consumes the literal body and the closing quote after an already
    /// consumed opening quote. When the input ends before the body or the
    /// next character after the body is not a closing quote, the literal
    /// is unterminated: the non-quote character stays unconsumed and the
    /// error reports the position where the quote was required.
    pub fn parse_char_literal(&mut self) -> (r: Result<TokenType, LexerError>)
        requires
            old(self).wf(),
        ensures
            final(self).wf(),
            final(self).text() == old(self).text(),
            final(self).counts() == old(self).counts(),
            if old(self).cursor() + 1 < old(self).text().len() && old(self).text()[old(
                self,
            ).cursor() + 1] == '\'' {
                r matches Ok(TokenType::CharLiteral(b)) && b == old(self).text()[old(self).cursor()]
                    && final(self).cursor() == old(self).cursor() + 2
            } else {
                let stop = if old(self).cursor() < old(self).text().len() {
                    old(self).cursor() + 1
                } else {
                    old(self).cursor()
                };
                r matches Err(LexerError::UnterminatedCharLiteral { position }) && position.line
                    == spec_line(old(self).text(), stop) && position.column == spec_col(
                    old(self).text(),
                    stop,
                ) && position.offset == stop && final(self).cursor() == stop
            },
    {
        match self.consume_char() {
            None => Err(
                LexerError::UnterminatedCharLiteral { position: self.current_position() },
            ),
            Some(b) => {
                if self.pos < self.input.len() {
                    let close = self.input[self.pos];
                    if close == '\'' {
                        self.consume_char();
                        Ok(TokenType::CharLiteral(b))
                    } else {
                        Err(
                            LexerError::UnterminatedCharLiteral {
                                position: self.current_position(),
                            },
                        )
                    }
                } else {
                    Err(
                        LexerError::UnterminatedCharLiteral { position: self.current_position() },
                    )
                }
            },
        }
    }

    /// Classifies the already consumed character `c` and produces its
    /// token, delegating to the balance tracker for brackets and to the
    /// sub-scans for numbers, identifiers, operators and character
    /// literals. The outcome is pinned down by `dispatch_post`, applied at
    /// the index `c` was consumed from.
    pub fn transform_to_type(&mut self, c: char) -> (r: Result<TokenType, LexerError>)
        requires
            old(self).wf(),
            1 <= old(self).cursor(),
            old(self).text()[old(self).cursor() - 1] == c,
            !is_whitespace_char(c),
            is_open_bracket(c) ==> old(self).counts().of(c) < old(self).cursor(),
        ensures
            final(self).wf(),
            dispatch_post(
                old(self).text(),
                old(self).cursor() - 1,
                old(self).counts(),
                *final(self),
                r,
            ),
    {
        let ghost s = old(self).text();
        let ghost q = old(self).cursor() - 1;
        if c == '(' || c == '[' || c == '{' {
            let d = self.push_balance(c);
            Ok(TokenType::Punctuation { raw: c, kind: PunctuationKind::Open(d) })
        } else if c == ')' || c == ']' || c == '}' {
            let at = self.previous_position();
            match self.pop_balance(c, at) {
                Ok(d) => Ok(TokenType::Punctuation { raw: c, kind: PunctuationKind::Close(d) }),
                Err(e) => Err(e),
            }
        } else if c == ',' || c == ';' {
            Ok(TokenType::Punctuation { raw: c, kind: PunctuationKind::Separator })
        } else if is_digit(c) {
            let r = self.parse_number(c);
            proof {
                lemma_numeric_scan_bounds(s, q + 1, false, false);
                if let NumericScan::Accepted { end } = numeric_scan(s, q + 1, false, false) {
                    assert(seq![c] + s.subrange(q + 1, end) =~= s.subrange(q, end));
                }
            }
            r
        } else if is_ident_start(c) {
            let t = self.parse_identifier(c);
            proof {
                lemma_ident_end(s, q + 1);
                assert(seq![c] + s.subrange(q + 1, ident_end(s, q + 1)) =~= s.subrange(
                    q,
                    ident_end(s, q + 1),
                ));
            }
            Ok(t)
        } else if c == '\'' {
            self.parse_char_literal()
        } else if is_op_char(c) {
            let t = self.parse_operator(c);
            proof {
                lemma_op_end(s, q + 1);
                assert(seq![c] + s.subrange(q + 1, op_end(s, q + 1)) =~= s.subrange(
                    q,
                    op_end(s, q + 1),
                ));
            }
            Ok(t)
        } else {
            Ok(TokenType::Unknown(c))
        }
    }

    /// The single advancing operation of the lexer: skips whitespace, and
    /// either reports the end of the stream — from then on every further
    /// call does the same — or consumes one token and returns it, or the
    /// error that pins down why and where classification failed.
    pub fn next_token(&mut self) -> (r: Result<TokenType, LexerError>)
        requires
            old(self).wf(),
        ensures
            final(self).wf(),
            next_token_post(*old(self), *final(self), r),
    {
        proof {
            lemma_skip_ws_end(self.text(), self.cursor());
        }
        self.skip_whitespace();
        match self.consume_char() {
            Some(c) => self.transform_to_type(c),
            None => Ok(TokenType::EndOfStream),
        }
    }
}

/// What one classification step, entered just after the character at
/// index `q` of `s` was consumed with balance counts `pre`, says of the
/// lexer state `post` and the produced result `r`.
pub open spec fn dispatch_post(
    s: Seq<char>,
    q: int,
    pre: BalanceCounts,
    post: Lexer,
    r: Result<TokenType, LexerError>,
) -> bool
    recommends
        0 <= q < s.len(),
{
    let c = s[q];
    &&& post.text() == s
    &&& if is_open_bracket(c) {
        &&& r matches Ok(TokenType::Punctuation { raw, kind: PunctuationKind::Open(d) }) && raw
            == c && d == pre.of(c)
        &&& post.counts().of(c) == pre.of(c) + 1
        &&& forall|k: char| is_open_bracket(k) && k != c ==> post.counts().of(k) == pre.of(k)
        &&& post.cursor() == q + 1
    } else if is_close_bracket(c) {
        let m = opening_of(c);
        if pre.of(m) >= 1 {
            &&& r matches Ok(TokenType::Punctuation { raw, kind: PunctuationKind::Close(d) })
                && raw == c && d == pre.of(m) - 1
            &&& post.counts().of(m) == pre.of(m) - 1
            &&& forall|k: char| is_open_bracket(k) && k != m ==> post.counts().of(k) == pre.of(k)
            &&& post.cursor() == q + 1
        } else {
            &&& r matches Err(LexerError::MisbalancedSymbol { symbol, open_kind, position })
                && symbol == c && open_kind == m && position.line == spec_line(s, q)
                && position.column == spec_col(s, q) && position.offset == q
            &&& post.counts() == pre
            &&& post.cursor() == q + 1
        }
    } else if c == ',' || c == ';' {
        &&& r matches Ok(TokenType::Punctuation { raw, kind: PunctuationKind::Separator }) && raw
            == c
        &&& post.counts() == pre
        &&& post.cursor() == q + 1
    } else if is_ascii_digit(c) {
        &&& post.counts() == pre
        &&& match numeric_scan(s, q + 1, false, false) {
            NumericScan::Accepted { end } => r matches Ok(TokenType::Numeric(x)) && x@
                == s.subrange(q, end) && post.cursor() == end,
            NumericScan::Rejected { at, reason } => r matches Err(
                LexerError::MalformedNumber { reason: why, position },
            ) && why == reason && position.line == spec_line(s, at) && position.column == spec_col(
                s,
                at,
            ) && position.offset == at && post.cursor() == at,
        }
    } else if is_identifier_start(c) {
        &&& r matches Ok(TokenType::Identifier(x)) && x@ == s.subrange(q, ident_end(s, q + 1))
            && is_identifier_lexeme(x@)
        &&& post.counts() == pre
        &&& post.cursor() == ident_end(s, q + 1)
    } else if c == '\'' {
        &&& post.counts() == pre
        &&& if q + 2 < s.len() && s[q + 2] == '\'' {
            r matches Ok(TokenType::CharLiteral(b)) && b == s[q + 1] && post.cursor() == q + 3
        } else {
            let stop = if q + 1 < s.len() {
                q + 2
            } else {
                q + 1
            };
            r matches Err(LexerError::UnterminatedCharLiteral { position }) && position.line
                == spec_line(s, stop) && position.column == spec_col(s, stop) && position.offset
                == stop && post.cursor() == stop
        }
    } else if is_operator_char(c) {
        &&& r matches Ok(TokenType::Operator(x)) && x@ == s.subrange(q, op_end(s, q + 1))
        &&& post.counts() == pre
        &&& post.cursor() == op_end(s, q + 1)
    } else {
        &&& r matches Ok(TokenType::Unknown(u)) && u == c
        &&& post.counts() == pre
        &&& post.cursor() == q + 1
    }
}

/// What one call of `next_token` on the state `pre` says of the state
/// `post` and the produced result `r`: whitespace is skipped; an
/// exhausted input yields the end-of-stream sentinel and leaves the
/// cursor at the end, so that every later call yields it again; any
/// other input classifies the first character after the whitespace.
pub open spec fn next_token_post(pre: Lexer, post: Lexer, r: Result<TokenType, LexerError>) -> bool {
    let s = pre.text();
    let q = skip_ws_end(s, pre.cursor());
    if q == s.len() {
        &&& post.text() == s
        &&& post.cursor() == s.len()
        &&& post.counts() == pre.counts()
        &&& r matches Ok(TokenType::EndOfStream)
    } else {
        dispatch_post(s, q, pre.counts(), post, r)
    }
}

} // verus!
