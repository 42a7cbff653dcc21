//! Specification-level models of the cursor's position bookkeeping and of
//! the sub-scans: whitespace skipping, identifier and operator runs, and
//! the numeric grammar.

use vstd::prelude::*;

use crate::token::{
    is_ascii_digit, is_identifier_continue, is_operator_char, is_whitespace_char,
    MalformedNumberReason,
};

verus! {

/// The 1-based line number after consuming the first `n` characters of `s`.
pub open spec fn spec_line(s: Seq<char>, n: int) -> int
    decreases n,
{
    if n <= 0 {
        1
    } else {
        spec_line(s, n - 1) + if s[n - 1] == '\n' {
            1int
        } else {
            0int
        }
    }
}

/// The 1-based column after consuming the first `n` characters of `s`:
/// 1 right after a newline, otherwise one more than before.
pub open spec fn spec_col(s: Seq<char>, n: int) -> int
    decreases n,
{
    if n <= 0 {
        1
    } else if s[n - 1] == '\n' {
        1
    } else {
        spec_col(s, n - 1) + 1
    }
}

/// Lines and columns are 1-based, and never exceed one more than the
/// number of characters consumed.
pub proof fn lemma_line_col_bounds(s: Seq<char>, n: int)
    requires
        0 <= n,
    ensures
        1 <= spec_line(s, n) <= n + 1,
        1 <= spec_col(s, n) <= n + 1,
    decreases n,
{
    if n > 0 {
        lemma_line_col_bounds(s, n - 1);
    }
}

/// The index of the first non-whitespace character at or after `p`
/// (`s.len()` if whitespace runs to the end of the input).
pub open spec fn skip_ws_end(s: Seq<char>, p: int) -> int
    decreases s.len() - p,
{
    if p < 0 || p >= s.len() {
        p
    } else if is_whitespace_char(s[p]) {
        skip_ws_end(s, p + 1)
    } else {
        p
    }
}

/// Every character in the skipped run is whitespace, and the run stops at
/// the first character that is not.
pub proof fn lemma_skip_ws_end(s: Seq<char>, p: int)
    requires
        0 <= p <= s.len(),
    ensures
        p <= skip_ws_end(s, p) <= s.len(),
        forall|i: int| p <= i < skip_ws_end(s, p) ==> is_whitespace_char(s[i]),
        skip_ws_end(s, p) < s.len() ==> !is_whitespace_char(s[skip_ws_end(s, p)]),
    decreases s.len() - p,
{
    if p < s.len() && is_whitespace_char(s[p]) {
        lemma_skip_ws_end(s, p + 1);
    }
}

/// The index just past a maximal run of identifier-continue characters
/// starting at `p`.
pub open spec fn ident_end(s: Seq<char>, p: int) -> int
    decreases s.len() - p,
{
    if p < 0 || p >= s.len() {
        p
    } else if is_identifier_continue(s[p]) {
        ident_end(s, p + 1)
    } else {
        p
    }
}

/// The identifier run holds only identifier-continue characters and stops
/// at the first character that is not one, leaving it unconsumed.
pub proof fn lemma_ident_end(s: Seq<char>, p: int)
    requires
        0 <= p <= s.len(),
    ensures
        p <= ident_end(s, p) <= s.len(),
        forall|i: int| p <= i < ident_end(s, p) ==> is_identifier_continue(s[i]),
        ident_end(s, p) < s.len() ==> !is_identifier_continue(s[ident_end(s, p)]),
    decreases s.len() - p,
{
    if p < s.len() && is_identifier_continue(s[p]) {
        lemma_ident_end(s, p + 1);
    }
}

/// The index just past a maximal run of operator characters starting at `p`.
pub open spec fn op_end(s: Seq<char>, p: int) -> int
    decreases s.len() - p,
{
    if p < 0 || p >= s.len() {
        p
    } else if is_operator_char(s[p]) {
        op_end(s, p + 1)
    } else {
        p
    }
}

/// The operator run holds only operator characters and stops at the first
/// character that is not one, leaving it unconsumed.
pub proof fn lemma_op_end(s: Seq<char>, p: int)
    requires
        0 <= p <= s.len(),
    ensures
        p <= op_end(s, p) <= s.len(),
        forall|i: int| p <= i < op_end(s, p) ==> is_operator_char(s[i]),
        op_end(s, p) < s.len() ==> !is_operator_char(s[op_end(s, p)]),
    decreases s.len() - p,
{
    if p < s.len() && is_operator_char(s[p]) {
        lemma_op_end(s, p + 1);
    }
}

/// The outcome of the numeric grammar from a given point: either the scan
/// ends (exclusively) at `end`, or it is rejected at the offending index.
pub enum NumericScan {
    Accepted { end: int },
    Rejected { at: int, reason: MalformedNumberReason },
}

/// The numeric grammar after the leading digit: digits; at most one dot,
/// consumed only when a digit follows it; at most one exponent marker,
/// with an optional sign and then at least one digit. A repeated dot or
/// marker, or a marker without digits, rejects the scan at that index.
pub open spec fn numeric_scan(s: Seq<char>, p: int, seen_dot: bool, seen_exp: bool) -> NumericScan
    decreases s.len() - p,
{
    if p < 0 || p >= s.len() {
        NumericScan::Accepted { end: p }
    } else if is_ascii_digit(s[p]) {
        numeric_scan(s, p + 1, seen_dot, seen_exp)
    } else if s[p] == '.' {
        if seen_dot {
            NumericScan::Rejected { at: p, reason: MalformedNumberReason::RepeatedDot }
        } else if p + 1 < s.len() && is_ascii_digit(s[p + 1]) {
            numeric_scan(s, p + 2, true, seen_exp)
        } else {
            NumericScan::Accepted { end: p }
        }
    } else if s[p] == 'e' || s[p] == 'E' {
        if seen_exp {
            NumericScan::Rejected { at: p, reason: MalformedNumberReason::RepeatedExponent }
        } else {
            let q = if p + 1 < s.len() && (s[p + 1] == '+' || s[p + 1] == '-') {
                p + 2
            } else {
                p + 1
            };
            if q < s.len() && is_ascii_digit(s[q]) {
                numeric_scan(s, q + 1, seen_dot, true)
            } else {
                NumericScan::Rejected { at: p, reason: MalformedNumberReason::MissingExponentDigits }
            }
        }
    } else {
        NumericScan::Accepted { end: p }
    }
}

/// The numeric scan never moves backwards: it ends, or is rejected, at or
/// after the point it started from, and within the input.
pub proof fn lemma_numeric_scan_bounds(s: Seq<char>, p: int, seen_dot: bool, seen_exp: bool)
    requires
        0 <= p <= s.len(),
    ensures
        match numeric_scan(s, p, seen_dot, seen_exp) {
            NumericScan::Accepted { end } => p <= end <= s.len(),
            NumericScan::Rejected { at, reason } => p <= at < s.len(),
        },
    decreases s.len() - p,
{
    if p < s.len() {
        if is_ascii_digit(s[p]) {
            lemma_numeric_scan_bounds(s, p + 1, seen_dot, seen_exp);
        } else if s[p] == '.' {
            if !seen_dot && p + 1 < s.len() && is_ascii_digit(s[p + 1]) {
                lemma_numeric_scan_bounds(s, p + 2, true, seen_exp);
            }
        } else if (s[p] == 'e' || s[p] == 'E') && !seen_exp {
            let q = if p + 1 < s.len() && (s[p + 1] == '+' || s[p + 1] == '-') {
                p + 2
            } else {
                p + 1
            };
            if q < s.len() && is_ascii_digit(s[q]) {
                lemma_numeric_scan_bounds(s, q + 1, seen_dot, true);
            }
        }
    }
}

} // verus!
