//! A lexical analyzer: turns an in-memory character sequence into classified
//! tokens, tracking source position (line, column, codepoint offset) and the
//! nesting depth of bracket-like punctuation as it scans.

pub mod laws;
pub mod lexer;
pub mod scan;
pub mod token;
