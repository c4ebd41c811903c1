//! Helpers for the tools around the lexer and the parser.

pub mod color;
