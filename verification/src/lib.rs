//! A lexer and tree-building parser for a small statically-typed language.
//!
//! Source text is cut into tokens by a hand-written state machine that keeps
//! exact line and column bookkeeping; the tokens are then grouped into a
//! generic syntax tree by an event-based parser with single-token error
//! recovery.

pub mod lexer;
pub mod parser;
pub mod source;
pub mod text;
pub mod utils;
