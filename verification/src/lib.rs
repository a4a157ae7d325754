//! A small interpreter for a concatenative, stack-based scripting language.
//!
//! Source text is scanned into a flat token stream by a hand-written
//! finite-state lexer, then executed directly against a stack machine with
//! lexically nested scopes; no syntax tree is ever built.

pub mod char_scanner;
pub mod execution_context;
pub mod interpreter;
pub mod lexer;
pub mod numeric;
pub mod text;
