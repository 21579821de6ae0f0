//! A small interpreter front-end for a Lisp-like expression language:
//! text in, evaluated value out. The tokenizer turns source text into
//! tokens, the recursive-descent parser builds one tree per input, and
//! the tree-walking evaluator produces a tagged value against a chain of
//! scopes whose top-level frame persists across inputs. Every stage is
//! specified by a mathematical model and verified against it.

pub mod lexer;
pub mod grammar;
pub mod parse_error;
pub mod parser;
pub mod types;
pub mod scope;
pub mod evaluator;
pub mod laws;
