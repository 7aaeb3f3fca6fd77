//! Lexical front end of a small interpreted language: a position model, a
//! tokenizer over Unicode scalar values, and a nested-list pretty-printer.

pub mod grammar;
pub mod lemmas;
pub mod lexer;
pub mod location;
pub mod sexp;
pub mod text;
