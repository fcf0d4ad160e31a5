//! A parser for HTML templates that are written as Rust tokens.
//!
//! [`parse::parse`] turns the tokens of a template into a syntax tree, or reports why they are not
//! a template. What it returns is fixed by the grammar in [`grammar`], over the mathematical view
//! of tokens in [`token`] and of syntax trees in [`ast`].
pub mod ast;
pub mod extend;
pub mod grammar;
pub mod laws;
pub mod literal;
pub mod parse;
pub mod progress;
pub mod scan;
pub mod sound;
pub mod token;
pub mod weight;
