//! A bridge between a lexical analyser and a pull-driven parser for the
//! untyped lambda calculus: spans, token mapping, a lexer adapter, unified
//! error reporting and the parse driver, with contracts that Verus proves.

pub mod text;

pub mod error;

pub mod token;

pub mod classifier;

pub mod ast;

pub mod adapter;

pub mod grammar;

pub mod parser;

pub mod laws;

pub mod canon;

pub mod printer;
