//! A small ahead-of-time compiler for a restricted C-like language.
//!
//! Source text goes through a tokenizer ([`lexer`]), an arena-based syntax
//! tree ([`ast`], built by [`parser`]), a source IR ([`tacky`]), a target IR
//! ([`x86`]) and an assembly-text emitter ([`codegen`]); [`pipeline`] runs the
//! stages in turn. Every stage is verified against a model of its input and
//! output, and [`laws`] states properties of the tokenizer over all inputs.
pub mod ast;
pub mod cli;
pub mod codegen;
pub mod laws;
pub mod lexer;
pub mod parser;
pub mod pipeline;
pub mod tacky;
pub mod text;
pub mod token;
pub mod x86;
