//! Compiler core for a small reactive, component-oriented language.
//!
//! The pipeline is linear and every stage is a function of its input:
//! source text to tokens ([`lexer`]), tokens to a syntax tree ([`parser`],
//! [`ast`]), semantic checks over the tree ([`semantic`]), lowering to a flat
//! IR ([`generator`], [`ir`], [`render`]) and emission of a binary
//! WebAssembly module ([`emitter`], [`leb128`]). [`compiler`] runs the whole
//! of it; [`stdlib`] holds the containers of the language's standard library.

pub mod text;
pub mod token;
pub mod lexer;
pub mod ast;
pub mod parser;
pub mod syntax;
pub mod semantic;
pub mod ir;
pub mod render;
pub mod generator;
pub mod leb128;
pub mod emitter;
pub mod compiler;
pub mod stdlib;
