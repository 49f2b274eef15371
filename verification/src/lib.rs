//! A small ahead-of-time compiler for a parenthesized, dynamically typed
//! expression language: from the text of a program to the text of an
//! x86-64 assembly file.
//!
//! The way of a program through the library:
//!
//! - [`syntax`] reads the text into a tree of tokens and lists;
//! - [`parser`] turns the tree into a validated [`types::Program`];
//! - [`compiler`] lowers the program to abstract assembly, as [`lowering`]
//!   says it must, with the environment of [`env`];
//! - [`utils`] holds the inline run-time checks and renders instructions as
//!   text, and [`driver`] puts the text into the frame of the file;
//! - [`runtime`] is what the runtime of a compiled program needs to know of
//!   the value representation.
//!
//! What is proved of all this beyond the contracts of the functions:
//!
//! - [`scoping`]: a program that breaks a static rule is not compiled;
//! - [`machine`] and [`behaviour`]: what the emitted code of the operators
//!   and checks does on a model of the processor;
//! - [`labels`]: the code of an expression defines labels of its own
//!   numbers only, and none twice;
//! - [`flow`]: the model of the processor with labels, jumps, `call` and
//!   `ret`;
//! - [`evaluation`]: what expressions mean;
//! - [`simulation`]: the code of an expression does what the expression
//!   means;
//! - [`linking`]: in the code of a whole program each function can be
//!   called, and no label is defined twice;
//! - [`laws`]: what follows for whole programs.

pub mod behaviour;
pub mod compiler;
pub mod driver;
pub mod env;
pub mod error;
pub mod evaluation;
pub mod flow;
pub mod labels;
pub mod laws;
pub mod linking;
pub mod lowering;
pub mod machine;
pub mod parser;
pub mod runtime;
pub mod scoping;
pub mod simulation;
pub mod syntax;
pub mod text;
pub mod types;
pub mod utils;
