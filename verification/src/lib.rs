//! A compiler front end for a small language of targets, variables, scripts
//! and help text: a lexer, a parser that builds a syntax tree, and a generator
//! that writes the tree out as source text for a C++ compiler.
//!
//! The generated program fills in the placeholders of its scripts with a
//! templating engine that is part of the generated text. `template::inject`
//! states the rules of that engine and applies them without a generated
//! program.
//!
//! Every function states what it computes over mathematical values: a text is
//! a `Seq<char>`, a token, a node and an error have a view.

pub mod compiler;
pub mod digits;
pub mod error;
pub mod generator;
pub mod lexer;
pub mod parser;
pub mod template;
pub mod text;
pub mod utils;
