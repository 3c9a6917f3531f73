//! Front end and evaluator of a small expression-oriented scripting language:
//! text is split into raw tokens, raw tokens are classified, a Pratt parser
//! builds the syntax tree and a tree-walking evaluator computes its value.
//!
//! The stages are functions that a caller composes: [`tokenizer::tokenize`], a
//! [`lexer::Lexer`] over the raw tokens, a [`parser::Parser`] over the lexer, and
//! an [`interpreter::Interpreter`] over an [`enviroment::Enviroment`].
//!
//! Numbers are IEEE 754 doubles. The library holds a number in the source by the
//! text of its literal and a number at run time by its bits, and it compares two
//! numbers by their bits; it does no floating-point arithmetic. The evaluator is
//! handed the function that reads a literal and the function that computes an
//! operation, and its contract holds for whatever functions these are.

pub mod atom;
pub mod enviroment;
pub mod interpreter;
pub mod lexer;
pub mod object;
pub mod parser;
pub mod text;
pub mod tokenizer;
