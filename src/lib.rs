//! A small rule language for scoring, classifying, filtering and sorting
//! support cases, with a parser, a tree-walking evaluator and a phase-by-phase
//! workflow executor.
//!
//! - `lexer`, `parser`: source text to tokens to syntax trees, each stated
//!   against a grammar written as spec functions.
//! - `ast`: syntax trees, runtime values and the model the contracts use.
//! - `ops`, `order`, `text`: operators, built-in functions, sort-key order and
//!   decimal text.
//! - `environment`, `eval`: scoped bindings and expression evaluation, stated
//!   against an interpreter written as spec functions.
//! - `models`, `context`, `workflow`, `vm`, `engine`: records, the per-record
//!   phases, the interpreter and the engine a host embeds.

pub mod ast;
pub mod ops;
pub mod environment;
pub mod text;
pub mod eval;
pub mod models;
pub mod order;
pub mod context;
pub mod workflow;
pub mod vm;
pub mod lexer;
pub mod parser;
pub mod engine;
