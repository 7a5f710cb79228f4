//! A calculation engine for worksheets that mix numbers and physical units.
//!
//! A document is a list of statements, one per line: `name = expression`,
//! or an expression alone. Every statement is evaluated with exact rational
//! arithmetic and dimensional analysis, and gives one rendered record.
//!
//! The modules, leaves first:
//!
//! - `numtheory`, `fraction`, `rational`: exact fractions in lowest terms.
//! - `text`, `assoc`: writing integers in decimal; association lists.
//! - `dimension`, `registry`, `value`: dimension vectors, the table of
//!   units, and quantities with the unit algebra.
//! - `ast`, `grammar`, `parser`: the syntax tree, the grammar as functions
//!   on characters, and the parser that follows it.
//! - `scope`, `evaluator`, `executor`, `engine`: variables, the evaluation
//!   of expressions, the execution of statements, and the entry point
//!   `engine::evaluate_document`.

pub mod assoc;
pub mod ast;
pub mod dimension;
pub mod engine;
pub mod error;
pub mod evaluator;
pub mod executor;
pub mod fraction;
pub mod grammar;
pub mod numtheory;
pub mod parser;
pub mod rational;
pub mod registry;
pub mod scope;
pub mod text;
pub mod value;
