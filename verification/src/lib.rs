//! A tree-walking evaluator for a small Lisp dialect with integers, booleans,
//! variable definitions, conditionals, and first-class closures with lexical
//! scoping.
//!
//! The crate verifies the evaluator core: the value model, the environment
//! (a chain of scope frames held in an arena), closures, and statement and
//! expression evaluation.  The semantics are written once as specification
//! functions (`semantics`); the executable interpreter (`interpreter`) is
//! proved to return exactly what the specification says, including the text
//! it writes to the output sink.

pub mod ast;
pub mod env;
pub mod interpreter;
pub mod laws;
pub mod semantics;
pub mod text;
