//! The evaluator core of a small JavaScript-like language.
//!
//! Given an expression tree produced by an external parser, the interpreter
//! executes it against a mutable global environment, producing dynamically
//! typed values with prototype-based objects, closure-free user functions,
//! host-implemented native functions, and exception-style control flow.
//!
//! Objects live in an arena: a growing vector of property maps addressed by
//! stable index, so that object graphs may be shared and cyclic without a
//! tracing collector.  The meaning of every construct is written down once,
//! as the specification-level interpreter in [`semantics`], and the
//! executable interpreter in [`exec`] is proved to agree with it.

pub mod ast;
pub mod coerce;
pub mod exec;
pub mod heap;
pub mod laws;
pub mod semantics;
pub mod value;
