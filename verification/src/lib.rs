//! A small dynamically-typed Lisp-family expression evaluator.
//!
//! The crate reduces parsed s-expression trees to values: it supports global
//! variable bindings, conditionals, arithmetic/logical built-ins, and
//! first-class functions applied through positional curry-substitution.
//! Parsing source text and driving a read-eval-print loop are left to callers.

pub mod builtins;
pub mod coerce;
pub mod curry;
pub mod error;
pub mod eval;
pub mod expr;
pub mod laws;
