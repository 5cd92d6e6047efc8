//! The interpreter: run-time values, the variable and type tables, and the evaluation of
//! the syntax tree.  Floating-point arithmetic is not done here: where it would be needed,
//! evaluation stops with a request that the caller carries out.
pub mod values;
pub mod context;
pub mod eval;
