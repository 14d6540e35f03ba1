//! A tree-walking interpreter core for a small dynamically typed scripting
//! language: typed scalar values, a lexical scope stack, a function registry
//! with native built-ins, and a statement evaluator over a closed syntax tree.
//!
//! Choices where the language leaves room:
//! - `add` and `sub` on `Int` operands only compute exactly, in integers, and
//!   give an `Int`. Where an operand is a `Float` the computation is floating
//!   point, which this library leaves to a `FloatArith` of its caller; the
//!   contracts state when that path is taken and that its answer is the
//!   `Float` result.
//! - A native function name takes precedence over a user-defined function of
//!   the same name.
//! - A user-defined function takes no parameters (its arguments are evaluated
//!   for their effects), runs in a fresh frame on top of the caller's stack,
//!   and returns `Null`.
//! - Every fatal condition is an `ErrorKind`; printed text and debug listings
//!   are collected in strings that the caller writes out.

pub mod value;
pub mod variables;
pub mod type_string;
pub mod number;
pub mod math_functions;
pub mod syntax;
pub mod functions;
pub mod execute_code;
