//! A tree-walking evaluator for a small Lisp: values, a chain of lexical
//! environments held in an arena, and an evaluation loop that runs tail
//! positions without growing the native stack.
//!
//! Every executable function is verified against a mathematical model:
//! [`value::ValueView`] for values, [`env::StoreView`] for the arena of
//! environments, and [`semantics::eval`] for what an expression evaluates to.

pub mod value;
pub mod error;
pub mod env;
pub mod semantics;
pub mod eval;
pub mod laws;

pub use value::{Value, ValueView};
pub use error::{Defect, EvalError, ErrorView};
pub use env::{EnvId, Store};
pub use eval::{eval_ast, evaluate, evaluate_within};
