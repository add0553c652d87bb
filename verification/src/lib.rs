//! A small S-expression language evaluator: values, lexically scoped
//! environments, a builtin library, and the recursive reduction algorithm.

pub mod error;
pub mod lval;
pub mod lenv;
pub mod builtins;
pub mod eval;
pub mod semantics;
pub mod render;
