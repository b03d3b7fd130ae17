//! Evaluating an expression: the decisions are taken here, the arithmetic is
//! asked of the caller, one operation at a time.

pub mod environment;
pub mod machine;
pub mod semantics;

pub use self::environment::Environment;
