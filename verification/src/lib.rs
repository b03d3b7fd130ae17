//! Infix arithmetic expressions: text to tokens, tokens to a syntax tree, and
//! the evaluation of a tree as a sequence of decisions around an arithmetic
//! that the caller supplies.

pub mod error;
pub mod evaluation;
pub mod expression;
pub mod number;
pub mod parsing;
pub mod text;

pub use crate::error::Error;
pub use crate::error::EvalError;
pub use crate::error::LexError;
pub use crate::error::ParseError;
pub use crate::evaluation::environment::Environment;
pub use crate::evaluation::machine::Evaluation;
pub use crate::evaluation::machine::Progress;
pub use crate::expression::expr;
pub use crate::expression::Expression;
pub use crate::expression::Operator;
pub use crate::number::Literal;
pub use crate::number::Number;
pub use crate::parsing::lexer::tokenize;
pub use crate::parsing::parser::Parser;
pub use crate::parsing::token::Token;
