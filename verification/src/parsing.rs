//! From text to tokens, and from tokens to a syntax tree.

pub mod grammar;
pub mod lexer;
pub mod parser;
pub mod spacing;
pub mod spelling;
pub mod syntax;
pub mod token;

pub use self::lexer::tokenize;
pub use self::parser::Parser;
pub use self::token::Lexeme;
pub use self::token::Token;
