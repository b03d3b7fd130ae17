//! Tokens, and the view under which contracts speak of them.

use vstd::prelude::*;
use vstd::string::*;
use crate::number::Number;
use crate::number::Numeral;

verus! {

/// One lexical unit of an expression.
#[derive(Debug, PartialEq, Eq)]
pub enum Token {
    /// A number.
    Number(Number),
    /// A variable's name: a run of ASCII letters.
    Variable(String),
    /// `+`
    Plus,
    /// `-`
    Minus,
    /// `*`
    Star,
    /// `/`
    Slash,
    /// `^`
    Caret,
    /// `(`
    LParen,
    /// `)`
    RParen,
}

/// The view of a [`Token`]: the same unit, with texts as sequences.
pub enum Lexeme {
    Number(Numeral),
    Variable(Seq<char>),
    Plus,
    Minus,
    Star,
    Slash,
    Caret,
    LParen,
    RParen,
}

impl View for Token {
    type V = Lexeme;

    open spec fn view(&self) -> Lexeme {
        match self {
            Token::Number(n) => Lexeme::Number(n@),
            Token::Variable(name) => Lexeme::Variable(name@),
            Token::Plus => Lexeme::Plus,
            Token::Minus => Lexeme::Minus,
            Token::Star => Lexeme::Star,
            Token::Slash => Lexeme::Slash,
            Token::Caret => Lexeme::Caret,
            Token::LParen => Lexeme::LParen,
            Token::RParen => Lexeme::RParen,
        }
    }
}

/// The views of a sequence of tokens, one for one.
pub open spec fn lexemes(tokens: Seq<Token>) -> Seq<Lexeme> {
    tokens.map_values(|t: Token| t@)
}

} // verus!
