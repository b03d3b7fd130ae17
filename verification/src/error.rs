//! What can go wrong at each stage, and the message that belongs to it.

use vstd::prelude::*;
use vstd::string::*;

verus! {

/// Why a text could not be split into tokens.
#[derive(Debug, Clone, Copy, PartialEq, Eq)]
pub enum LexError {
    /// A run of digits and decimal points that is no number, such as `1.2.3`.
    InvalidNumber,
    /// A character that belongs to no token; it is carried along.
    UnexpectedCharacter(char),
}

/// Why a token sequence is no expression.
#[derive(Debug, Clone, Copy, PartialEq, Eq)]
pub enum ParseError {
    /// The tokens ended where an operand had to follow.
    UnexpectedEndOfInput,
    /// A token stands where an operand had to stand, or is left over after a
    /// complete expression.
    UnexpectedToken,
    /// A parenthesis was opened and the matching `)` is missing.
    ExpectedClosingParenthesis,
}

/// Why an expression has no value.
#[derive(Debug, PartialEq, Eq)]
pub enum EvalError {
    /// The environment holds no variable of this name.
    UnknownVariable(String),
    /// A divisor evaluated to zero.
    DivisionByZero,
}

/// The failure of parsing a text: in its tokens, or in their arrangement.
#[derive(Debug, Clone, Copy, PartialEq, Eq)]
pub enum Error {
    Lex(LexError),
    Parse(ParseError),
}

/// The view of an [`EvalError`], with the variable's name as a sequence.
pub enum EvalFailure {
    UnknownVariable(Seq<char>),
    DivisionByZero,
}

impl View for EvalError {
    type V = EvalFailure;

    open spec fn view(&self) -> EvalFailure {
        match self {
            EvalError::UnknownVariable(name) => EvalFailure::UnknownVariable(name@),
            EvalError::DivisionByZero => EvalFailure::DivisionByZero,
        }
    }
}

/// `String::push`: the text afterwards is the text before with `c` at its end.
#[verifier::external_body]
fn push_char(text: &mut String, c: char)
    ensures
        final(text)@ == old(text)@.push(c),
{
    text.push(c)
}

impl LexError {
    /// The text of [`LexError::message`].
    pub open spec fn message_text(self) -> Seq<char> {
        match self {
            LexError::InvalidNumber => "Invalid number"@,
            LexError::UnexpectedCharacter(c) => "Unexpected character: "@.push(c),
        }
    }

    /// The message of this error; that of an unexpected character ends in the
    /// character itself.
    pub fn message(&self) -> (r: String)
        ensures
            r@ == self.message_text(),
    {
        match self {
            LexError::InvalidNumber => "Invalid number".to_owned(),
            LexError::UnexpectedCharacter(c) => {
                let mut text = "Unexpected character: ".to_owned();
                push_char(&mut text, *c);
                text
            },
        }
    }
}

impl ParseError {
    /// The text of [`ParseError::message`].
    pub open spec fn message_text(self) -> Seq<char> {
        match self {
            ParseError::UnexpectedEndOfInput => "Unexpected end of input"@,
            ParseError::UnexpectedToken => "Unexpected token"@,
            ParseError::ExpectedClosingParenthesis => "Expected closing parenthesis"@,
        }
    }

    /// The message of this error.
    pub fn message(&self) -> (r: String)
        ensures
            r@ == self.message_text(),
    {
        match self {
            ParseError::UnexpectedEndOfInput => "Unexpected end of input".to_owned(),
            ParseError::UnexpectedToken => "Unexpected token".to_owned(),
            ParseError::ExpectedClosingParenthesis => "Expected closing parenthesis".to_owned(),
        }
    }
}

impl EvalError {
    /// The text of [`EvalError::message`].
    pub open spec fn message_text(self) -> Seq<char> {
        match self {
            EvalError::UnknownVariable(name) => "Variable '"@ + name@ + "' not found"@,
            EvalError::DivisionByZero => "Division by 0"@,
        }
    }

    /// The message of this error; that of an unknown variable quotes its name.
    pub fn message(&self) -> (r: String)
        ensures
            r@ == self.message_text(),
    {
        match self {
            EvalError::UnknownVariable(name) => {
                let mut text = "Variable '".to_owned();
                text.append(name.as_str());
                text.append("' not found");
                text
            },
            EvalError::DivisionByZero => "Division by 0".to_owned(),
        }
    }
}

impl Error {
    /// The text of [`Error::message`].
    pub open spec fn message_text(self) -> Seq<char> {
        match self {
            Error::Lex(e) => e.message_text(),
            Error::Parse(e) => e.message_text(),
        }
    }

    /// The message of the error inside.
    pub fn message(&self) -> (r: String)
        ensures
            r@ == self.message_text(),
    {
        match self {
            Error::Lex(e) => e.message(),
            Error::Parse(e) => e.message(),
        }
    }
}

} // verus!
