//! The syntax tree of an expression, and the view under which contracts speak
//! of it.

pub mod expr;

use vstd::prelude::*;
use vstd::string::*;
use crate::error::Error;
use crate::error::ParseError;
use crate::number::Number;
use crate::number::Numeral;
use crate::parsing::grammar::lemma_parse_advances;
use crate::parsing::grammar::parse_expression;
use crate::parsing::grammar::Level;
use crate::parsing::lexer::lex;
use crate::parsing::lexer::tokenize;
use crate::parsing::parser::Parser;

verus! {

/// The five binary operators.
#[derive(Debug, Clone, Copy, PartialEq, Eq, Structural)]
pub enum Operator {
    /// `+`
    Add,
    /// `-`
    Subtract,
    /// `*`
    Multiply,
    /// `/`
    Divide,
    /// `^`
    Power,
}

/// An expression: a number, a variable, or an operator over two expressions
/// that the node owns.
#[derive(Debug, PartialEq, Eq)]
pub enum Expression {
    Number(Number),
    Variable(String),
    Add(Box<Expression>, Box<Expression>),
    Subtract(Box<Expression>, Box<Expression>),
    Multiply(Box<Expression>, Box<Expression>),
    Divide(Box<Expression>, Box<Expression>),
    Power(Box<Expression>, Box<Expression>),
}

/// The view of an [`Expression`]: the same tree with texts as sequences and
/// the five binary variants told apart by their operator.
pub enum Term {
    Number(Numeral),
    Variable(Seq<char>),
    Binary(Operator, Box<Term>, Box<Term>),
}

/// The root of an expression and what hangs from it.
pub enum Node<'a> {
    Number(&'a Number),
    Variable(&'a String),
    Binary(Operator, &'a Expression, &'a Expression),
}

impl<'a> Node<'a> {
    /// The tree that the node is the root of.
    pub open spec fn term(self) -> Term {
        match self {
            Node::Number(n) => Term::Number(n@),
            Node::Variable(name) => Term::Variable(name@),
            Node::Binary(operator, left, right) => Term::Binary(
                operator,
                Box::new(left@),
                Box::new(right@),
            ),
        }
    }
}

impl View for Expression {
    type V = Term;

    open spec fn view(&self) -> Term {
        self.term()
    }
}

/// The tree that the whole text `s` stands for.
///
/// The text is split into tokens, one expression is read from the first
/// token on, and no token may be left over: a token behind a complete
/// expression is an `UnexpectedToken`.
pub open spec fn parse_text(s: Seq<char>) -> Result<Term, Error> {
    match lex(s) {
        Err(error) => Err(Error::Lex(error)),
        Ok(tokens) => {
            let parse = parse_expression(tokens, 0);
            match parse.outcome {
                Err(error) => Err(Error::Parse(error)),
                Ok(term) => if parse.cursor == tokens.len() {
                    Ok(term)
                } else {
                    Err(Error::Parse(ParseError::UnexpectedToken))
                },
            }
        },
    }
}

impl Expression {
    /// The tree as a [`Term`]; `self@` is this.
    pub open spec fn term(&self) -> Term
        decreases self,
    {
        match self {
            Expression::Number(n) => Term::Number(n@),
            Expression::Variable(name) => Term::Variable(name@),
            Expression::Add(a, b) => Term::Binary(
                Operator::Add,
                Box::new(a.term()),
                Box::new(b.term()),
            ),
            Expression::Subtract(a, b) => Term::Binary(
                Operator::Subtract,
                Box::new(a.term()),
                Box::new(b.term()),
            ),
            Expression::Multiply(a, b) => Term::Binary(
                Operator::Multiply,
                Box::new(a.term()),
                Box::new(b.term()),
            ),
            Expression::Divide(a, b) => Term::Binary(
                Operator::Divide,
                Box::new(a.term()),
                Box::new(b.term()),
            ),
            Expression::Power(a, b) => Term::Binary(
                Operator::Power,
                Box::new(a.term()),
                Box::new(b.term()),
            ),
        }
    }

    /// Parses the whole of `input` as one expression.
    ///
    /// The text must be shorter than the greatest length there is, so that a
    /// position past its last token can be held.
    pub fn parse(input: &str) -> (r: Result<Expression, Error>)
        requires
            input@.len() < usize::MAX,
        ensures
            r matches Ok(expression) ==> parse_text(input@) == Ok::<Term, Error>(expression@),
            r matches Err(error) ==> parse_text(input@) == Err::<Term, Error>(error),
    {
        let tokens = match tokenize(input) {
            Ok(tokens) => tokens,
            Err(error) => {
                return Err(Error::Lex(error));
            },
        };
        let mut parser = Parser::new(tokens);
        proof {
            lemma_parse_advances(parser.tokens(), Level::Addition, 0);
        }
        match parser.parse_expression() {
            Err(error) => Err(Error::Parse(error)),
            Ok(expression) => {
                if parser.is_finished() {
                    Ok(expression)
                } else {
                    Err(Error::Parse(ParseError::UnexpectedToken))
                }
            },
        }
    }

    /// The root of the tree, with the five operators under one variant.
    pub fn node(&self) -> (r: Node<'_>)
        ensures
            self@ == r.term(),
    {
        match self {
            Expression::Number(n) => Node::Number(n),
            Expression::Variable(name) => Node::Variable(name),
            Expression::Add(a, b) => Node::Binary(Operator::Add, &**a, &**b),
            Expression::Subtract(a, b) => Node::Binary(Operator::Subtract, &**a, &**b),
            Expression::Multiply(a, b) => Node::Binary(Operator::Multiply, &**a, &**b),
            Expression::Divide(a, b) => Node::Binary(Operator::Divide, &**a, &**b),
            Expression::Power(a, b) => Node::Binary(Operator::Power, &**a, &**b),
        }
    }

    /// The node that applies `operator` to `left` and `right`.
    pub fn binary(operator: Operator, left: Expression, right: Expression) -> (r: Expression)
        ensures
            r@ == Term::Binary(operator, Box::new(left@), Box::new(right@)),
    {
        match operator {
            Operator::Add => Expression::Add(Box::new(left), Box::new(right)),
            Operator::Subtract => Expression::Subtract(Box::new(left), Box::new(right)),
            Operator::Multiply => Expression::Multiply(Box::new(left), Box::new(right)),
            Operator::Divide => Expression::Divide(Box::new(left), Box::new(right)),
            Operator::Power => Expression::Power(Box::new(left), Box::new(right)),
        }
    }
}

} // verus!
