//! The recursive-descent parser: one function for each level of the grammar,
//! over a token sequence and a cursor into it.

use vstd::prelude::*;
use crate::error::ParseError;
use crate::expression::Expression;
use crate::expression::Operator;
use crate::expression::Term;
use crate::parsing::grammar::lemma_parse_advances;
use crate::parsing::grammar::lemma_primary_advances;
use crate::parsing::grammar::parse_chain;
use crate::parsing::grammar::parse_expression;
use crate::parsing::grammar::parse_level;
use crate::parsing::grammar::parse_operand;
use crate::parsing::grammar::parse_primary;
use crate::parsing::grammar::token_at;
use crate::parsing::grammar::Level;
use crate::parsing::grammar::Parse;
use crate::parsing::token::lexemes;
use crate::parsing::token::Lexeme;
use crate::parsing::token::Token;

verus! {

/// A token sequence and the position of the next token to read. The
/// position may stand past the end: then no token is left.
pub struct Parser {
    tokens: Vec<Token>,
    current: usize,
}

/// Whether a parser that returned `result` and stopped at `cursor` did what
/// the grammar says in `parse`.
pub open spec fn agrees(result: Result<Expression, ParseError>, cursor: int, parse: Parse) -> bool {
    &&& cursor == parse.cursor
    &&& match result {
        Ok(expression) => parse.outcome == Ok::<_, ParseError>(expression@),
        Err(error) => parse.outcome == Err::<Term, _>(error),
    }
}

impl Parser {
    /// The tokens, read or not.
    pub closed spec fn tokens(&self) -> Seq<Lexeme> {
        lexemes(self.tokens@)
    }

    /// The position of the next token to read.
    pub closed spec fn cursor(&self) -> int {
        self.current as int
    }

    /// Whether the cursor can move on from wherever reading may take it: it
    /// and the number of tokens are below the greatest position there is.
    pub open spec fn has_room(&self) -> bool {
        self.cursor() < usize::MAX && self.tokens().len() < usize::MAX
    }

    /// A parser at the start of `tokens`.
    pub fn new(tokens: Vec<Token>) -> (parser: Self)
        ensures
            parser.tokens() == lexemes(tokens@),
            parser.cursor() == 0,
    {
        Parser { tokens, current: 0 }
    }

    /// Whether no token is left to read: the cursor stands at the end of the
    /// tokens or past it.
    pub fn is_finished(&self) -> (r: bool)
        ensures
            r == (self.cursor() >= self.tokens().len()),
    {
        self.current >= self.tokens.len()
    }

    /// The next token, if one is left.
    fn peek(&self) -> (r: Option<&Token>)
        ensures
            token_at(self.tokens(), self.cursor()) == match r {
                Some(token) => Some(token@),
                None => None,
            },
    {
        if self.current < self.tokens.len() {
            Some(&self.tokens[self.current])
        } else {
            None
        }
    }

    /// Moves the cursor on by one and hands back the token it stood at, if
    /// there was one.
    fn advance(&mut self) -> (r: Option<&Token>)
        requires
            old(self).cursor() < usize::MAX,
        ensures
            final(self).tokens() == old(self).tokens(),
            final(self).cursor() == old(self).cursor() + 1,
            token_at(old(self).tokens(), old(self).cursor()) == match r {
                Some(token) => Some(token@),
                None => None,
            },
    {
        let at = self.current;
        self.current = self.current + 1;
        if at < self.tokens.len() {
            Some(&self.tokens[at])
        } else {
            None
        }
    }

    /// Reads one primary.
    fn parse_primary(&mut self) -> (r: Result<Expression, ParseError>)
        requires
            old(self).has_room(),
        ensures
            final(self).tokens() == old(self).tokens(),
            agrees(
                r,
                final(self).cursor(),
                parse_primary(old(self).tokens(), old(self).cursor()),
            ),
        decreases old(self).tokens().len() - old(self).cursor(), 0int,
    {
        match self.advance() {
            None => Err(ParseError::UnexpectedEndOfInput),
            Some(Token::Number(n)) => Ok(Expression::Number(n.clone())),
            Some(Token::Variable(name)) => Ok(Expression::Variable(name.clone())),
            Some(Token::LParen) => {
                let inner = self.parse_expression();
                proof {
                    lemma_parse_advances(
                        old(self).tokens(),
                        Level::Addition,
                        old(self).cursor() + 1,
                    );
                }
                match inner {
                    Err(error) => Err(error),
                    Ok(expression) => match self.advance() {
                        Some(Token::RParen) => Ok(expression),
                        _ => Err(ParseError::ExpectedClosingParenthesis),
                    },
                }
            },
            Some(_) => Err(ParseError::UnexpectedToken),
        }
    }

    /// Reads a power: primaries joined by `^`, grouped from the left.
    fn parse_power(&mut self) -> (r: Result<Expression, ParseError>)
        requires
            old(self).has_room(),
        ensures
            final(self).tokens() == old(self).tokens(),
            agrees(
                r,
                final(self).cursor(),
                parse_level(old(self).tokens(), Level::Power, old(self).cursor()),
            ),
        decreases old(self).tokens().len() - old(self).cursor(), 1int,
    {
        proof {
            lemma_primary_advances(self.tokens(), self.cursor());
        }
        let mut expr = match self.parse_primary() {
            Ok(first) => first,
            Err(error) => {
                return Err(error);
            },
        };
        loop
            invariant
                self.tokens() == old(self).tokens(),
                old(self).cursor() < self.cursor() <= self.tokens().len() < usize::MAX,
                parse_chain(self.tokens(), Level::Power, expr@, self.cursor()) == parse_level(
                    old(self).tokens(),
                    Level::Power,
                    old(self).cursor(),
                ),
            ensures
                self.tokens() == old(self).tokens(),
                parse_level(old(self).tokens(), Level::Power, old(self).cursor()) == (Parse {
                    outcome: Ok(expr@),
                    cursor: self.cursor(),
                }),
            decreases self.tokens().len() - self.cursor(),
        {
            let operator = match self.peek() {
                Some(Token::Caret) => Operator::Power,
                _ => {
                    break ;
                },
            };
            self.advance();
            proof {
                lemma_primary_advances(self.tokens(), self.cursor());
                assert(parse_operand(self.tokens(), Level::Power, self.cursor())
                    == parse_primary(
                        self.tokens(),
                        self.cursor(),
                    ));
            }
            let right = match self.parse_primary() {
                Ok(operand) => operand,
                Err(error) => {
                    return Err(error);
                },
            };
            expr = Expression::binary(operator, expr, right);
        }
        Ok(expr)
    }

    /// Reads a product: powers joined by `*` and `/`, grouped from the left.
    fn parse_multiplication(&mut self) -> (r: Result<Expression, ParseError>)
        requires
            old(self).has_room(),
        ensures
            final(self).tokens() == old(self).tokens(),
            agrees(
                r,
                final(self).cursor(),
                parse_level(old(self).tokens(), Level::Multiplication, old(self).cursor()),
            ),
        decreases old(self).tokens().len() - old(self).cursor(), 3int,
    {
        proof {
            lemma_parse_advances(self.tokens(), Level::Power, self.cursor());
        }
        let mut expr = match self.parse_power() {
            Ok(first) => first,
            Err(error) => {
                return Err(error);
            },
        };
        loop
            invariant
                self.tokens() == old(self).tokens(),
                old(self).cursor() < self.cursor() <= self.tokens().len() < usize::MAX,
                parse_chain(self.tokens(), Level::Multiplication, expr@, self.cursor()) == parse_level(
                    old(self).tokens(),
                    Level::Multiplication,
                    old(self).cursor(),
                ),
            ensures
                self.tokens() == old(self).tokens(),
                parse_level(old(self).tokens(), Level::Multiplication, old(self).cursor()) == (Parse {
                    outcome: Ok(expr@),
                    cursor: self.cursor(),
                }),
            decreases self.tokens().len() - self.cursor(),
        {
            let operator = match self.peek() {
                Some(Token::Star) => Operator::Multiply,
                Some(Token::Slash) => Operator::Divide,
                _ => {
                    break ;
                },
            };
            self.advance();
            proof {
                lemma_parse_advances(self.tokens(), Level::Power, self.cursor());
                assert(parse_operand(self.tokens(), Level::Multiplication, self.cursor())
                    == parse_level(
                        self.tokens(),
                        Level::Power,
                        self.cursor(),
                    ));
            }
            let right = match self.parse_power() {
                Ok(operand) => operand,
                Err(error) => {
                    return Err(error);
                },
            };
            expr = Expression::binary(operator, expr, right);
        }
        Ok(expr)
    }

    /// Reads a sum: products joined by `+` and `-`, grouped from the left.
    fn parse_addition(&mut self) -> (r: Result<Expression, ParseError>)
        requires
            old(self).has_room(),
        ensures
            final(self).tokens() == old(self).tokens(),
            agrees(
                r,
                final(self).cursor(),
                parse_level(old(self).tokens(), Level::Addition, old(self).cursor()),
            ),
        decreases old(self).tokens().len() - old(self).cursor(), 5int,
    {
        proof {
            lemma_parse_advances(self.tokens(), Level::Multiplication, self.cursor());
        }
        let mut expr = match self.parse_multiplication() {
            Ok(first) => first,
            Err(error) => {
                return Err(error);
            },
        };
        loop
            invariant
                self.tokens() == old(self).tokens(),
                old(self).cursor() < self.cursor() <= self.tokens().len() < usize::MAX,
                parse_chain(self.tokens(), Level::Addition, expr@, self.cursor()) == parse_level(
                    old(self).tokens(),
                    Level::Addition,
                    old(self).cursor(),
                ),
            ensures
                self.tokens() == old(self).tokens(),
                parse_level(old(self).tokens(), Level::Addition, old(self).cursor()) == (Parse {
                    outcome: Ok(expr@),
                    cursor: self.cursor(),
                }),
            decreases self.tokens().len() - self.cursor(),
        {
            let operator = match self.peek() {
                Some(Token::Plus) => Operator::Add,
                Some(Token::Minus) => Operator::Subtract,
                _ => {
                    break ;
                },
            };
            self.advance();
            proof {
                lemma_parse_advances(self.tokens(), Level::Multiplication, self.cursor());
                assert(parse_operand(self.tokens(), Level::Addition, self.cursor())
                    == parse_level(
                        self.tokens(),
                        Level::Multiplication,
                        self.cursor(),
                    ));
            }
            let right = match self.parse_multiplication() {
                Ok(operand) => operand,
                Err(error) => {
                    return Err(error);
                },
            };
            expr = Expression::binary(operator, expr, right);
        }
        Ok(expr)
    }

    /// Reads one expression from the cursor on: as many tokens as make up an
    /// expression, and no more. Tokens may be left over.
    ///
    /// On success the cursor stands behind the expression. On failure it
    /// stands behind the position at which the failure showed, which is past
    /// the end where the tokens ran out.
    pub fn parse_expression(&mut self) -> (r: Result<Expression, ParseError>)
        requires
            old(self).has_room(),
        ensures
            final(self).tokens() == old(self).tokens(),
            agrees(
                r,
                final(self).cursor(),
                parse_expression(old(self).tokens(), old(self).cursor()),
            ),
        decreases old(self).tokens().len() - old(self).cursor(), 6int,
    {
        self.parse_addition()
    }
}

} // verus!
