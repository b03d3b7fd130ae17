//! The grammar, as functions from a token sequence and a position to the tree
//! that is read there and the position behind it.
//!
//! ```text
//! expression     := addition
//! addition       := multiplication ( ('+' | '-') multiplication )*
//! multiplication := power ( ('*' | '/') power )*
//! power          := primary ( '^' primary )*
//! primary        := Number | Variable | '(' expression ')'
//! ```
//!
//! Every level groups from the left, `^` included: `2 ^ 3 ^ 2` is `(2 ^ 3) ^ 2`.

use vstd::prelude::*;
use crate::error::ParseError;
use crate::expression::Operator;
use crate::expression::Term;
use crate::parsing::token::Lexeme;

verus! {

/// The three levels of binary operators, from the loosest to the tightest.
pub enum Level {
    Addition,
    Multiplication,
    Power,
}

/// What was read at a position: a tree or an error, and where reading stopped.
pub struct Parse {
    pub outcome: Result<Term, ParseError>,
    pub cursor: int,
}

impl Level {
    /// How many levels bind at least as tight as this one.
    pub open spec fn rank(self) -> int {
        match self {
            Level::Addition => 3,
            Level::Multiplication => 2,
            Level::Power => 1,
        }
    }

    /// The operator of this level that `token` stands for, if it is one.
    pub open spec fn operator(self, token: Lexeme) -> Option<Operator> {
        match (self, token) {
            (Level::Addition, Lexeme::Plus) => Some(Operator::Add),
            (Level::Addition, Lexeme::Minus) => Some(Operator::Subtract),
            (Level::Multiplication, Lexeme::Star) => Some(Operator::Multiply),
            (Level::Multiplication, Lexeme::Slash) => Some(Operator::Divide),
            (Level::Power, Lexeme::Caret) => Some(Operator::Power),
            _ => None,
        }
    }
}

/// The token at position `i`, if there is one.
pub open spec fn token_at(tokens: Seq<Lexeme>, i: int) -> Option<Lexeme> {
    if 0 <= i < tokens.len() {
        Some(tokens[i])
    } else {
        None
    }
}

/// A primary at position `i`: a number, a variable, or an expression in
/// parentheses.
///
/// Where no token is left this is `UnexpectedEndOfInput`. A token that
/// begins no primary is `UnexpectedToken`. After `(` and an expression, a
/// token other than `)`, or none, is `ExpectedClosingParenthesis`. Each look
/// at a token moves the cursor on by one, whether a token was there or not:
/// after a failure at the end of the tokens the cursor stands past the end.
pub open spec fn parse_primary(tokens: Seq<Lexeme>, i: int) -> Parse
    decreases tokens.len() - i, 0int,
{
    match token_at(tokens, i) {
        None => Parse { outcome: Err(ParseError::UnexpectedEndOfInput), cursor: i + 1 },
        Some(Lexeme::Number(number)) => Parse { outcome: Ok(Term::Number(number)), cursor: i + 1 },
        Some(Lexeme::Variable(name)) => Parse {
            outcome: Ok(Term::Variable(name)),
            cursor: i + 1,
        },
        Some(Lexeme::LParen) => {
            let inner = parse_level(tokens, Level::Addition, i + 1);
            if inner.outcome is Err {
                inner
            } else if token_at(tokens, inner.cursor) == Some(Lexeme::RParen) {
                Parse { outcome: inner.outcome, cursor: inner.cursor + 1 }
            } else {
                Parse {
                    outcome: Err(ParseError::ExpectedClosingParenthesis),
                    cursor: inner.cursor + 1,
                }
            }
        },
        Some(_) => Parse { outcome: Err(ParseError::UnexpectedToken), cursor: i + 1 },
    }
}

/// One operand of `level` at position `i`: a chain of the next tighter level,
/// or a primary where there is none.
pub open spec fn parse_operand(tokens: Seq<Lexeme>, level: Level, i: int) -> Parse
    decreases tokens.len() - i, 2 * level.rank() - 1,
{
    match level {
        Level::Addition => parse_level(tokens, Level::Multiplication, i),
        Level::Multiplication => parse_level(tokens, Level::Power, i),
        Level::Power => parse_primary(tokens, i),
    }
}

/// A chain of `level` at position `i`: one operand, then operators of the
/// level with one operand each, as many as follow, grouped from the left.
///
/// The comparisons of cursors only serve termination:
/// [`lemma_parse_advances`] shows that they hold.
pub open spec fn parse_level(tokens: Seq<Lexeme>, level: Level, i: int) -> Parse
    decreases tokens.len() - i, 2 * level.rank(),
{
    let first = parse_operand(tokens, level, i);
    match first.outcome {
        Ok(left) if i < first.cursor <= tokens.len() => parse_chain(
            tokens,
            level,
            left,
            first.cursor,
        ),
        _ => first,
    }
}

/// The rest of a chain of `level` whose operands so far make up `left`, with
/// the next operator expected at position `i`.
pub open spec fn parse_chain(tokens: Seq<Lexeme>, level: Level, left: Term, i: int) -> Parse
    decreases tokens.len() - i, 2 * level.rank(),
{
    if 0 <= i < tokens.len() && level.operator(tokens[i]) is Some {
        let operand = parse_operand(tokens, level, i + 1);
        match operand.outcome {
            Ok(right) if i < operand.cursor <= tokens.len() => parse_chain(
                tokens,
                level,
                Term::Binary(level.operator(tokens[i])->0, Box::new(left), Box::new(right)),
                operand.cursor,
            ),
            _ => operand,
        }
    } else {
        Parse { outcome: Ok(left), cursor: i }
    }
}

/// An expression at position `i`.
pub open spec fn parse_expression(tokens: Seq<Lexeme>, i: int) -> Parse {
    parse_level(tokens, Level::Addition, i)
}

/// The furthest that reading from position `i` can get: one past the end of
/// the tokens, or one past `i` where `i` is at the end or beyond.
pub open spec fn reach(tokens: Seq<Lexeme>, i: int) -> int {
    if i < tokens.len() {
        tokens.len() as int + 1
    } else {
        i + 1
    }
}

/// Reading never moves backwards, and never further than one past the end or
/// one past where it began. What is read successfully at a level holds at
/// least one token and ends within the tokens.
pub proof fn lemma_parse_advances(tokens: Seq<Lexeme>, level: Level, i: int)
    requires
        0 <= i,
    ensures
        i <= parse_level(tokens, level, i).cursor <= reach(tokens, i),
        parse_level(tokens, level, i).outcome is Ok ==> i < parse_level(tokens, level, i).cursor
            <= tokens.len(),
        i <= parse_operand(tokens, level, i).cursor <= reach(tokens, i),
        parse_operand(tokens, level, i).outcome is Ok ==> i < parse_operand(
            tokens,
            level,
            i,
        ).cursor <= tokens.len(),
    decreases tokens.len() - i, 2 * level.rank(),
{
    match level {
        Level::Addition => lemma_parse_advances(tokens, Level::Multiplication, i),
        Level::Multiplication => lemma_parse_advances(tokens, Level::Power, i),
        Level::Power => lemma_primary_advances(tokens, i),
    }
    let first = parse_operand(tokens, level, i);
    if let Ok(left) = first.outcome {
        lemma_chain_advances(tokens, level, left, first.cursor);
    }
}

/// [`lemma_parse_advances`], for a primary.
pub proof fn lemma_primary_advances(tokens: Seq<Lexeme>, i: int)
    requires
        0 <= i,
    ensures
        i < parse_primary(tokens, i).cursor <= reach(tokens, i),
        parse_primary(tokens, i).outcome is Ok ==> parse_primary(tokens, i).cursor
            <= tokens.len(),
    decreases tokens.len() - i, 0int,
{
    if i < tokens.len() && tokens[i] is LParen {
        lemma_parse_advances(tokens, Level::Addition, i + 1);
    }
}

/// [`lemma_parse_advances`], for the rest of a chain that is taken up within
/// the tokens.
pub proof fn lemma_chain_advances(tokens: Seq<Lexeme>, level: Level, left: Term, i: int)
    requires
        0 <= i <= tokens.len(),
    ensures
        i <= parse_chain(tokens, level, left, i).cursor <= tokens.len() + 1,
        parse_chain(tokens, level, left, i).outcome is Ok ==> parse_chain(
            tokens,
            level,
            left,
            i,
        ).cursor <= tokens.len(),
    decreases tokens.len() - i, 2 * level.rank(),
{
    if i < tokens.len() && level.operator(tokens[i]) is Some {
        match level {
            Level::Addition => lemma_parse_advances(tokens, Level::Multiplication, i + 1),
            Level::Multiplication => lemma_parse_advances(tokens, Level::Power, i + 1),
            Level::Power => lemma_primary_advances(tokens, i + 1),
        }
        let operand = parse_operand(tokens, level, i + 1);
        if let Ok(right) = operand.outcome {
            lemma_chain_advances(
                tokens,
                level,
                Term::Binary(level.operator(tokens[i])->0, Box::new(left), Box::new(right)),
                operand.cursor,
            );
        }
    }
}

} // verus!
