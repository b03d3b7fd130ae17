//! Which token sequences are expressions, said without the parser, and the
//! proof that the grammar reads each of them as the tree it was written for.

use vstd::prelude::*;
use crate::expression::Operator;
use crate::expression::Term;
use crate::number::Numeral;
use crate::parsing::grammar::parse_chain;
use crate::parsing::grammar::parse_expression;
use crate::parsing::grammar::parse_level;
use crate::parsing::grammar::parse_operand;
use crate::parsing::grammar::Level;
use crate::parsing::grammar::Parse;
use crate::parsing::token::Lexeme;

verus! {

/// An expression as it is written: a tree in which each pair of parentheses
/// is a node of its own.
pub enum Syntax {
    Number(Numeral),
    Variable(Seq<char>),
    Binary(Operator, Box<Syntax>, Box<Syntax>),
    Group(Box<Syntax>),
}

/// The level at which `operator` binds.
pub open spec fn level_of(operator: Operator) -> Level {
    match operator {
        Operator::Add => Level::Addition,
        Operator::Subtract => Level::Addition,
        Operator::Multiply => Level::Multiplication,
        Operator::Divide => Level::Multiplication,
        Operator::Power => Level::Power,
    }
}

/// The token that `operator` is written as.
pub open spec fn token_of(operator: Operator) -> Lexeme {
    match operator {
        Operator::Add => Lexeme::Plus,
        Operator::Subtract => Lexeme::Minus,
        Operator::Multiply => Lexeme::Star,
        Operator::Divide => Lexeme::Slash,
        Operator::Power => Lexeme::Caret,
    }
}

/// The rank of the level whose operator `token` is; 4 for a token that is no
/// operator.
pub open spec fn binding(token: Lexeme) -> int {
    match token {
        Lexeme::Caret => 1,
        Lexeme::Star => 2,
        Lexeme::Slash => 2,
        Lexeme::Plus => 3,
        Lexeme::Minus => 3,
        _ => 4,
    }
}

impl Syntax {
    /// The tree that is meant: the same without the parentheses.
    pub open spec fn term(self) -> Term
        decreases self,
    {
        match self {
            Syntax::Number(number) => Term::Number(number),
            Syntax::Variable(name) => Term::Variable(name),
            Syntax::Binary(operator, left, right) => Term::Binary(
                operator,
                Box::new(left.term()),
                Box::new(right.term()),
            ),
            Syntax::Group(inner) => inner.term(),
        }
    }

    /// The tokens, from left to right.
    pub open spec fn tokens(self) -> Seq<Lexeme>
        decreases self,
    {
        match self {
            Syntax::Number(number) => seq![Lexeme::Number(number)],
            Syntax::Variable(name) => seq![Lexeme::Variable(name)],
            Syntax::Binary(operator, left, right) => left.tokens() + seq![token_of(operator)]
                + right.tokens(),
            Syntax::Group(inner) => seq![Lexeme::LParen] + inner.tokens() + seq![Lexeme::RParen],
        }
    }

    /// Whether this may stand where a chain of rank `rank` is expected, 0
    /// being the rank of a primary.
    ///
    /// A number, a variable and a group may stand anywhere, and a group may
    /// hold anything that is an expression. An operator may stand where its
    /// own level or a looser one is expected; its left operand is then of its
    /// own level, and its right operand of the next tighter one.
    pub open spec fn fits(self, rank: int) -> bool
        decreases self,
    {
        match self {
            Syntax::Number(_) => true,
            Syntax::Variable(_) => true,
            Syntax::Binary(operator, left, right) => {
                &&& level_of(operator).rank() <= rank
                &&& left.fits(level_of(operator).rank())
                &&& right.fits(level_of(operator).rank() - 1)
            },
            Syntax::Group(inner) => inner.fits(3),
        }
    }
}

/// Whether `part` stands in `tokens` from position `i` on.
pub open spec fn stands_at(tokens: Seq<Lexeme>, i: int, part: Seq<Lexeme>) -> bool {
    &&& 0 <= i
    &&& i + part.len() <= tokens.len()
    &&& tokens.subrange(i, i + part.len()) == part
}

/// Whether a chain of rank `rank` that has been read up to position `i` ends
/// there: no token is left, or the next one is no operator of a tighter level.
pub open spec fn ends_at(tokens: Seq<Lexeme>, i: int, rank: int) -> bool {
    i >= tokens.len() || binding(tokens[i]) >= rank
}

/// Something written holds at least one token.
pub proof fn lemma_tokens_nonempty(written: Syntax)
    ensures
        written.tokens().len() >= 1,
    decreases written,
{
    match written {
        Syntax::Binary(_, left, right) => {
            lemma_tokens_nonempty(*left);
            lemma_tokens_nonempty(*right);
        },
        _ => {},
    }
}

/// Where two parts stand one after the other, each of them stands.
proof fn lemma_stands_split(tokens: Seq<Lexeme>, i: int, first: Seq<Lexeme>, second: Seq<Lexeme>)
    requires
        stands_at(tokens, i, first + second),
    ensures
        stands_at(tokens, i, first),
        stands_at(tokens, i + first.len(), second),
{
    let whole = first + second;
    assert forall|k: int| 0 <= k < whole.len() implies tokens[i + k] == whole[k] by {
        assert(tokens.subrange(i, i + whole.len())[k] == tokens[i + k]);
    }
    assert(tokens.subrange(i, i + first.len()) =~= first) by {
        assert forall|k: int| 0 <= k < first.len() implies tokens[i + k] == first[k] by {
            assert(whole[k] == first[k]);
        }
    }
    assert(tokens.subrange(i + first.len(), i + first.len() + second.len()) =~= second) by {
        assert forall|k: int| 0 <= k < second.len() implies tokens[i + first.len() + k]
            == second[k] by {
            assert(whole[first.len() + k] == second[k]);
        }
    }
}

/// Where one token stands, it is the token at that position.
proof fn lemma_stands_one(tokens: Seq<Lexeme>, i: int, token: Lexeme)
    requires
        stands_at(tokens, i, seq![token]),
    ensures
        0 <= i < tokens.len(),
        tokens[i] == token,
{
    assert(tokens.subrange(i, i + 1)[0] == tokens[i]);
}

/// What is written for a chain of `level` and stands at position `i` is read
/// there as the left end of such a chain: the chain goes on behind it with
/// the tree that is meant.
pub proof fn lemma_reads_level(tokens: Seq<Lexeme>, i: int, written: Syntax, level: Level)
    requires
        stands_at(tokens, i, written.tokens()),
        written.fits(level.rank()),
        ends_at(tokens, i + written.tokens().len(), level.rank()),
    ensures
        parse_level(tokens, level, i) == parse_chain(
            tokens,
            level,
            written.term(),
            i + written.tokens().len(),
        ),
    decreases written, 2 * level.rank() + 1,
{
    lemma_tokens_nonempty(written);
    match written {
        Syntax::Binary(operator, left, right) if level_of(operator) == level => {
            let sign = seq![token_of(operator)];
            let j = i + left.tokens().len();
            lemma_stands_split(tokens, i, left.tokens() + sign, right.tokens());
            lemma_stands_split(tokens, i, left.tokens(), sign);
            lemma_stands_one(tokens, j, token_of(operator));
            lemma_reads_level(tokens, i, *left, level);
            lemma_reads_operand(tokens, j + 1, *right, level);
            lemma_tokens_nonempty(*right);
            assert(level.operator(tokens[j]) == Some(operator));
        },
        _ => {
            lemma_reads_operand(tokens, i, written, level);
        },
    }
}

/// What is written for an operand of `level` and stands at position `i` is
/// read there as the tree that is meant, and reading stops behind it.
pub proof fn lemma_reads_operand(tokens: Seq<Lexeme>, i: int, written: Syntax, level: Level)
    requires
        stands_at(tokens, i, written.tokens()),
        written.fits(level.rank() - 1),
        ends_at(tokens, i + written.tokens().len(), level.rank()),
    ensures
        parse_operand(tokens, level, i) == (Parse {
            outcome: Ok(written.term()),
            cursor: i + written.tokens().len(),
        }),
    decreases written, 2 * level.rank(),
{
    lemma_tokens_nonempty(written);
    match level {
        Level::Addition => {
            lemma_reads_level(tokens, i, written, Level::Multiplication);
        },
        Level::Multiplication => {
            lemma_reads_level(tokens, i, written, Level::Power);
        },
        Level::Power => {
            match written {
                Syntax::Number(number) => {
                    lemma_stands_one(tokens, i, Lexeme::Number(number));
                },
                Syntax::Variable(name) => {
                    lemma_stands_one(tokens, i, Lexeme::Variable(name));
                },
                Syntax::Group(inner) => {
                    let open = seq![Lexeme::LParen];
                    let close = seq![Lexeme::RParen];
                    let j = i + 1 + inner.tokens().len();
                    lemma_stands_split(tokens, i, open + inner.tokens(), close);
                    lemma_stands_split(tokens, i, open, inner.tokens());
                    lemma_stands_one(tokens, i, Lexeme::LParen);
                    lemma_stands_one(tokens, j, Lexeme::RParen);
                    lemma_reads_level(tokens, i + 1, *inner, Level::Addition);
                    lemma_tokens_nonempty(*inner);
                },
                Syntax::Binary(_, _, _) => {},
            }
        },
    }
}

/// Every token sequence that is written for an expression is read as the
/// tree that is meant, to its last token.
///
/// This is the grammar's precedence and grouping in one statement: an
/// operator that stands unparenthesized among looser ones binds first, equal
/// levels group from the left, `^` as well, and parentheses override both.
pub proof fn lemma_written_expression_parses(written: Syntax)
    requires
        written.fits(3),
    ensures
        parse_expression(written.tokens(), 0) == (Parse {
            outcome: Ok(written.term()),
            cursor: written.tokens().len() as int,
        }),
{
    let tokens = written.tokens();
    assert(tokens.subrange(0, tokens.len() as int) =~= tokens);
    lemma_reads_level(tokens, 0, written, Level::Addition);
}

/// `term` as it is written where a chain of rank `rank` is expected, with
/// parentheses where they are needed and nowhere else: around an operator
/// that binds looser than its place allows.
pub open spec fn written_for(term: Term, rank: int) -> Syntax
    decreases term,
{
    match term {
        Term::Number(number) => Syntax::Number(number),
        Term::Variable(name) => Syntax::Variable(name),
        Term::Binary(operator, left, right) => {
            let own = level_of(operator).rank();
            let node = Syntax::Binary(
                operator,
                Box::new(written_for(*left, own)),
                Box::new(written_for(*right, own - 1)),
            );
            if own <= rank {
                node
            } else {
                Syntax::Group(Box::new(node))
            }
        },
    }
}

/// The tokens of `term`, written as an expression.
pub open spec fn render(term: Term) -> Seq<Lexeme> {
    written_for(term, 3).tokens()
}

/// What [`written_for`] writes may stand where it was written for, and means
/// the tree it was written from.
pub proof fn lemma_written_for(term: Term, rank: int)
    ensures
        written_for(term, rank).fits(rank),
        written_for(term, rank).term() == term,
    decreases term,
{
    match term {
        Term::Binary(operator, left, right) => {
            let own = level_of(operator).rank();
            lemma_written_for(*left, own);
            lemma_written_for(*right, own - 1);
            let node = Syntax::Binary(
                operator,
                Box::new(written_for(*left, own)),
                Box::new(written_for(*right, own - 1)),
            );
            assert(node.term() == term);
            assert(node.fits(3));
            if own <= rank {
                assert(node.fits(rank));
            }
        },
        _ => {},
    }
}

/// Every tree can be written, and is read back from what was written: the
/// grammar reaches every tree, and `render` is a right inverse of parsing.
pub proof fn lemma_render_parses(term: Term)
    ensures
        parse_expression(render(term), 0) == (Parse {
            outcome: Ok(term),
            cursor: render(term).len() as int,
        }),
{
    lemma_written_for(term, 3);
    lemma_written_expression_parses(written_for(term, 3));
}

} // verus!
