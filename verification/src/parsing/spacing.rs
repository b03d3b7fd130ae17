//! Where a text may be cut, and that space between tokens changes nothing.

use vstd::prelude::*;
use crate::error::LexError;
use crate::number::is_number_char;
use crate::number::is_number_literal;
use crate::number::Numeral;
use crate::parsing::lexer::followed_by;
use crate::parsing::lexer::is_letter;
use crate::parsing::lexer::is_space;
use crate::parsing::lexer::lemma_number_end_bounds;
use crate::parsing::lexer::lemma_word_end_bounds;
use crate::parsing::lexer::lex;
use crate::parsing::lexer::lex_from;
use crate::parsing::lexer::number_end;
use crate::parsing::lexer::symbol;
use crate::parsing::lexer::word_end;
use crate::parsing::token::Lexeme;

verus! {

/// Whether `x` and `y`, side by side, belong to one token: two number
/// characters, or two letters.
pub open spec fn joins(x: char, y: char) -> bool {
    (is_number_char(x) && is_number_char(y)) || (is_letter(x) && is_letter(y))
}

/// Whether no token reaches from `a` into `b` where `b` follows `a`.
pub open spec fn separate(a: Seq<char>, b: Seq<char>) -> bool {
    a.len() == 0 || b.len() == 0 || !joins(a.last(), b[0])
}

/// The tokens of `first` and then those of `rest`, or the error of `first`,
/// or else that of `rest`.
pub open spec fn then(
    first: Result<Seq<Lexeme>, LexError>,
    rest: Result<Seq<Lexeme>, LexError>,
) -> Result<Seq<Lexeme>, LexError> {
    match first {
        Ok(tokens) => followed_by(tokens, rest),
        Err(e) => Err(e),
    }
}

/// Putting a token in front and then adding what follows is the same in
/// either order.
proof fn lemma_then_followed(
    token: Lexeme,
    middle: Result<Seq<Lexeme>, LexError>,
    rest: Result<Seq<Lexeme>, LexError>,
)
    ensures
        followed_by(seq![token], then(middle, rest)) == then(
            followed_by(seq![token], middle),
            rest,
        ),
{
    if let Ok(m) = middle {
        if let Ok(r) = rest {
            assert(seq![token] + (m + r) =~= (seq![token] + m) + r);
        }
    }
}

/// A run of number characters in `b` ends at the same place, counted from
/// the start of `b`, when `a` stands before it.
proof fn lemma_number_end_shift(a: Seq<char>, b: Seq<char>, k: int)
    requires
        0 <= k <= b.len(),
    ensures
        number_end(a + b, a.len() + k) == a.len() + number_end(b, k),
    decreases b.len() - k,
{
    if k < b.len() {
        assert((a + b)[a.len() + k] == b[k]);
        if is_number_char(b[k]) {
            lemma_number_end_shift(a, b, k + 1);
        }
    }
}

/// A run of letters in `b` ends at the same place, counted from the start of
/// `b`, when `a` stands before it.
proof fn lemma_word_end_shift(a: Seq<char>, b: Seq<char>, k: int)
    requires
        0 <= k <= b.len(),
    ensures
        word_end(a + b, a.len() + k) == a.len() + word_end(b, k),
    decreases b.len() - k,
{
    if k < b.len() {
        assert((a + b)[a.len() + k] == b[k]);
        if is_letter(b[k]) {
            lemma_word_end_shift(a, b, k + 1);
        }
    }
}

/// From the start of `b` on, the tokens of `a + b` are those of `b`.
pub proof fn lemma_lex_shift(a: Seq<char>, b: Seq<char>, k: int)
    requires
        0 <= k <= b.len(),
    ensures
        lex_from(a + b, a.len() + k) == lex_from(b, k),
    decreases b.len() - k,
{
    let s = a + b;
    let i = a.len() + k;
    if k < b.len() {
        assert(s[i] == b[k]);
        if is_space(b[k]) {
            lemma_lex_shift(a, b, k + 1);
        } else if is_number_char(b[k]) {
            lemma_number_end_shift(a, b, k);
            lemma_number_end_bounds(b, k);
            let j = number_end(b, k);
            assert(s.subrange(i, a.len() + j) =~= b.subrange(k, j));
            lemma_lex_shift(a, b, j);
        } else if is_letter(b[k]) {
            lemma_word_end_shift(a, b, k);
            lemma_word_end_bounds(b, k);
            let j = word_end(b, k);
            assert(s.subrange(i, a.len() + j) =~= b.subrange(k, j));
            lemma_lex_shift(a, b, j);
        } else {
            lemma_lex_shift(a, b, k + 1);
        }
    }
}

/// A run of number characters in `a` ends at the same place when `b`
/// follows, where no token reaches from `a` into `b`.
proof fn lemma_number_end_prefix(a: Seq<char>, b: Seq<char>, i: int)
    requires
        separate(a, b),
        0 <= i < a.len(),
        is_number_char(a[i]),
    ensures
        number_end(a + b, i) == number_end(a, i),
    decreases a.len() - i,
{
    let s = a + b;
    assert(s[i] == a[i]);
    if i + 1 < a.len() {
        assert(s[i + 1] == a[i + 1]);
        if is_number_char(a[i + 1]) {
            lemma_number_end_prefix(a, b, i + 1);
        }
    } else if b.len() > 0 {
        assert(s[i + 1] == b[0]);
        assert(a.last() == a[i]);
    }
    assert(number_end(s, i) == number_end(s, i + 1));
    assert(number_end(a, i) == number_end(a, i + 1));
}

/// A run of letters in `a` ends at the same place when `b` follows, where no
/// token reaches from `a` into `b`.
proof fn lemma_word_end_prefix(a: Seq<char>, b: Seq<char>, i: int)
    requires
        separate(a, b),
        0 <= i < a.len(),
        is_letter(a[i]),
    ensures
        word_end(a + b, i) == word_end(a, i),
    decreases a.len() - i,
{
    let s = a + b;
    assert(s[i] == a[i]);
    if i + 1 < a.len() {
        assert(s[i + 1] == a[i + 1]);
        if is_letter(a[i + 1]) {
            lemma_word_end_prefix(a, b, i + 1);
        }
    } else if b.len() > 0 {
        assert(s[i + 1] == b[0]);
        assert(a.last() == a[i]);
    }
    assert(word_end(s, i) == word_end(s, i + 1));
    assert(word_end(a, i) == word_end(a, i + 1));
}

/// Up to the end of `a`, the tokens of `a + b` are those of `a`, where no
/// token reaches from `a` into `b`.
proof fn lemma_lex_prefix(a: Seq<char>, b: Seq<char>, i: int)
    requires
        separate(a, b),
        0 <= i <= a.len(),
    ensures
        lex_from(a + b, i) == then(lex_from(a, i), lex_from(a + b, a.len() as int)),
    decreases a.len() - i,
{
    let s = a + b;
    let rest = lex_from(s, a.len() as int);
    if i == a.len() {
        if let Ok(tokens) = rest {
            assert(Seq::<Lexeme>::empty() + tokens =~= tokens);
        }
    } else {
        assert(s[i] == a[i]);
        if is_space(a[i]) {
            lemma_lex_prefix(a, b, i + 1);
        } else if is_number_char(a[i]) {
            lemma_number_end_prefix(a, b, i);
            lemma_number_end_bounds(a, i);
            let j = number_end(a, i);
            assert(s.subrange(i, j) =~= a.subrange(i, j));
            if is_number_literal(a.subrange(i, j)) {
                lemma_lex_prefix(a, b, j);
                lemma_then_followed(
                    Lexeme::Number(Numeral::Written(a.subrange(i, j))),
                    lex_from(a, j),
                    rest,
                );
            }
        } else if is_letter(a[i]) {
            lemma_word_end_prefix(a, b, i);
            lemma_word_end_bounds(a, i);
            let j = word_end(a, i);
            assert(s.subrange(i, j) =~= a.subrange(i, j));
            lemma_lex_prefix(a, b, j);
            lemma_then_followed(Lexeme::Variable(a.subrange(i, j)), lex_from(a, j), rest);
        } else if let Some(token) = symbol(a[i]) {
            lemma_lex_prefix(a, b, i + 1);
            lemma_then_followed(token, lex_from(a, i + 1), rest);
        }
    }
}

/// A text may be cut wherever no token is cut: the tokens of the whole are
/// those of the first part and then those of the second, and its first error
/// is that of the first part, or else that of the second.
pub proof fn lemma_lex_concat(a: Seq<char>, b: Seq<char>)
    requires
        separate(a, b),
    ensures
        lex(a + b) == then(lex(a), lex(b)),
{
    lemma_lex_prefix(a, b, 0);
    lemma_lex_shift(a, b, 0);
}

/// Space in front of a text changes nothing.
pub proof fn lemma_leading_space(c: char, b: Seq<char>)
    requires
        is_space(c),
    ensures
        lex(seq![c] + b) == lex(b),
{
    assert((seq![c] + b)[0] == c);
    lemma_lex_shift(seq![c], b, 0);
}

/// Space between two parts of a text cuts it there, whatever stands on
/// either side.
pub proof fn lemma_space_separates(a: Seq<char>, c: char, b: Seq<char>)
    requires
        is_space(c),
    ensures
        lex(a + seq![c] + b) == then(lex(a), lex(b)),
{
    let tail = seq![c] + b;
    assert(tail[0] == c);
    assert(a + seq![c] + b =~= a + tail);
    lemma_lex_concat(a, tail);
    lemma_leading_space(c, b);
}

/// Space changes nothing where it stands between tokens: not inside a
/// number, and not inside a name.
pub proof fn lemma_space_between_tokens(a: Seq<char>, c: char, b: Seq<char>)
    requires
        is_space(c),
        separate(a, b),
    ensures
        lex(a + seq![c] + b) == lex(a + b),
{
    lemma_space_separates(a, c, b);
    lemma_lex_concat(a, b);
}

} // verus!
