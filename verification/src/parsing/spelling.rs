//! Writing tokens out as text, and the proof that reading the text gives the
//! tokens back: every tree can be written as a text that parses to it.

use vstd::prelude::*;
use crate::error::Error;
use crate::error::LexError;
use crate::expression::parse_text;
use crate::expression::Term;
use crate::number::count_digits;
use crate::number::is_number_char;
use crate::number::is_number_literal;
use crate::number::Numeral;
use crate::parsing::lexer::is_letter;
use crate::parsing::lexer::is_space;
use crate::parsing::lexer::lemma_number_end_bounds;
use crate::parsing::lexer::lemma_word_end_bounds;
use crate::parsing::lexer::lex;
use crate::parsing::lexer::lex_from;
use crate::parsing::lexer::number_end;
use crate::parsing::lexer::word_end;
use crate::parsing::spacing::lemma_space_separates;
use crate::parsing::syntax::lemma_render_parses;
use crate::parsing::syntax::lemma_written_for;
use crate::parsing::syntax::render;
use crate::parsing::syntax::written_for;
use crate::parsing::syntax::Syntax;
use crate::parsing::token::Lexeme;

verus! {

/// Whether `name` can be the name of a variable in a text: one letter or more,
/// and letters only.
pub open spec fn is_name(name: Seq<char>) -> bool {
    &&& name.len() >= 1
    &&& forall|i: int| 0 <= i < name.len() ==> is_letter(#[trigger] name[i])
}

/// Whether `token` can come out of a text: its number is written and is a
/// literal, or its name is a name.
pub open spec fn is_spellable(token: Lexeme) -> bool {
    match token {
        Lexeme::Number(Numeral::Written(text)) => is_number_literal(text),
        Lexeme::Number(Numeral::Value(_)) => false,
        Lexeme::Variable(name) => is_name(name),
        _ => true,
    }
}

/// The text of one token; none for a number that is a value.
pub open spec fn spell_token(token: Lexeme) -> Seq<char> {
    match token {
        Lexeme::Number(Numeral::Written(text)) => text,
        Lexeme::Number(Numeral::Value(_)) => Seq::empty(),
        Lexeme::Variable(name) => name,
        Lexeme::Plus => seq!['+'],
        Lexeme::Minus => seq!['-'],
        Lexeme::Star => seq!['*'],
        Lexeme::Slash => seq!['/'],
        Lexeme::Caret => seq!['^'],
        Lexeme::LParen => seq!['('],
        Lexeme::RParen => seq![')'],
    }
}

/// The text of `tokens`: each token, and a space behind it.
pub open spec fn spell(tokens: Seq<Lexeme>) -> Seq<char>
    decreases tokens.len(),
{
    if tokens.len() == 0 {
        Seq::empty()
    } else {
        spell_token(tokens[0]) + seq![' '] + spell(tokens.drop_first())
    }
}

/// Whether every leaf of `term` can come out of a text.
pub open spec fn is_writable(term: Term) -> bool
    decreases term,
{
    match term {
        Term::Number(Numeral::Written(text)) => is_number_literal(text),
        Term::Number(Numeral::Value(_)) => false,
        Term::Variable(name) => is_name(name),
        Term::Binary(_, left, right) => is_writable(*left) && is_writable(*right),
    }
}

/// A run of number characters that fills the text to its end ends there.
proof fn lemma_number_run(s: Seq<char>, i: int)
    requires
        0 <= i <= s.len(),
        forall|k: int| i <= k < s.len() ==> is_number_char(#[trigger] s[k]),
    ensures
        number_end(s, i) == s.len(),
    decreases s.len() - i,
{
    if i < s.len() {
        lemma_number_run(s, i + 1);
    }
}

/// A run of letters that fills the text to its end ends there.
proof fn lemma_word_run(s: Seq<char>, i: int)
    requires
        0 <= i <= s.len(),
        forall|k: int| i <= k < s.len() ==> is_letter(#[trigger] s[k]),
    ensures
        word_end(s, i) == s.len(),
    decreases s.len() - i,
{
    if i < s.len() {
        lemma_word_run(s, i + 1);
    }
}

/// Every character of a run of letters is a letter.
proof fn lemma_word_is_letters(s: Seq<char>, i: int, k: int)
    requires
        0 <= i <= k < word_end(s, i),
    ensures
        k < s.len(),
        is_letter(s[k]),
    decreases s.len() - i,
{
    if i < s.len() && is_letter(s[i]) {
        if i < k {
            lemma_word_is_letters(s, i + 1, k);
        }
    }
}

/// Every token that is read from a text can come out of a text: its number
/// is a literal, or its name is a name.
pub proof fn lemma_lexed_is_spellable(s: Seq<char>, i: int, k: int)
    requires
        lex_from(s, i) matches Ok(tokens) && 0 <= k < tokens.len(),
    ensures
        is_spellable(lex_from(s, i).unwrap()[k]),
    decreases s.len() - i,
{
    if 0 <= i < s.len() {
        if is_space(s[i]) {
            lemma_lexed_is_spellable(s, i + 1, k);
        } else if is_number_char(s[i]) {
            lemma_number_end_bounds(s, i);
            if k > 0 {
                lemma_lexed_is_spellable(s, number_end(s, i), k - 1);
            }
        } else if is_letter(s[i]) {
            lemma_word_end_bounds(s, i);
            let j = word_end(s, i);
            if k > 0 {
                lemma_lexed_is_spellable(s, j, k - 1);
            } else {
                let name = s.subrange(i, j);
                assert forall|n: int| 0 <= n < name.len() implies is_letter(#[trigger] name[n]) by {
                    lemma_word_is_letters(s, i, i + n);
                }
            }
        } else if k > 0 {
            lemma_lexed_is_spellable(s, i + 1, k - 1);
        }
    }
}

/// The text of one token is read as that token.
pub proof fn lemma_lex_token(token: Lexeme)
    requires
        is_spellable(token),
    ensures
        lex(spell_token(token)) == Ok::<Seq<Lexeme>, LexError>(seq![token]),
{
    let s = spell_token(token);
    match token {
        Lexeme::Number(Numeral::Written(text)) => {
            assert(text.len() >= 1) by {
                if text.len() == 0 {
                    assert(count_digits(text) == 0);
                }
            }
            assert(is_number_char(text[0]));
            lemma_number_run(text, 0);
            assert(text.subrange(0, text.len() as int) =~= text);
            assert(lex_from(text, text.len() as int) == Ok::<Seq<Lexeme>, LexError>(Seq::empty()));
            assert(seq![token] + Seq::<Lexeme>::empty() =~= seq![token]);
        },
        Lexeme::Variable(name) => {
            assert(is_letter(name[0]));
            lemma_word_run(name, 0);
            assert(name.subrange(0, name.len() as int) =~= name);
            assert(lex_from(name, name.len() as int) == Ok::<Seq<Lexeme>, LexError>(Seq::empty()));
            assert(seq![token] + Seq::<Lexeme>::empty() =~= seq![token]);
        },
        _ => {
            assert(s.len() == 1);
            assert(lex_from(s, 1) == Ok::<Seq<Lexeme>, LexError>(Seq::empty()));
            assert(seq![token] + Seq::<Lexeme>::empty() =~= seq![token]);
        },
    }
}

/// The text of a token sequence is read as that sequence.
pub proof fn lemma_lex_spell(tokens: Seq<Lexeme>)
    requires
        forall|i: int| 0 <= i < tokens.len() ==> is_spellable(#[trigger] tokens[i]),
    ensures
        lex(spell(tokens)) == Ok::<Seq<Lexeme>, LexError>(tokens),
    decreases tokens.len(),
{
    if tokens.len() > 0 {
        let rest = tokens.drop_first();
        assert forall|i: int| 0 <= i < rest.len() implies is_spellable(#[trigger] rest[i]) by {
            assert(rest[i] == tokens[i + 1]);
        }
        lemma_lex_spell(rest);
        lemma_lex_token(tokens[0]);
        lemma_space_separates(spell_token(tokens[0]), ' ', spell(rest));
        assert(seq![tokens[0]] + rest =~= tokens);
    } else {
        assert(tokens =~= Seq::<Lexeme>::empty());
    }
}

/// What is written from leaves that can come out of a text is made of tokens
/// that can.
proof fn lemma_written_is_spellable(written: Syntax, i: int)
    requires
        is_writable(written.term()),
        0 <= i < written.tokens().len(),
    ensures
        is_spellable(written.tokens()[i]),
    decreases written,
{
    match written {
        Syntax::Binary(operator, left, right) => {
            let n = left.tokens().len();
            if i < n {
                lemma_written_is_spellable(*left, i);
            } else if i > n {
                lemma_written_is_spellable(*right, i - n - 1);
            }
        },
        Syntax::Group(inner) => {
            if 0 < i <= inner.tokens().len() {
                lemma_written_is_spellable(*inner, i - 1);
            }
        },
        _ => {},
    }
}

/// Every tree whose leaves can come out of a text is the tree of a text: the
/// one that spells its tokens, with parentheses where they are needed.
pub proof fn lemma_spelled_term_parses(term: Term)
    requires
        is_writable(term),
    ensures
        parse_text(spell(render(term))) == Ok::<Term, Error>(term),
{
    let written = written_for(term, 3);
    lemma_written_for(term, 3);
    assert forall|i: int| 0 <= i < render(term).len() implies is_spellable(
        #[trigger] render(term)[i],
    ) by {
        lemma_written_is_spellable(written, i);
    }
    lemma_lex_spell(render(term));
    lemma_render_parses(term);
}

} // verus!
