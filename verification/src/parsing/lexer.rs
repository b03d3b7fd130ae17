//! The tokenizer: one scan from left to right, one character of lookahead.

use vstd::prelude::*;
use vstd::string::*;
use crate::error::LexError;
use crate::number::char_is_number_char;
use crate::number::is_number_char;
use crate::number::is_number_literal;
use crate::number::Literal;
use crate::number::Number;
use crate::number::Numeral;
use crate::parsing::token::lexemes;
use crate::parsing::token::Lexeme;
use crate::parsing::token::Token;
use crate::text::characters;

verus! {

/// A character that separates tokens and is otherwise ignored: a space, a
/// tab, a carriage return or a line feed.
pub open spec fn is_space(c: char) -> bool {
    c == ' ' || c == '\t' || c == '\r' || c == '\n'
}

/// An ASCII letter.
pub open spec fn is_letter(c: char) -> bool {
    ('a' <= c && c <= 'z') || ('A' <= c && c <= 'Z')
}

/// The token that the single character `c` is, if it is one.
pub open spec fn symbol(c: char) -> Option<Lexeme> {
    if c == '+' {
        Some(Lexeme::Plus)
    } else if c == '-' {
        Some(Lexeme::Minus)
    } else if c == '*' {
        Some(Lexeme::Star)
    } else if c == '/' {
        Some(Lexeme::Slash)
    } else if c == '^' {
        Some(Lexeme::Caret)
    } else if c == '(' {
        Some(Lexeme::LParen)
    } else if c == ')' {
        Some(Lexeme::RParen)
    } else {
        None
    }
}

/// Where the run of number characters that starts at `i` ends: the first
/// position from `i` on that holds no number character, or the end of `s`.
pub open spec fn number_end(s: Seq<char>, i: int) -> int
    decreases s.len() - i,
{
    if 0 <= i < s.len() && is_number_char(s[i]) {
        number_end(s, i + 1)
    } else {
        i
    }
}

/// Where the run of letters that starts at `i` ends.
pub open spec fn word_end(s: Seq<char>, i: int) -> int
    decreases s.len() - i,
{
    if 0 <= i < s.len() && is_letter(s[i]) {
        word_end(s, i + 1)
    } else {
        i
    }
}

/// A run ends at or after its start, and within the text.
pub proof fn lemma_number_end_bounds(s: Seq<char>, i: int)
    requires
        0 <= i <= s.len(),
    ensures
        i <= number_end(s, i) <= s.len(),
        i < s.len() && is_number_char(s[i]) ==> i < number_end(s, i),
    decreases s.len() - i,
{
    if i < s.len() && is_number_char(s[i]) {
        lemma_number_end_bounds(s, i + 1);
    }
}

/// A run ends at or after its start, and within the text.
pub proof fn lemma_word_end_bounds(s: Seq<char>, i: int)
    requires
        0 <= i <= s.len(),
    ensures
        i <= word_end(s, i) <= s.len(),
        i < s.len() && is_letter(s[i]) ==> i < word_end(s, i),
    decreases s.len() - i,
{
    if i < s.len() && is_letter(s[i]) {
        lemma_word_end_bounds(s, i + 1);
    }
}

/// `first` put before the tokens of `rest`, or the error of `rest`.
pub open spec fn followed_by(first: Seq<Lexeme>, rest: Result<Seq<Lexeme>, LexError>) -> Result<
    Seq<Lexeme>,
    LexError,
> {
    match rest {
        Ok(tokens) => Ok(first + tokens),
        Err(e) => Err(e),
    }
}

/// The tokens of `s` from position `i` on, or the first error met on the way.
///
/// Spaces are skipped. A run of digits and decimal points is one number, as
/// it is written, and must be a well-formed literal. A run of letters is one variable. Each of
/// `+ - * / ^ ( )` is a token by itself. Any other character is an error.
pub open spec fn lex_from(s: Seq<char>, i: int) -> Result<Seq<Lexeme>, LexError>
    decreases s.len() - i,
{
    if i < 0 || i >= s.len() {
        Ok(Seq::empty())
    } else if is_space(s[i]) {
        lex_from(s, i + 1)
    } else if is_number_char(s[i]) {
        let j = number_end(s, i);
        let text = s.subrange(i, j);
        if is_number_literal(text) {
            proof {
                lemma_number_end_bounds(s, i);
            }
            followed_by(seq![Lexeme::Number(Numeral::Written(text))], lex_from(s, j))
        } else {
            Err(LexError::InvalidNumber)
        }
    } else if is_letter(s[i]) {
        let j = word_end(s, i);
        proof {
            lemma_word_end_bounds(s, i);
        }
        followed_by(seq![Lexeme::Variable(s.subrange(i, j))], lex_from(s, j))
    } else {
        match symbol(s[i]) {
            Some(token) => followed_by(seq![token], lex_from(s, i + 1)),
            None => Err(LexError::UnexpectedCharacter(s[i])),
        }
    }
}

/// The tokens of the text `s`, or the first error in it.
pub open spec fn lex(s: Seq<char>) -> Result<Seq<Lexeme>, LexError> {
    lex_from(s, 0)
}

/// Exec counterpart of [`is_space`].
fn char_is_space(c: char) -> (r: bool)
    ensures
        r == is_space(c),
{
    c == ' ' || c == '\t' || c == '\r' || c == '\n'
}

/// Exec counterpart of [`is_letter`].
fn char_is_letter(c: char) -> (r: bool)
    ensures
        r == is_letter(c),
{
    ('a' <= c && c <= 'z') || ('A' <= c && c <= 'Z')
}

/// Exec counterpart of [`symbol`].
fn char_symbol(c: char) -> (r: Option<Token>)
    ensures
        r matches Some(t) ==> symbol(c) == Some(t@),
        r is None ==> symbol(c) is None,
{
    if c == '+' {
        Some(Token::Plus)
    } else if c == '-' {
        Some(Token::Minus)
    } else if c == '*' {
        Some(Token::Star)
    } else if c == '/' {
        Some(Token::Slash)
    } else if c == '^' {
        Some(Token::Caret)
    } else if c == '(' {
        Some(Token::LParen)
    } else if c == ')' {
        Some(Token::RParen)
    } else {
        None
    }
}

/// The end of the run of number characters that starts at `i`.
fn scan_number(chars: &Vec<char>, i: usize) -> (j: usize)
    requires
        i <= chars.len(),
    ensures
        j == number_end(chars@, i as int),
        i <= j <= chars.len(),
{
    let mut j: usize = i;
    while j < chars.len() && char_is_number_char(chars[j])
        invariant
            i <= j <= chars.len(),
            number_end(chars@, i as int) == number_end(chars@, j as int),
        decreases chars.len() - j,
    {
        j = j + 1;
    }
    j
}

/// The end of the run of letters that starts at `i`.
fn scan_word(chars: &Vec<char>, i: usize) -> (j: usize)
    requires
        i <= chars.len(),
    ensures
        j == word_end(chars@, i as int),
        i <= j <= chars.len(),
{
    let mut j: usize = i;
    while j < chars.len() && char_is_letter(chars[j])
        invariant
            i <= j <= chars.len(),
            word_end(chars@, i as int) == word_end(chars@, j as int),
        decreases chars.len() - j,
    {
        j = j + 1;
    }
    j
}

/// Adding one token to the tokens read so far keeps the whole result.
proof fn lemma_token_appended(
    read: Seq<Token>,
    token: Token,
    rest: Result<Seq<Lexeme>, LexError>,
)
    ensures
        followed_by(lexemes(read), followed_by(seq![token@], rest)) == followed_by(
            lexemes(read.push(token)),
            rest,
        ),
{
    assert(lexemes(read.push(token)) =~= lexemes(read) + seq![token@]);
    if let Ok(tokens) = rest {
        assert(lexemes(read) + (seq![token@] + tokens) =~= lexemes(read.push(token)) + tokens);
    }
}

/// Splits `input` into its tokens.
///
/// The result is that of [`lex`]: the tokens in the order in which they stand
/// in the text, or the first error from the left, an ill-formed number or a
/// character that belongs to no token. There are no more tokens than the text
/// has characters.
pub fn tokenize(input: &str) -> (r: Result<Vec<Token>, LexError>)
    ensures
        r matches Ok(tokens) ==> lex(input@) == Ok::<Seq<Lexeme>, LexError>(lexemes(tokens@)),
        r matches Ok(tokens) ==> tokens.len() <= input@.len(),
        r matches Err(e) ==> lex(input@) == Err::<Seq<Lexeme>, LexError>(e),
{
    let chars = characters(input);
    let n: usize = chars.len();
    let mut tokens: Vec<Token> = Vec::new();
    let mut i: usize = 0;
    proof {
        if let Ok(all) = lex(input@) {
            assert(lexemes(tokens@) + all =~= all);
        }
    }
    while i < n
        invariant
            chars@ == input@,
            n == chars@.len(),
            i <= n,
            tokens.len() <= i,
            lex(input@) == followed_by(lexemes(tokens@), lex_from(input@, i as int)),
        decreases n - i,
    {
        let c = chars[i];
        if char_is_space(c) {
            i = i + 1;
        } else if char_is_number_char(c) {
            let j = scan_number(&chars, i);
            let text = input.substring_char(i, j);
            match Literal::new(text) {
                Some(literal) => {
                    let token = Token::Number(Number::Written(literal));
                    proof {
                        lemma_number_end_bounds(input@, i as int);
                        lemma_token_appended(tokens@, token, lex_from(input@, j as int));
                    }
                    tokens.push(token);
                    i = j;
                },
                None => {
                    return Err(LexError::InvalidNumber);
                },
            }
        } else if char_is_letter(c) {
            let j = scan_word(&chars, i);
            let token = Token::Variable(input.substring_char(i, j).to_owned());
            proof {
                lemma_word_end_bounds(input@, i as int);
                lemma_token_appended(tokens@, token, lex_from(input@, j as int));
            }
            tokens.push(token);
            i = j;
        } else {
            match char_symbol(c) {
                Some(token) => {
                    proof {
                        lemma_token_appended(tokens@, token, lex_from(input@, i + 1));
                    }
                    tokens.push(token);
                    i = i + 1;
                },
                None => {
                    return Err(LexError::UnexpectedCharacter(c));
                },
            }
        }
    }
    proof {
        assert(lexemes(tokens@) + Seq::<Lexeme>::empty() =~= lexemes(tokens@));
    }
    Ok(tokens)
}

} // verus!
