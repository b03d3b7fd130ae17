//! Numbers: decimal literals, kept as the text that was written, and values,
//! kept as bit patterns.

use vstd::prelude::*;
use vstd::string::*;
use crate::text::characters;

verus! {

/// An ASCII digit.
pub open spec fn is_digit(c: char) -> bool {
    '0' <= c && c <= '9'
}

/// A character that may stand in a number literal: a digit or the decimal point.
pub open spec fn is_number_char(c: char) -> bool {
    is_digit(c) || c == '.'
}

/// How many digits `s` holds.
pub open spec fn count_digits(s: Seq<char>) -> nat
    decreases s.len(),
{
    if s.len() == 0 {
        0
    } else {
        count_digits(s.drop_last()) + if is_digit(s.last()) { 1nat } else { 0nat }
    }
}

/// How many decimal points `s` holds.
pub open spec fn count_points(s: Seq<char>) -> nat
    decreases s.len(),
{
    if s.len() == 0 {
        0
    } else {
        count_points(s.drop_last()) + if s.last() == '.' { 1nat } else { 0nat }
    }
}

/// A well-formed literal: digits around at most one decimal point, with at
/// least one digit. `"12"`, `"1."`, `".5"` and `"3.25"` are literals; `""`,
/// `"."` and `"1.2.3"` are not.
pub open spec fn is_number_literal(s: Seq<char>) -> bool {
    &&& forall|i: int| 0 <= i < s.len() ==> is_number_char(#[trigger] s[i])
    &&& count_points(s) <= 1
    &&& count_digits(s) >= 1
}

/// Exec counterpart of [`is_digit`].
pub fn char_is_digit(c: char) -> (r: bool)
    ensures
        r == is_digit(c),
{
    '0' <= c && c <= '9'
}

/// Exec counterpart of [`is_number_char`].
pub fn char_is_number_char(c: char) -> (r: bool)
    ensures
        r == is_number_char(c),
{
    char_is_digit(c) || c == '.'
}

/// Decides whether `text` is a well-formed number literal.
pub fn check_number_literal(text: &Vec<char>) -> (r: bool)
    ensures
        r == is_number_literal(text@),
{
    let n: usize = text.len();
    let mut i: usize = 0;
    let mut digits: usize = 0;
    let mut points: usize = 0;
    while i < n
        invariant
            n == text@.len(),
            i <= n,
            digits == count_digits(text@.take(i as int)),
            points == count_points(text@.take(i as int)),
            digits <= i,
            points <= i,
            forall|k: int| 0 <= k < i ==> is_number_char(#[trigger] text@[k]),
        decreases n - i,
    {
        let c = text[i];
        if !char_is_number_char(c) {
            return false;
        }
        proof {
            assert(text@.take(i + 1).drop_last() =~= text@.take(i as int));
        }
        if c == '.' {
            points = points + 1;
        } else {
            digits = digits + 1;
        }
        i = i + 1;
    }
    proof {
        assert(text@.take(n as int) =~= text@);
    }
    points <= 1 && digits >= 1
}

/// A number literal as it was written: digits around at most one decimal
/// point. The text is kept; what binary value it stands for is for the
/// arithmetic that evaluates it to say.
#[derive(Debug, PartialEq, Eq)]
pub struct Literal {
    text: String,
}

impl View for Literal {
    type V = Seq<char>;

    closed spec fn view(&self) -> Seq<char> {
        self.text@
    }
}

impl Clone for Literal {
    fn clone(&self) -> (r: Self)
        ensures
            r@ == self@,
    {
        proof {
            use_type_invariant(self);
        }
        Literal { text: self.text.clone() }
    }
}

impl Literal {
    #[verifier::type_invariant]
    spec fn well_formed(self) -> bool {
        is_number_literal(self.text@)
    }

    /// The literal `text`, or `None` where `text` is not a well-formed literal.
    pub fn new(text: &str) -> (r: Option<Literal>)
        ensures
            r is Some <==> is_number_literal(text@),
            r matches Some(literal) ==> literal@ == text@,
    {
        if check_number_literal(&characters(text)) {
            Some(Literal { text: text.to_owned() })
        } else {
            None
        }
    }

    /// The text of the literal, which is always well formed.
    pub fn as_str(&self) -> (r: &str)
        ensures
            r@ == self@,
            is_number_literal(r@),
    {
        proof {
            use_type_invariant(self);
        }
        self.text.as_str()
    }
}

/// A number in an expression: one that was written in a text, or a value.
///
/// A value is a 64-bit binary floating-point number, held as its bit
/// pattern, so that every such number can stand in an expression: negative
/// ones, the infinities and those that are not a number as well. Two numbers
/// are equal where they are of the same kind and hold the same text or the
/// same bits.
#[derive(Debug, PartialEq, Eq)]
pub enum Number {
    /// A literal, as a text holds it.
    Written(Literal),
    /// A value, by its bits.
    Value(u64),
}

/// The view of a [`Number`], with the literal's text as a sequence.
pub enum Numeral {
    Written(Seq<char>),
    Value(u64),
}

impl View for Number {
    type V = Numeral;

    open spec fn view(&self) -> Numeral {
        match self {
            Number::Written(literal) => Numeral::Written(literal@),
            Number::Value(bits) => Numeral::Value(*bits),
        }
    }
}

impl Clone for Number {
    fn clone(&self) -> (r: Self)
        ensures
            r@ == self@,
    {
        match self {
            Number::Written(literal) => Number::Written(literal.clone()),
            Number::Value(bits) => Number::Value(*bits),
        }
    }
}

} // verus!
