//! What an expression is worth, for any arithmetic.
//!
//! Values are 64-bit binary floating-point numbers, held as their bit
//! patterns. No operation on them is carried out here: what a literal is worth
//! and what an operator yields is for the caller's arithmetic to say, and every
//! statement here holds whatever it says.

use vstd::prelude::*;
use crate::error::EvalFailure;
use crate::expression::Operator;
use crate::expression::Term;
use crate::number::Numeral;

verus! {

/// An arithmetic: the value of each number literal, and the result of each
/// operator on each pair of values.
pub struct Arithmetic {
    pub literal: spec_fn(Seq<char>) -> u64,
    pub apply: spec_fn(Operator, u64, u64) -> u64,
}

/// Whether `bits` is a zero: positive zero, with no bit set, or negative zero,
/// with the sign bit alone. These are the values that compare equal to `0.0`.
pub open spec fn is_zero(bits: u64) -> bool {
    bits == 0 || bits == 0x8000_0000_0000_0000
}

/// What `operator` gives on `left` and `right`: `DivisionByZero` for a
/// division by a zero, else what the arithmetic yields.
pub open spec fn combine(operator: Operator, left: u64, right: u64, arithmetic: Arithmetic) -> Result<
    u64,
    EvalFailure,
> {
    if operator == Operator::Divide && is_zero(right) {
        Err(EvalFailure::DivisionByZero)
    } else {
        Ok((arithmetic.apply)(operator, left, right))
    }
}

/// The value of `term` in `environment`.
///
/// A number that is written is worth what the arithmetic says of its
/// literal, and a number that is a value is worth that value. A variable is
/// worth what the environment holds for it, and is `UnknownVariable` where it
/// holds nothing. An operator's left operand is evaluated first and its
/// failure is the result; then the right operand, likewise; then the two
/// values are combined.
pub open spec fn value(term: Term, environment: Map<Seq<char>, u64>, arithmetic: Arithmetic) -> Result<
    u64,
    EvalFailure,
>
    decreases term,
{
    match term {
        Term::Number(Numeral::Written(text)) => Ok((arithmetic.literal)(text)),
        Term::Number(Numeral::Value(bits)) => Ok(bits),
        Term::Variable(name) => if environment.contains_key(name) {
            Ok(environment[name])
        } else {
            Err(EvalFailure::UnknownVariable(name))
        },
        Term::Binary(operator, left, right) => match value(*left, environment, arithmetic) {
            Err(failure) => Err(failure),
            Ok(x) => match value(*right, environment, arithmetic) {
                Err(failure) => Err(failure),
                Ok(y) => combine(operator, x, y, arithmetic),
            },
        },
    }
}

/// The variables that `term` names.
pub open spec fn free_variables(term: Term) -> Set<Seq<char>>
    decreases term,
{
    match term {
        Term::Number(_) => Set::empty(),
        Term::Variable(name) => set![name],
        Term::Binary(_, left, right) => free_variables(*left).union(free_variables(*right)),
    }
}

/// The value of `term` as one computes it by hand, node by node from the
/// leaves up, with no thought for failure.
pub open spec fn by_hand(term: Term, environment: Map<Seq<char>, u64>, arithmetic: Arithmetic) -> u64
    decreases term,
{
    match term {
        Term::Number(Numeral::Written(text)) => (arithmetic.literal)(text),
        Term::Number(Numeral::Value(bits)) => bits,
        Term::Variable(name) => environment[name],
        Term::Binary(operator, left, right) => (arithmetic.apply)(
            operator,
            by_hand(*left, environment, arithmetic),
            by_hand(*right, environment, arithmetic),
        ),
    }
}

/// Whether some division in `term` has a divisor that is a zero.
pub open spec fn divides_by_zero(
    term: Term,
    environment: Map<Seq<char>, u64>,
    arithmetic: Arithmetic,
) -> bool
    decreases term,
{
    match term {
        Term::Binary(operator, left, right) => {
            ||| divides_by_zero(*left, environment, arithmetic)
            ||| divides_by_zero(*right, environment, arithmetic)
            ||| (operator == Operator::Divide && is_zero(by_hand(*right, environment, arithmetic)))
        },
        _ => false,
    }
}

/// In an environment that holds every variable of an expression, the value
/// of the expression is what one computes by hand with the same arithmetic,
/// unless a division in it has a zero for its divisor: then, and only then,
/// it is `DivisionByZero`.
pub proof fn lemma_value_by_hand(
    term: Term,
    environment: Map<Seq<char>, u64>,
    arithmetic: Arithmetic,
)
    requires
        free_variables(term).subset_of(environment.dom()),
    ensures
        value(term, environment, arithmetic) == if divides_by_zero(term, environment, arithmetic) {
            Err::<u64, EvalFailure>(EvalFailure::DivisionByZero)
        } else {
            Ok::<u64, EvalFailure>(by_hand(term, environment, arithmetic))
        },
    decreases term,
{
    match term {
        Term::Binary(operator, left, right) => {
            lemma_value_by_hand(*left, environment, arithmetic);
            lemma_value_by_hand(*right, environment, arithmetic);
        },
        Term::Variable(name) => {
            assert(free_variables(term).contains(name));
        },
        _ => {},
    }
}

/// The value of an expression is `UnknownVariable` exactly where it names a
/// variable that the environment does not hold and evaluation gets to it;
/// the variable named in the failure is one of the expression's, and is
/// missing.
pub proof fn lemma_unknown_variable_is_missing(
    term: Term,
    environment: Map<Seq<char>, u64>,
    arithmetic: Arithmetic,
)
    ensures
        value(term, environment, arithmetic) matches Err(EvalFailure::UnknownVariable(name))
            ==> free_variables(term).contains(name) && !environment.contains_key(name),
    decreases term,
{
    match term {
        Term::Binary(operator, left, right) => {
            lemma_unknown_variable_is_missing(*left, environment, arithmetic);
            lemma_unknown_variable_is_missing(*right, environment, arithmetic);
        },
        _ => {},
    }
}

} // verus!
