//! Building expressions node by node, without going through text.

use vstd::prelude::*;
use vstd::string::*;
use crate::expression::Expression;
use crate::expression::Operator;
use crate::expression::Term;
use crate::number::Number;
use crate::number::Numeral;

verus! {

/// The leaf that holds the value with the bits `n`: any 64-bit binary
/// floating-point number.
pub fn number(n: u64) -> (r: Expression)
    ensures
        r@ == Term::Number(Numeral::Value(n)),
{
    Expression::Number(Number::Value(n))
}

/// The leaf that names the variable `name`.
pub fn variable(name: &str) -> (r: Expression)
    ensures
        r@ == Term::Variable(name@),
{
    Expression::Variable(name.to_owned())
}

/// `a + b`
pub fn add(a: Expression, b: Expression) -> (r: Expression)
    ensures
        r@ == Term::Binary(Operator::Add, Box::new(a@), Box::new(b@)),
{
    Expression::Add(Box::new(a), Box::new(b))
}

/// `a - b`
pub fn subtract(a: Expression, b: Expression) -> (r: Expression)
    ensures
        r@ == Term::Binary(Operator::Subtract, Box::new(a@), Box::new(b@)),
{
    Expression::Subtract(Box::new(a), Box::new(b))
}

/// `a * b`
pub fn multiply(a: Expression, b: Expression) -> (r: Expression)
    ensures
        r@ == Term::Binary(Operator::Multiply, Box::new(a@), Box::new(b@)),
{
    Expression::Multiply(Box::new(a), Box::new(b))
}

/// `a / b`
pub fn divide(a: Expression, b: Expression) -> (r: Expression)
    ensures
        r@ == Term::Binary(Operator::Divide, Box::new(a@), Box::new(b@)),
{
    Expression::Divide(Box::new(a), Box::new(b))
}

/// `base ^ exponent`
pub fn power(base: Expression, exponent: Expression) -> (r: Expression)
    ensures
        r@ == Term::Binary(Operator::Power, Box::new(base@), Box::new(exponent@)),
{
    Expression::Power(Box::new(base), Box::new(exponent))
}

} // verus!
