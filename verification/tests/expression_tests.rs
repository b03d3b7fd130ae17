use expression::error::EvalError;
use expression::evaluation::Environment;
use expression::expression::expr;
use expression::expression::Expression;
use expression::expression::Operator;
use expression::number::Literal;

/// The value of `expression`, with the machine's own arithmetic on 64-bit
/// floating-point numbers.
fn evaluate(expression: &Expression, variables: &Environment) -> Result<f64, EvalError> {
    let literal = |written: &Literal| -> u64 {
        let value: f64 = written.as_str().parse().unwrap();
        value.to_bits()
    };
    let apply = |operator: Operator, left: u64, right: u64| -> u64 {
        let a = f64::from_bits(left);
        let b = f64::from_bits(right);
        let value = match operator {
            Operator::Add => a + b,
            Operator::Subtract => a - b,
            Operator::Multiply => a * b,
            Operator::Divide => a / b,
            Operator::Power => a.powf(b),
        };
        value.to_bits()
    };
    expression
        .evaluate(variables)
        .complete(&literal, &apply)
        .map(f64::from_bits)
}

/// Parses `text` and evaluates it against `variables`.
fn eval(text: &str, variables: &Environment) -> Result<f64, EvalError> {
    evaluate(&Expression::parse(text).unwrap(), variables)
}

// Helper function to create variables map
fn create_vars() -> Environment {
    let mut vars = Environment::new();
    vars.set("x", 2.0f64.to_bits());
    vars.set("y", 3.0f64.to_bits());
    vars
}

#[test]
fn test_basic_operations() {
    let vars = create_vars();

    assert_eq!(eval("2 + 3", &vars).unwrap(), 5.0);
    assert_eq!(eval("5 - 3", &vars).unwrap(), 2.0);
    assert_eq!(eval("4 * 2", &vars).unwrap(), 8.0);
    assert_eq!(eval("8 / 2", &vars).unwrap(), 4.0);
    assert_eq!(eval("2 ^ 3", &vars).unwrap(), 8.0);
}

#[test]
fn test_variable_operations() {
    let vars = create_vars();

    assert_eq!(eval("x + y", &vars).unwrap(), 5.0);
    assert_eq!(eval("x * y", &vars).unwrap(), 6.0);
    assert_eq!(eval("y - x", &vars).unwrap(), 1.0);
    assert_eq!(eval("y / x", &vars).unwrap(), 1.5);
    assert_eq!(eval("x ^ 2", &vars).unwrap(), 4.0);
}

#[test]
fn test_complex_expressions() {
    let vars = create_vars();

    assert_eq!(eval("(x + 1) ^ 2", &vars).unwrap(), 9.0);
    assert_eq!(eval("2 * x + y", &vars).unwrap(), 7.0);
    assert_eq!(eval("(x + y) * 2", &vars).unwrap(), 10.0);
    assert_eq!(eval("x ^ 2 + y ^ 2", &vars).unwrap(), 13.0);
}

#[test]
fn test_operator_precedence() {
    let vars = create_vars();

    assert_eq!(eval("2 + 3 * 4", &vars).unwrap(), 14.0);
    assert_eq!(eval("(2 + 3) * 4", &vars).unwrap(), 20.0);
    assert_eq!(eval("2 ^ 2 * 3", &vars).unwrap(), 12.0);
    assert_eq!(eval("2 * 3 ^ 2", &vars).unwrap(), 18.0);
}

#[test]
fn test_error_handling() {
    let vars = create_vars();
    let empty_vars = Environment::new();

    // Division by zero
    assert!(eval("x / 0", &vars).is_err());
    assert_eq!(eval("x / 0", &vars), Err(EvalError::DivisionByZero));

    // Unknown variable
    assert!(eval("z + 1", &vars).is_err());
    assert_eq!(
        eval("z + 1", &vars),
        Err(EvalError::UnknownVariable("z".to_string()))
    );

    // Missing variable
    assert!(eval("x + y", &empty_vars).is_err());
    assert_eq!(
        eval("x + y", &empty_vars),
        Err(EvalError::UnknownVariable("x".to_string()))
    );
}

#[test]
fn test_whitespace_handling() {
    let vars = create_vars();

    assert_eq!(eval("x+y", &vars).unwrap(), 5.0);
    assert_eq!(eval("x + y", &vars).unwrap(), 5.0);
    assert_eq!(eval(" x  +  y ", &vars).unwrap(), 5.0);
}

#[test]
fn test_nested_expressions() {
    let vars = create_vars();

    assert_eq!(eval("((x + 1) * (y - 1))", &vars).unwrap(), 6.0);
    assert_eq!(eval("(x + y) * (x - y)", &vars).unwrap(), -5.0);
}

#[test]
fn test_builder_api() {
    let vars = create_vars();

    let expr = expr::power(
        expr::add(expr::variable("x"), expr::number(1.0f64.to_bits())),
        expr::number(2.0f64.to_bits()),
    );
    assert_eq!(evaluate(&expr, &vars).unwrap(), 9.0);
}

#[test]
fn test_floating_point_numbers() {
    let vars = create_vars();

    assert_eq!(eval("2.5 + 1.5", &vars).unwrap(), 4.0);
    assert_eq!(eval("3.14159 * 2", &vars).unwrap(), 6.28318);
}
