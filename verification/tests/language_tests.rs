use expression::error::Error;
use expression::error::LexError;
use expression::error::ParseError;
use expression::expression::expr;
use expression::expression::Expression;
use expression::expression::Operator;
use expression::number::Literal;
use expression::number::Number;
use expression::parsing::tokenize;
use expression::parsing::Parser;
use expression::parsing::Token;

fn written(text: &str) -> Number {
    Number::Written(Literal::new(text).unwrap())
}

fn num(text: &str) -> Expression {
    Expression::Number(written(text))
}

fn var(name: &str) -> Expression {
    Expression::Variable(name.to_string())
}

fn node(operator: Operator, left: Expression, right: Expression) -> Expression {
    Expression::binary(operator, left, right)
}

#[test]
fn number_literals_are_what_the_float_parser_accepts() {
    let texts = [
        "", ".", "..", "0", "7", "42", "007", "1.", ".5", "1.5", "3.14159", "1.2.3", "1..2",
        ".1.", "..1", "1..", "123456789012345678901234567890", "0.000000000000000000001",
    ];
    for text in texts {
        assert_eq!(
            Literal::new(text).is_some(),
            text.parse::<f64>().is_ok(),
            "{:?}",
            text
        );
    }
}

#[test]
fn number_literals_hold_digits_and_points_only() {
    for text in ["+1", "-1", "1e5", "1E5", "inf", "nan", "1 ", " 1", "1_000", "0x10", "١"] {
        assert!(Literal::new(text).is_none(), "{:?}", text);
    }
}

#[test]
fn numbers_are_equal_by_kind_and_content() {
    assert_eq!(written("1.0"), written("1.0"));
    assert_ne!(written("1.0"), written("1"));
    assert_eq!(Number::Value(7), Number::Value(7));
    assert_ne!(Number::Value(7), Number::Value(8));
    assert_ne!(written("1.0"), Number::Value(1.0f64.to_bits()));
    assert_eq!(written("2.5").clone(), written("2.5"));
    assert_eq!(Number::Value(9).clone(), Number::Value(9));
}

#[test]
fn number_literal_keeps_its_text() {
    let n = Literal::new("2.50").unwrap();
    assert_eq!(n.as_str(), "2.50");
    assert_eq!(n.clone(), n);
    assert_ne!(n, Literal::new("2.5").unwrap());
}

#[test]
fn tokenize_empty_and_blank_text() {
    assert_eq!(tokenize(""), Ok(vec![]));
    assert_eq!(tokenize("   "), Ok(vec![]));
    assert_eq!(tokenize(" \t\r\n "), Ok(vec![]));
}

#[test]
fn tokenize_skips_tabs_and_carriage_returns() {
    assert_eq!(tokenize("x\t+\ry"), tokenize("x+y"));
    assert_eq!(tokenize("\t\tx + y\r"), tokenize("x+y"));
}

#[test]
fn tokenize_skips_line_feeds() {
    assert_eq!(tokenize("x\n+ y"), tokenize("x+y"));
    assert_eq!(tokenize("x +\r\n y\n"), tokenize("x+y"));
}

#[test]
fn tokenize_number_forms() {
    assert_eq!(
        tokenize("1. .5 10"),
        Ok(vec![
            Token::Number(written("1.")),
            Token::Number(written(".5")),
            Token::Number(written("10")),
        ])
    );
}

#[test]
fn tokenize_invalid_numbers() {
    assert_eq!(tokenize("1.2.3"), Err(LexError::InvalidNumber));
    assert_eq!(tokenize("."), Err(LexError::InvalidNumber));
    assert_eq!(tokenize("x + .."), Err(LexError::InvalidNumber));
    assert_eq!(tokenize("3..14"), Err(LexError::InvalidNumber));
}

#[test]
fn tokenize_reports_the_first_error_from_the_left() {
    assert_eq!(tokenize("1.2.3 @"), Err(LexError::InvalidNumber));
    assert_eq!(tokenize("@ 1.2.3"), Err(LexError::UnexpectedCharacter('@')));
    assert_eq!(tokenize("x # $"), Err(LexError::UnexpectedCharacter('#')));
}

#[test]
fn tokenize_names_the_offending_character() {
    assert_eq!(tokenize("a_b"), Err(LexError::UnexpectedCharacter('_')));
    assert_eq!(tokenize("caf\u{e9}"), Err(LexError::UnexpectedCharacter('\u{e9}')));
    assert_eq!(tokenize("2 = 2"), Err(LexError::UnexpectedCharacter('=')));
    assert_eq!(tokenize("x, y"), Err(LexError::UnexpectedCharacter(',')));
}

#[test]
fn tokenize_splits_letters_from_digits() {
    assert_eq!(
        tokenize("x1y"),
        Ok(vec![
            Token::Variable("x".to_string()),
            Token::Number(written("1")),
            Token::Variable("y".to_string()),
        ])
    );
    assert_eq!(
        tokenize("2x"),
        Ok(vec![
            Token::Number(written("2")),
            Token::Variable("x".to_string()),
        ])
    );
}

#[test]
fn tokenize_keeps_runs_together() {
    assert_eq!(
        tokenize("Alpha beta"),
        Ok(vec![
            Token::Variable("Alpha".to_string()),
            Token::Variable("beta".to_string()),
        ])
    );
    assert_ne!(tokenize("x y"), tokenize("xy"));
    assert_ne!(tokenize("1 2"), tokenize("12"));
}

#[test]
fn tokenize_has_no_signs_in_numbers() {
    assert_eq!(
        tokenize("-1"),
        Ok(vec![Token::Minus, Token::Number(written("1"))])
    );
}

#[test]
fn parse_multiplication_before_addition() {
    assert_eq!(
        Expression::parse("2 + 3 * 4"),
        Ok(node(
            Operator::Add,
            num("2"),
            node(Operator::Multiply, num("3"), num("4"))
        ))
    );
    assert_eq!(
        Expression::parse("2 * 3 + 4"),
        Ok(node(
            Operator::Add,
            node(Operator::Multiply, num("2"), num("3")),
            num("4")
        ))
    );
}

#[test]
fn parse_power_before_multiplication() {
    assert_eq!(
        Expression::parse("2 * 3 ^ 2"),
        Ok(node(
            Operator::Multiply,
            num("2"),
            node(Operator::Power, num("3"), num("2"))
        ))
    );
    assert_eq!(
        Expression::parse("2 ^ 2 * 3"),
        Ok(node(
            Operator::Multiply,
            node(Operator::Power, num("2"), num("2")),
            num("3")
        ))
    );
}

#[test]
fn parse_parentheses_override_precedence() {
    assert_eq!(
        Expression::parse("(2 + 3) * 4"),
        Ok(node(
            Operator::Multiply,
            node(Operator::Add, num("2"), num("3")),
            num("4")
        ))
    );
    assert_eq!(
        Expression::parse("2 ^ (3 ^ 2)"),
        Ok(node(
            Operator::Power,
            num("2"),
            node(Operator::Power, num("3"), num("2"))
        ))
    );
    assert_eq!(Expression::parse("((x))"), Ok(var("x")));
}

#[test]
fn parse_groups_from_the_left() {
    assert_eq!(
        Expression::parse("a - b - c"),
        Ok(node(
            Operator::Subtract,
            node(Operator::Subtract, var("a"), var("b")),
            var("c")
        ))
    );
    assert_eq!(
        Expression::parse("a / b * c"),
        Ok(node(
            Operator::Multiply,
            node(Operator::Divide, var("a"), var("b")),
            var("c")
        ))
    );
    assert_eq!(
        Expression::parse("a - b + c"),
        Ok(node(
            Operator::Add,
            node(Operator::Subtract, var("a"), var("b")),
            var("c")
        ))
    );
}

#[test]
fn parse_power_groups_from_the_left() {
    assert_eq!(
        Expression::parse("2 ^ 3 ^ 2"),
        Ok(node(
            Operator::Power,
            node(Operator::Power, num("2"), num("3")),
            num("2")
        ))
    );
}

#[test]
fn parse_missing_closing_parenthesis() {
    assert_eq!(
        Expression::parse("(2 + 3"),
        Err(Error::Parse(ParseError::ExpectedClosingParenthesis))
    );
    assert_eq!(
        Expression::parse("(2 + 3 4"),
        Err(Error::Parse(ParseError::ExpectedClosingParenthesis))
    );
    assert_eq!(
        Expression::parse("((x)"),
        Err(Error::Parse(ParseError::ExpectedClosingParenthesis))
    );
}

#[test]
fn parse_has_no_unary_sign() {
    assert!(Expression::parse("+ 2").is_err());
    assert_eq!(
        Expression::parse("+ 2"),
        Err(Error::Parse(ParseError::UnexpectedToken))
    );
    assert_eq!(
        Expression::parse("-x"),
        Err(Error::Parse(ParseError::UnexpectedToken))
    );
    assert_eq!(
        Expression::parse("2 * -3"),
        Err(Error::Parse(ParseError::UnexpectedToken))
    );
}

#[test]
fn parse_unexpected_tokens() {
    assert_eq!(
        Expression::parse(") 2"),
        Err(Error::Parse(ParseError::UnexpectedToken))
    );
    assert_eq!(
        Expression::parse("()"),
        Err(Error::Parse(ParseError::UnexpectedToken))
    );
    assert_eq!(
        Expression::parse("2 + * 3"),
        Err(Error::Parse(ParseError::UnexpectedToken))
    );
}

#[test]
fn parse_end_of_input() {
    assert_eq!(
        Expression::parse(""),
        Err(Error::Parse(ParseError::UnexpectedEndOfInput))
    );
    assert_eq!(
        Expression::parse("2 +"),
        Err(Error::Parse(ParseError::UnexpectedEndOfInput))
    );
    assert_eq!(
        Expression::parse("2 ^"),
        Err(Error::Parse(ParseError::UnexpectedEndOfInput))
    );
    assert_eq!(
        Expression::parse("("),
        Err(Error::Parse(ParseError::UnexpectedEndOfInput))
    );
}

#[test]
fn parse_rejects_tokens_left_over() {
    assert_eq!(
        Expression::parse("2 3"),
        Err(Error::Parse(ParseError::UnexpectedToken))
    );
    assert_eq!(
        Expression::parse("2 )"),
        Err(Error::Parse(ParseError::UnexpectedToken))
    );
    assert_eq!(
        Expression::parse("x y"),
        Err(Error::Parse(ParseError::UnexpectedToken))
    );
    assert_eq!(
        Expression::parse("(x) (y)"),
        Err(Error::Parse(ParseError::UnexpectedToken))
    );
}

#[test]
fn parse_passes_lexical_errors_on() {
    assert_eq!(
        Expression::parse("2 $ 3"),
        Err(Error::Lex(LexError::UnexpectedCharacter('$')))
    );
    assert_eq!(
        Expression::parse("1.2.3 +"),
        Err(Error::Lex(LexError::InvalidNumber))
    );
}

#[test]
fn parser_reads_one_expression_and_leaves_the_rest() {
    let mut parser = Parser::new(tokenize("2 3").unwrap());
    assert!(!parser.is_finished());
    assert_eq!(parser.parse_expression(), Ok(num("2")));
    assert!(!parser.is_finished());
    assert_eq!(parser.parse_expression(), Ok(num("3")));
    assert!(parser.is_finished());
    assert_eq!(
        parser.parse_expression(),
        Err(ParseError::UnexpectedEndOfInput)
    );
    assert!(parser.is_finished());
    assert_eq!(
        parser.parse_expression(),
        Err(ParseError::UnexpectedEndOfInput)
    );
}

#[test]
fn parser_without_tokens_is_finished_and_fails() {
    let mut parser = Parser::new(vec![]);
    assert!(parser.is_finished());
    assert_eq!(
        parser.parse_expression(),
        Err(ParseError::UnexpectedEndOfInput)
    );
    assert!(parser.is_finished());
    assert_eq!(
        parser.parse_expression(),
        Err(ParseError::UnexpectedEndOfInput)
    );
    assert!(parser.is_finished());
}

#[test]
fn parser_reads_values_and_literals_alike() {
    let tokens = vec![
        Token::Number(Number::Value((-1.0f64).to_bits())),
        Token::Caret,
        Token::Number(written("0.5")),
    ];
    let mut parser = Parser::new(tokens);
    assert_eq!(
        parser.parse_expression(),
        Ok(node(
            Operator::Power,
            Expression::Number(Number::Value((-1.0f64).to_bits())),
            num("0.5")
        ))
    );
    assert!(parser.is_finished());
}

#[test]
fn parser_passes_over_the_token_it_refuses() {
    let mut parser = Parser::new(tokenize("* 7").unwrap());
    assert_eq!(parser.parse_expression(), Err(ParseError::UnexpectedToken));
    assert_eq!(parser.parse_expression(), Ok(num("7")));
    assert!(parser.is_finished());

    let mut parser = Parser::new(tokenize("(1 2 3").unwrap());
    assert_eq!(
        parser.parse_expression(),
        Err(ParseError::ExpectedClosingParenthesis)
    );
    assert_eq!(parser.parse_expression(), Ok(num("3")));
    assert!(parser.is_finished());
}

#[test]
fn written_expressions_are_read_back() {
    let tree = node(
        Operator::Multiply,
        node(Operator::Add, var("a"), var("b")),
        node(
            Operator::Power,
            node(Operator::Subtract, var("c"), num("1")),
            node(Operator::Divide, var("d"), num("2")),
        ),
    );
    assert_eq!(Expression::parse("(a + b) * (c - 1) ^ (d / 2)"), Ok(tree));

    let tree = node(
        Operator::Subtract,
        var("a"),
        node(Operator::Subtract, var("b"), var("c")),
    );
    assert_eq!(Expression::parse("a - (b - c)"), Ok(tree));
}

#[test]
fn builders_make_the_variant_named() {
    assert_eq!(
        expr::number(1.0f64.to_bits()),
        Expression::Number(Number::Value(1.0f64.to_bits()))
    );
    assert_eq!(
        expr::number((-1.0f64).to_bits()),
        Expression::Number(Number::Value(0xbff0_0000_0000_0000))
    );
    assert_eq!(
        expr::number(f64::INFINITY.to_bits()),
        Expression::Number(Number::Value(f64::INFINITY.to_bits()))
    );
    assert_eq!(expr::variable("x"), Expression::Variable("x".to_string()));
    assert_eq!(
        expr::add(var("a"), var("b")),
        Expression::Add(Box::new(var("a")), Box::new(var("b")))
    );
    assert_eq!(
        expr::subtract(var("a"), var("b")),
        Expression::Subtract(Box::new(var("a")), Box::new(var("b")))
    );
    assert_eq!(
        expr::multiply(var("a"), var("b")),
        Expression::Multiply(Box::new(var("a")), Box::new(var("b")))
    );
    assert_eq!(
        expr::divide(var("a"), var("b")),
        Expression::Divide(Box::new(var("a")), Box::new(var("b")))
    );
    assert_eq!(
        expr::power(var("a"), var("b")),
        Expression::Power(Box::new(var("a")), Box::new(var("b")))
    );
}

#[test]
fn binary_makes_the_variant_of_its_operator() {
    assert_eq!(
        node(Operator::Add, var("a"), var("b")),
        expr::add(var("a"), var("b"))
    );
    assert_eq!(
        node(Operator::Subtract, var("a"), var("b")),
        expr::subtract(var("a"), var("b"))
    );
    assert_eq!(
        node(Operator::Multiply, var("a"), var("b")),
        expr::multiply(var("a"), var("b"))
    );
    assert_eq!(
        node(Operator::Divide, var("a"), var("b")),
        expr::divide(var("a"), var("b"))
    );
    assert_eq!(
        node(Operator::Power, var("a"), var("b")),
        expr::power(var("a"), var("b"))
    );
}

#[test]
fn lexical_error_messages() {
    assert_eq!(LexError::InvalidNumber.message(), "Invalid number");
    assert_eq!(
        LexError::UnexpectedCharacter('@').message(),
        "Unexpected character: @"
    );
    assert_eq!(
        tokenize("2 $ 3").unwrap_err().message(),
        "Unexpected character: $"
    );
}

#[test]
fn parse_error_messages() {
    assert_eq!(
        ParseError::UnexpectedEndOfInput.message(),
        "Unexpected end of input"
    );
    assert_eq!(ParseError::UnexpectedToken.message(), "Unexpected token");
    assert_eq!(
        ParseError::ExpectedClosingParenthesis.message(),
        "Expected closing parenthesis"
    );
    assert_eq!(
        Expression::parse("(2 + 3").unwrap_err().message(),
        "Expected closing parenthesis"
    );
    assert_eq!(
        Expression::parse("1.2.3").unwrap_err().message(),
        "Invalid number"
    );
}
