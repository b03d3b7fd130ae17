use expression::error::LexError;
use expression::error::ParseError;
use expression::expression::Expression;
use expression::number::Literal;
use expression::number::Number;
use expression::parsing::tokenize;
use expression::parsing::Parser;
use expression::parsing::Token;

/// The number token that holds `value`.
fn number_token(value: f64) -> Token {
    Token::Number(Number::Value(value.to_bits()))
}

/// The number leaf that holds `value`.
fn number_leaf(value: f64) -> Expression {
    Expression::Number(Number::Value(value.to_bits()))
}

/// The number token that a text holds for the literal `text`.
fn written(text: &str) -> Token {
    Token::Number(Number::Written(Literal::new(text).unwrap()))
}

/// The values of the number tokens in `tokens`, in order.
fn numbers(tokens: &[Token]) -> Vec<f64> {
    let mut out = Vec::new();
    for token in tokens {
        match token {
            Token::Number(Number::Written(literal)) => {
                out.push(literal.as_str().parse::<f64>().unwrap())
            }
            Token::Number(Number::Value(bits)) => out.push(f64::from_bits(*bits)),
            _ => {}
        }
    }
    out
}

#[test]
fn test_tokenize_numbers() {
    let tokens = tokenize("123.45").unwrap();
    assert_eq!(tokens, vec![written("123.45")]);
    assert_eq!(numbers(&tokens), numbers(&[number_token(123.45)]));
    assert_eq!(numbers(&tokens), vec![123.45]);

    let tokens = tokenize("42").unwrap();
    assert_eq!(tokens, vec![written("42")]);
    assert_eq!(numbers(&tokens), numbers(&[number_token(42.0)]));
    assert_eq!(numbers(&tokens), vec![42.0]);
}

#[test]
fn test_tokenize_variables() {
    assert_eq!(
        tokenize("xyz"),
        Ok(vec![Token::Variable("xyz".to_string())])
    );

    assert_eq!(tokenize("x"), Ok(vec![Token::Variable("x".to_string())]));
}

#[test]
fn test_tokenize_operators() {
    assert_eq!(
        tokenize("+-*/^"),
        Ok(vec![
            Token::Plus,
            Token::Minus,
            Token::Star,
            Token::Slash,
            Token::Caret
        ])
    );
}

#[test]
fn test_tokenize_parentheses() {
    assert_eq!(
        tokenize("(x)"),
        Ok(vec![
            Token::LParen,
            Token::Variable("x".to_string()),
            Token::RParen
        ])
    );
}

#[test]
fn test_tokenize_complex_expression() {
    let tokens = tokenize("(x + 2.5) * y").unwrap();
    assert_eq!(
        tokens,
        vec![
            Token::LParen,
            Token::Variable("x".to_string()),
            Token::Plus,
            written("2.5"),
            Token::RParen,
            Token::Star,
            Token::Variable("y".to_string())
        ]
    );
    assert_eq!(numbers(&tokens), vec![2.5]);
}

#[test]
fn test_tokenize_invalid_characters() {
    assert!(tokenize("x @ y").is_err());
    assert!(tokenize("2 $ 3").is_err());
    assert!(tokenize("#123").is_err());

    assert_eq!(tokenize("x @ y"), Err(LexError::UnexpectedCharacter('@')));
    assert_eq!(tokenize("2 $ 3"), Err(LexError::UnexpectedCharacter('$')));
    assert_eq!(tokenize("#123"), Err(LexError::UnexpectedCharacter('#')));
}

#[test]
fn test_tokenize_whitespace() {
    assert_eq!(tokenize("x + y"), tokenize("x+y"));

    assert_eq!(tokenize(" x  +  y "), tokenize("x+y"));

    assert_eq!(
        tokenize("x+y"),
        Ok(vec![
            Token::Variable("x".to_string()),
            Token::Plus,
            Token::Variable("y".to_string())
        ])
    );
}

#[test]
fn test_parse_number() {
    let tokens = vec![number_token(42.0)];
    let mut parser = Parser::new(tokens);

    assert_eq!(parser.parse_expression(), Ok(number_leaf(42.0)));
}

#[test]
fn test_parse_variable() {
    let tokens = vec![Token::Variable("x".to_string())];
    let mut parser = Parser::new(tokens);

    assert_eq!(
        parser.parse_expression(),
        Ok(Expression::Variable("x".to_string()))
    );
}

#[test]
fn test_parse_addition() {
    let tokens = vec![number_token(2.0), Token::Plus, number_token(3.0)];
    let mut parser = Parser::new(tokens);

    assert_eq!(
        parser.parse_expression(),
        Ok(Expression::Add(
            Box::new(number_leaf(2.0)),
            Box::new(number_leaf(3.0))
        ))
    );
}

#[test]
fn test_parse_operator_precedence() {
    let tokens = vec![
        number_token(2.0),
        Token::Plus,
        number_token(3.0),
        Token::Star,
        number_token(4.0),
    ];
    let mut parser = Parser::new(tokens);

    assert_eq!(
        parser.parse_expression(),
        Ok(Expression::Add(
            Box::new(number_leaf(2.0)),
            Box::new(Expression::Multiply(
                Box::new(number_leaf(3.0)),
                Box::new(number_leaf(4.0))
            ))
        ))
    );
}

#[test]
fn test_parse_parentheses() {
    let tokens = vec![
        Token::LParen,
        number_token(2.0),
        Token::Plus,
        number_token(3.0),
        Token::RParen,
        Token::Star,
        number_token(4.0),
    ];
    let mut parser = Parser::new(tokens);

    assert_eq!(
        parser.parse_expression(),
        Ok(Expression::Multiply(
            Box::new(Expression::Add(
                Box::new(number_leaf(2.0)),
                Box::new(number_leaf(3.0))
            )),
            Box::new(number_leaf(4.0))
        ))
    );
}

#[test]
fn test_parse_unmatched_parentheses() {
    let tokens = vec![
        Token::LParen,
        number_token(2.0),
        Token::Plus,
        number_token(3.0),
    ];
    let mut parser = Parser::new(tokens);

    let result = parser.parse_expression();
    assert!(result.is_err());
    assert_eq!(result, Err(ParseError::ExpectedClosingParenthesis));
}

#[test]
fn test_parse_power() {
    let tokens = vec![number_token(2.0), Token::Caret, number_token(3.0)];
    let mut parser = Parser::new(tokens);

    assert_eq!(
        parser.parse_expression(),
        Ok(Expression::Power(
            Box::new(number_leaf(2.0)),
            Box::new(number_leaf(3.0))
        ))
    );
}

#[test]
fn test_parse_empty() {
    let tokens = vec![];
    let mut parser = Parser::new(tokens);

    let result = parser.parse_expression();
    assert!(result.is_err());
    assert_eq!(result, Err(ParseError::UnexpectedEndOfInput));
}

#[test]
fn test_parse_incomplete_expression() {
    let tokens = vec![number_token(2.0), Token::Plus];
    let mut parser = Parser::new(tokens);

    let result = parser.parse_expression();
    assert!(result.is_err());
    assert_eq!(result, Err(ParseError::UnexpectedEndOfInput));
}
