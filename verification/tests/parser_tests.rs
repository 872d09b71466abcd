use rox::lexer::Lexer;
use rox::lexer::RoxError;
use rox::lexer::TokenType;
use rox::parser::Expr;
use rox::parser::Parser;

fn parse_source(source: &str) -> Result<Expr, RoxError> {
    let mut lexer = Lexer::new(source.to_string());
    let mut parser = Parser::new(&mut lexer)?;
    parser.parse_expression()
}

fn literal(s: &str) -> Expr {
    Expr::Literal { value: s.to_string() }
}

fn binary(left: Expr, op: TokenType, right: Expr) -> Expr {
    Expr::Binary { left: Box::new(left), op, right: Box::new(right) }
}

fn grouping(inner: Expr) -> Expr {
    Expr::Grouping { expr: Box::new(inner) }
}

#[test]
fn multiplication_binds_tighter_than_addition() {
    let tree = parse_source("1 + 2 * 3").unwrap();
    let expected = binary(
        literal("1"),
        TokenType::Plus,
        binary(literal("2"), TokenType::Star, literal("3")),
    );
    assert_eq!(tree, expected);
}

#[test]
fn grouping_overrides_precedence() {
    let tree = parse_source("(1 + 2) * 3").unwrap();
    let expected = binary(
        grouping(binary(literal("1"), TokenType::Plus, literal("2"))),
        TokenType::Star,
        literal("3"),
    );
    assert_eq!(tree, expected);
}

#[test]
fn subtraction_chains_are_left_associative() {
    let tree = parse_source("1 - 2 - 3").unwrap();
    let expected = binary(
        binary(literal("1"), TokenType::Minus, literal("2")),
        TokenType::Minus,
        literal("3"),
    );
    assert_eq!(tree, expected);
}

#[test]
fn division_chains_are_left_associative() {
    let tree = parse_source("8 / 4 / 2").unwrap();
    let expected = binary(
        binary(literal("8"), TokenType::Slash, literal("4")),
        TokenType::Slash,
        literal("2"),
    );
    assert_eq!(tree, expected);
}

#[test]
fn comparison_binds_looser_than_addition() {
    let tree = parse_source("1 < 2 + 3").unwrap();
    let expected = binary(
        literal("1"),
        TokenType::Less,
        binary(literal("2"), TokenType::Plus, literal("3")),
    );
    assert_eq!(tree, expected);
}

#[test]
fn equality_binds_loosest() {
    let tree = parse_source("1 == 2 < 3").unwrap();
    let expected = binary(
        literal("1"),
        TokenType::EqualEqual,
        binary(literal("2"), TokenType::Less, literal("3")),
    );
    assert_eq!(tree, expected);
}

#[test]
fn unary_minus_parses() {
    let tree = parse_source("- 1").unwrap();
    let expected = Expr::Unary { op: TokenType::Minus, right: Box::new(literal("1")) };
    assert_eq!(tree, expected);
}

#[test]
fn nested_unary_bang_parses() {
    let tree = parse_source("! ! x").unwrap();
    let expected = Expr::Unary {
        op: TokenType::Bang,
        right: Box::new(Expr::Unary { op: TokenType::Bang, right: Box::new(literal("x")) }),
    };
    assert_eq!(tree, expected);
}

#[test]
fn simple_grouping_parses() {
    let tree = parse_source("(1)").unwrap();
    assert_eq!(tree, grouping(literal("1")));
}

#[test]
fn keyword_becomes_a_literal_leaf() {
    let tree = parse_source("nil").unwrap();
    assert_eq!(tree, literal("nil"));
}

#[test]
fn missing_closing_parenthesis_is_an_error() {
    let result = parse_source("(1 + 2");
    assert_eq!(
        result,
        Err(RoxError::ExpectedToken { expected: TokenType::RightParen, found: None })
    );
}

#[test]
fn wrong_token_instead_of_closing_parenthesis() {
    let result = parse_source("(1 + 2 3");
    assert_eq!(
        result,
        Err(RoxError::ExpectedToken {
            expected: TokenType::RightParen,
            found: Some(TokenType::Number),
        })
    );
}

#[test]
fn empty_input_is_an_error() {
    let result = parse_source("");
    assert_eq!(result, Err(RoxError::UnexpectedEndOfInput));
}

#[test]
fn dangling_operator_is_an_error() {
    let result = parse_source("1 +");
    assert_eq!(result, Err(RoxError::UnexpectedEndOfInput));
}

#[test]
fn scan_error_surfaces_through_the_parser() {
    let result = parse_source("\"abc");
    assert_eq!(result, Err(RoxError::UnterminatedString { line: 0 }));
}

#[test]
fn deep_nesting_hits_the_recursion_limit() {
    let mut source = String::new();
    for _ in 0..70 {
        source.push('(');
    }
    source.push('1');
    let result = parse_source(&source);
    assert_eq!(result, Err(RoxError::RecursionLimitExceeded));
}

#[test]
fn moderate_nesting_is_fine() {
    let mut source = String::new();
    for _ in 0..20 {
        source.push('(');
    }
    source.push('1');
    for _ in 0..20 {
        source.push(')');
    }
    let mut expected = literal("1");
    for _ in 0..20 {
        expected = grouping(expected);
    }
    let tree = parse_source(&source).unwrap();
    assert_eq!(tree, expected);
}

#[test]
fn parsing_stops_after_one_expression() {
    let tree = parse_source("1 2").unwrap();
    assert_eq!(tree, literal("1"));
}

#[test]
fn mixed_expression_parses() {
    let tree = parse_source("1 + 2 * 3 - 4").unwrap();
    let expected = binary(
        binary(
            literal("1"),
            TokenType::Plus,
            binary(literal("2"), TokenType::Star, literal("3")),
        ),
        TokenType::Minus,
        literal("4"),
    );
    assert_eq!(tree, expected);
}
