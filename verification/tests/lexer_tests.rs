use rox::lexer::Lexer;
use rox::lexer::RoxError;
use rox::lexer::Token;
use rox::lexer::TokenType;
use rox::numeric::is_numeric_literal;

fn scan_all(source: &str) -> Result<Vec<Token>, RoxError> {
    let mut lexer = Lexer::new(source.to_string());
    let mut out = Vec::new();
    loop {
        match lexer.next() {
            Ok(Some(t)) => out.push(t),
            Ok(None) => return Ok(out),
            Err(e) => return Err(e),
        }
    }
}

fn kinds(tokens: &[Token]) -> Vec<TokenType> {
    tokens.iter().map(|t| t.token_type).collect()
}

#[test]
fn empty_source_scans_to_nothing() {
    let tokens = scan_all("").unwrap();
    assert!(tokens.is_empty());
}

#[test]
fn whitespace_only_scans_to_nothing() {
    let tokens = scan_all("  \t\n  \t").unwrap();
    assert!(tokens.is_empty());
}

#[test]
fn single_character_tokens() {
    let tokens = scan_all("( ) { } , . - + ; *").unwrap();
    assert_eq!(
        kinds(&tokens),
        vec![
            TokenType::LeftParen,
            TokenType::RightParen,
            TokenType::LeftBrace,
            TokenType::RightBrace,
            TokenType::Comma,
            TokenType::Dot,
            TokenType::Minus,
            TokenType::Plus,
            TokenType::Semicolon,
            TokenType::Star,
        ]
    );
}

#[test]
fn adjacent_punctuation_splits() {
    let tokens = scan_all("(){}").unwrap();
    assert_eq!(
        kinds(&tokens),
        vec![
            TokenType::LeftParen,
            TokenType::RightParen,
            TokenType::LeftBrace,
            TokenType::RightBrace,
        ]
    );
}

#[test]
fn one_and_two_character_operators() {
    let tokens = scan_all("== != <= >= = < > !").unwrap();
    assert_eq!(
        kinds(&tokens),
        vec![
            TokenType::EqualEqual,
            TokenType::BangEqual,
            TokenType::LessEqual,
            TokenType::GreaterEqual,
            TokenType::Equal,
            TokenType::Less,
            TokenType::Greater,
            TokenType::Bang,
        ]
    );
    assert_eq!(tokens[0].lexeme, "==");
    assert_eq!(tokens[4].lexeme, "=");
}

#[test]
fn operator_lookahead_at_end_of_input_is_safe() {
    let tokens = scan_all("=").unwrap();
    assert_eq!(kinds(&tokens), vec![TokenType::Equal]);
    let tokens = scan_all("!").unwrap();
    assert_eq!(kinds(&tokens), vec![TokenType::Bang]);
}

#[test]
fn slash_alone_is_a_token() {
    let tokens = scan_all("1 / 2").unwrap();
    assert_eq!(
        kinds(&tokens),
        vec![TokenType::Number, TokenType::Slash, TokenType::Number]
    );
}

#[test]
fn line_comment_is_skipped() {
    let tokens = scan_all("1 // all of this is ignored\n2").unwrap();
    assert_eq!(kinds(&tokens), vec![TokenType::Number, TokenType::Number]);
    assert_eq!(tokens[0].line, 0);
    assert_eq!(tokens[1].line, 1);
}

#[test]
fn line_comment_at_end_of_input() {
    let tokens = scan_all("1 // no newline after this").unwrap();
    assert_eq!(kinds(&tokens), vec![TokenType::Number]);
}

#[test]
fn string_literal_keeps_quotes_in_lexeme() {
    let tokens = scan_all("\"hi\"").unwrap();
    assert_eq!(kinds(&tokens), vec![TokenType::String]);
    assert_eq!(tokens[0].lexeme, "\"hi\"");
    assert_eq!(tokens[0].line, 0);
}

#[test]
fn unterminated_string_is_an_error() {
    let result = scan_all("\"abc");
    assert_eq!(result, Err(RoxError::UnterminatedString { line: 0 }));
}

#[test]
fn unterminated_string_reports_its_line() {
    let result = scan_all("1\n2\n\"abc");
    assert_eq!(result, Err(RoxError::UnterminatedString { line: 2 }));
}

#[test]
fn keyword_classification() {
    let tokens = scan_all("while print nil foo123 3.14").unwrap();
    assert_eq!(
        kinds(&tokens),
        vec![
            TokenType::Keyword,
            TokenType::Keyword,
            TokenType::Keyword,
            TokenType::Identifier,
            TokenType::Number,
        ]
    );
    assert_eq!(tokens[0].lexeme, "while");
    assert_eq!(tokens[1].lexeme, "print");
    assert_eq!(tokens[2].lexeme, "nil");
    assert_eq!(tokens[3].lexeme, "foo123");
    assert_eq!(tokens[4].lexeme, "3.14");
}

#[test]
fn every_keyword_is_recognised() {
    let source = "and class else false for fun if nil or return super this true var while print";
    let tokens = scan_all(source).unwrap();
    assert_eq!(tokens.len(), 16);
    for t in &tokens {
        assert_eq!(t.token_type, TokenType::Keyword);
    }
}

#[test]
fn near_keywords_are_identifiers() {
    let tokens = scan_all("whiles andd Class").unwrap();
    for t in &tokens {
        assert_eq!(t.token_type, TokenType::Identifier);
    }
}

#[test]
fn line_tracking_counts_preceding_newlines() {
    let tokens = scan_all("a\nb\n\nc").unwrap();
    assert_eq!(tokens[0].line, 0);
    assert_eq!(tokens[1].line, 1);
    assert_eq!(tokens[2].line, 3);
}

#[test]
fn line_tracking_counts_newlines_inside_strings() {
    let tokens = scan_all("\"x\ny\"\nz").unwrap();
    assert_eq!(kinds(&tokens), vec![TokenType::String, TokenType::Identifier]);
    assert_eq!(tokens[0].line, 0);
    assert_eq!(tokens[1].line, 2);
}

#[test]
fn rescanning_identical_source_yields_identical_tokens() {
    let source = "var x = (1 + 2) * 3 // trailing\n\"s\"";
    let first = scan_all(source).unwrap();
    let second = scan_all(source).unwrap();
    assert_eq!(first, second);
}

#[test]
fn peek_one_char_is_bounds_checked() {
    let lexer = Lexer::new("ab".to_string());
    assert_eq!(lexer.peek_one_char(), Some('b'));
    let lexer = Lexer::new("a".to_string());
    assert_eq!(lexer.peek_one_char(), None);
    let lexer = Lexer::new("".to_string());
    assert_eq!(lexer.peek_one_char(), None);
}

#[test]
fn numeric_literal_recognition() {
    assert!(is_numeric_literal("0"));
    assert!(is_numeric_literal("3.14"));
    assert!(is_numeric_literal("123."));
    assert!(is_numeric_literal(".5"));
    assert!(is_numeric_literal("1e5"));
    assert!(is_numeric_literal("2.5E-3"));
    assert!(is_numeric_literal("-7"));
    assert!(is_numeric_literal("+7"));
    assert!(is_numeric_literal("inf"));
    assert!(is_numeric_literal("Infinity"));
    assert!(is_numeric_literal("NaN"));
    assert!(!is_numeric_literal(""));
    assert!(!is_numeric_literal("."));
    assert!(!is_numeric_literal("1e"));
    assert!(!is_numeric_literal("1e+"));
    assert!(!is_numeric_literal("abc"));
    assert!(!is_numeric_literal("1x"));
    assert!(!is_numeric_literal("--1"));
}

#[test]
fn token_type_names() {
    assert_eq!(TokenType::LeftParen.name(), "LeftParen");
    assert_eq!(TokenType::EqualEqual.name(), "EqualEqual");
    assert_eq!(TokenType::Number.name(), "Number");
    assert_eq!(TokenType::Keyword.name(), "Keyword");
    assert_eq!(TokenType::Error.name(), "Error");
}

#[test]
fn number_then_parenthesis_splits() {
    let tokens = scan_all("(1 + 2) * 3").unwrap();
    assert_eq!(
        kinds(&tokens),
        vec![
            TokenType::LeftParen,
            TokenType::Number,
            TokenType::Plus,
            TokenType::Number,
            TokenType::RightParen,
            TokenType::Star,
            TokenType::Number,
        ]
    );
}
