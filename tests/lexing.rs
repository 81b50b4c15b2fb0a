use qir_core::lexer::{LexError, Lexer};
use qir_core::tokens::TokenType;

fn lex(text: &str) -> Result<Vec<TokenType>, LexError> {
    let mut lexer = Lexer::new("main.q".to_string(), text.to_string());
    lexer.lex()?;
    Ok(lexer.tokens.into_iter().map(|t| t.token_type).collect())
}

#[test]
fn function_header_tokens() {
    let kinds = lex("fn main() -> i32 {}").unwrap();
    assert_eq!(kinds.len(), 8);
    assert!(matches!(kinds[0], TokenType::FnKeyword));
    assert!(matches!(&kinds[1], TokenType::Identifier { content } if content == "main"));
    assert!(matches!(kinds[2], TokenType::OpenParen));
    assert!(matches!(kinds[3], TokenType::CloseParen));
    assert!(matches!(kinds[4], TokenType::Arrow));
    assert!(matches!(&kinds[5], TokenType::Identifier { content } if content == "i32"));
    assert!(matches!(kinds[6], TokenType::OpenBrace));
    assert!(matches!(kinds[7], TokenType::CloseBrace));
}

#[test]
fn keywords_ignore_case() {
    let kinds = lex("STRUCT While import").unwrap();
    assert!(matches!(kinds[0], TokenType::StructKeyword));
    assert!(matches!(kinds[1], TokenType::WhileKeyword));
    assert!(matches!(kinds[2], TokenType::ImportKeyword));
}

#[test]
fn identifiers_run_over_letters_and_digits() {
    let kinds = lex("abc123 x9").unwrap();
    assert_eq!(kinds.len(), 2);
    assert!(matches!(&kinds[0], TokenType::Identifier { content } if content == "abc123"));
    assert!(matches!(&kinds[1], TokenType::Identifier { content } if content == "x9"));
}

#[test]
fn numbers_keep_their_points() {
    let kinds = lex("3.14 42").unwrap();
    assert!(matches!(&kinds[0], TokenType::Number { content } if content == "3.14"));
    assert!(matches!(&kinds[1], TokenType::Number { content } if content == "42"));
}

#[test]
fn strings_resolve_escapes() {
    let kinds = lex("\"a\\nb\" 'c'").unwrap();
    assert!(matches!(&kinds[0], TokenType::StringValue { content } if content == "a\nb"));
    assert!(matches!(&kinds[1], TokenType::StringValue { content } if content == "c"));
}

#[test]
fn two_character_operators() {
    let kinds = lex("a::b == c != d <= e >= f .. g").unwrap();
    assert!(matches!(kinds[1], TokenType::DoubleColon));
    assert!(matches!(kinds[3], TokenType::DoubleEqual));
    assert!(matches!(kinds[5], TokenType::NotEqual));
    assert!(matches!(kinds[7], TokenType::LessThanOrEqual));
    assert!(matches!(kinds[9], TokenType::GreaterThanOrEqual));
    assert!(matches!(kinds[11], TokenType::DoubleDot));
    assert_eq!(kinds.len(), 13);
}

#[test]
fn comments_run_to_the_end_of_the_line() {
    let kinds = lex("x // note\ny").unwrap();
    assert_eq!(kinds.len(), 4);
    assert!(matches!(&kinds[1], TokenType::Comment { content } if content == "/ note"));
    assert!(matches!(kinds[2], TokenType::NewLine));
}

#[test]
fn spans_follow_rows_and_columns() {
    let mut lexer = Lexer::new("main.q".to_string(), "ab\n cd".to_string());
    lexer.lex().unwrap();
    assert_eq!(lexer.tokens.len(), 3);
    assert_eq!((lexer.tokens[0].span.row_start, lexer.tokens[0].span.column_start), (0, 2));
    assert_eq!((lexer.tokens[1].span.row_start, lexer.tokens[1].span.column_start), (1, 0));
    assert_eq!((lexer.tokens[2].span.row_start, lexer.tokens[2].span.column_start), (1, 3));
    assert_eq!(lexer.tokens[2].span.file_name, "main.q");
}

#[test]
fn unknown_character_is_an_error() {
    assert!(matches!(lex("a § b"), Err(LexError::UnknownCharacter { character: '§', .. })));
}

#[test]
fn unclosed_string_is_an_error() {
    assert!(matches!(lex("\"abc"), Err(LexError::UnterminatedString { .. })));
}

#[test]
fn unknown_escape_is_an_error() {
    assert!(matches!(lex("\"a\\qb\""), Err(LexError::UnknownEscape { character: 'q', .. })));
}

#[test]
fn reading_characters_moves_the_cursor() {
    let mut lexer = Lexer::new("main.q".to_string(), "a\nb".to_string());
    assert_eq!(lexer.peek_char(), 'a');
    assert_eq!(lexer.read_char(), 'a');
    assert_eq!(lexer.read_char(), '\n');
    assert_eq!((lexer.row, lexer.column), (1, 0));
    assert_eq!(lexer.read_char(), 'b');
    assert_eq!(lexer.read_char(), '\0');
    let span = lexer.generate_span();
    assert_eq!((span.row_start, span.column_start), (1, 2));
}
