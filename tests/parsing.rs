use qir_core::ast::{AstExpression, AstHeader, AstStatement, AstType, BinaryOp};
use qir_core::iter::TokenIterator;
use qir_core::lexer::Lexer;
use qir_core::parser::{ParseError, Parser};
use qir_core::tokens::{Token, TokenType};

fn tokens(text: &str) -> Vec<Token> {
    let mut lexer = Lexer::new("main.q".to_string(), text.to_string());
    lexer.lex().unwrap();
    lexer.tokens
}

fn parser(text: &str) -> Parser {
    Parser::new(tokens(text))
}

#[test]
fn parses_a_function() {
    let headers = parser("fn main() -> i32 { 1 + 2; x; }").parse().unwrap();
    assert_eq!(headers.len(), 1);
    match &headers[0] {
        AstHeader::Function { name, parameters, return_type, code_block } => {
            assert_eq!(name.name, "main");
            assert!(parameters.is_empty());
            assert!(matches!(return_type, AstType::Int32));
            assert_eq!(code_block.statements.len(), 2);
            assert!(matches!(
                &code_block.statements[0],
                AstStatement::Expression(AstExpression::Binary { op: BinaryOp::Add, .. })
            ));
            assert!(matches!(
                &code_block.statements[1],
                AstStatement::Expression(AstExpression::VariableLiteral { content, .. }) if content == "x"
            ));
        },
        other => panic!("unexpected {:?}", other),
    }
}

#[test]
fn parses_a_structure_and_an_import() {
    let headers = parser("import std::io struct Point { x: i32; y: f64; }").parse().unwrap();
    assert_eq!(headers.len(), 2);
    assert!(matches!(&headers[0], AstHeader::Import(name) if name == "std::io"));
    match &headers[1] {
        AstHeader::Struct { name, fields } => {
            assert_eq!(name.name, "Point");
            assert_eq!(fields.len(), 2);
            assert_eq!(fields[0].0, "x");
            assert!(matches!(fields[1].1, AstType::Float64));
        },
        other => panic!("unexpected {:?}", other),
    }
}

#[test]
fn loops_are_reported_and_skipped() {
    let mut p = parser("fn main() -> i32 { loop; 1; }");
    let r = p.parse();
    let errors = r.unwrap_err();
    assert_eq!(errors.len(), 1);
    assert!(matches!(&errors[0], ParseError::NotImplemented { keyword: TokenType::LoopKeyword, .. }));
}

#[test]
fn calls_and_method_syntax() {
    let headers = parser("fn main() -> void { f(1, 2); a.g(3); v[0]; }").parse().unwrap();
    let statements = match &headers[0] {
        AstHeader::Function { code_block, .. } => &code_block.statements,
        other => panic!("unexpected {:?}", other),
    };
    assert!(matches!(&statements[0], AstStatement::Expression(AstExpression::Invoke { arguments, resolve_as_ufcs: false, .. }) if arguments.len() == 2));
    assert!(matches!(&statements[1], AstStatement::Expression(AstExpression::Invoke { arguments, resolve_as_ufcs: true, .. }) if arguments.len() == 2));
    assert!(matches!(&statements[2], AstStatement::Expression(AstExpression::Index { .. })));
}

#[test]
fn base_types_and_unions() {
    let mut p = parser("i64");
    assert!(matches!(p.parse_base_type(), Ok(AstType::Int64)));
    let mut p = parser("geo::Point");
    match p.parse_base_type() {
        Ok(AstType::Structure(path)) => assert_eq!(path.name, "geo::Point"),
        other => panic!("unexpected {:?}", other),
    }
    let mut p = parser("i32 | f32");
    assert!(matches!(p.parse_type(), Ok(AstType::UnionOf(..))));
}

#[test]
fn identifier_joins_path_segments() {
    let mut p = parser("a::b::d x");
    let path = p.parse_identifier().unwrap();
    assert_eq!(path.name, "a::b::d");
    assert_eq!(p.tokens.index, 5);
}

#[test]
fn unexpected_declaration_keyword_is_an_error() {
    let mut p = parser("while");
    assert!(p.parse_header().is_none());
    assert_eq!(p.errors.len(), 1);
    assert!(matches!(&p.errors[0], ParseError::Expected { found: Some(TokenType::WhileKeyword), .. }));
}

#[test]
fn token_cursor_reads_and_peeks() {
    let mut it = TokenIterator::new(tokens("a b"));
    assert!(matches!(it.peek().map(|t| t.token_type), Some(TokenType::Identifier { .. })));
    assert!(it.next().is_some());
    assert!(it.next().is_some());
    assert!(it.next().is_none());
    assert!(it.peek().is_none());
    assert_eq!(it.index, 3);
    assert!(it.next().is_none());
    assert_eq!(it.index, 4);
}
