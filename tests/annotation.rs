use qir_core::annotate::{classify_number, LocalTypes};
use qir_core::ast::{AstCodeBlock, AstExpression, AstHeader, AstStatement, AstType, BinaryOp, PathData};
use qir_core::span::Span;
use qir_core::tokens::{Token, TokenType};
use qir_core::types::{gather_all, Diagnostic, ProgramType, TypeInformation};

fn span(row: usize, column: usize) -> Span {
    Span { row_start: row, row_end: row, column_start: column, column_end: column, file_name: "main.q".to_string() }
}

fn tok(token_type: TokenType, column: usize) -> Token {
    Token { token_type, span: span(0, column) }
}

fn number(text: &str, column: usize) -> AstExpression {
    AstExpression::NumberLiteral {
        content: text.to_string(),
        ty: None,
        token: tok(TokenType::Number { content: text.to_string() }, column),
    }
}

fn variable(name: &str, column: usize) -> AstExpression {
    AstExpression::VariableLiteral {
        content: name.to_string(),
        ty: None,
        token: tok(TokenType::Identifier { content: name.to_string() }, column),
    }
}

fn binary(op: BinaryOp, left: AstExpression, right: AstExpression, column: usize) -> AstExpression {
    AstExpression::Binary { op, ty: None, left: Box::new(left), right: Box::new(right), op_tok: tok(TokenType::Plus, column) }
}

fn path(name: &str, column: usize) -> PathData {
    PathData { name: name.to_string(), token: tok(TokenType::Identifier { content: name.to_string() }, column) }
}

fn assign(name: &str, value: AstExpression) -> AstStatement {
    AstStatement::ModifyVariable {
        name: name.to_string(),
        ty: None,
        value,
        token: tok(TokenType::Identifier { content: name.to_string() }, 0),
    }
}

fn empty_table() -> TypeInformation {
    TypeInformation::new()
}

#[test]
fn literal_with_point_is_narrow_float() {
    assert!(matches!(classify_number(&"3.14".to_string()), AstType::Float32));
    assert!(matches!(classify_number(&"1.".to_string()), AstType::Float32));
    assert!(matches!(classify_number(&".5".to_string()), AstType::Float32));
}

#[test]
fn float_beyond_narrow_range_is_wide() {
    let big = format!("1{}.0", "0".repeat(39));
    assert!(matches!(classify_number(&big), AstType::Float64));
    assert!(matches!(classify_number(&"340282346638528859811704183484516925440.0".to_string()), AstType::Float32));
    assert!(matches!(classify_number(&"340282346638528859811704183484516925440.5".to_string()), AstType::Float64));
    assert!(matches!(classify_number(&"340282346638528859811704183484516925441.0".to_string()), AstType::Float64));
}

#[test]
fn malformed_float_text_is_wide_float() {
    assert!(matches!(classify_number(&"1.2.3".to_string()), AstType::Float64));
    assert!(matches!(classify_number(&".".to_string()), AstType::Float64));
}

#[test]
fn integer_literal_boundaries() {
    assert!(matches!(classify_number(&"42".to_string()), AstType::Int32));
    assert!(matches!(classify_number(&"2147483647".to_string()), AstType::Int32));
    assert!(matches!(classify_number(&"2147483648".to_string()), AstType::Int64));
    assert!(matches!(classify_number(&"-2147483648".to_string()), AstType::Int32));
    assert!(matches!(classify_number(&"99999999999999999999".to_string()), AstType::Int64));
}

#[test]
fn annotated_number_fills_its_slot() {
    let mut e = number("7", 0);
    let mut diags = Vec::new();
    let t = e.annotate_type_information(&empty_table(), &LocalTypes::new(), &mut diags);
    assert!(matches!(t, AstType::Int32));
    assert!(matches!(e.get_type(), AstType::Int32));
    assert!(diags.is_empty());
}

#[test]
fn written_slot_is_reported_as_internal_error() {
    let mut e = AstExpression::NumberLiteral {
        content: "7".to_string(),
        ty: Some(AstType::Int64),
        token: tok(TokenType::Number { content: "7".to_string() }, 0),
    };
    let mut diags = Vec::new();
    let t = e.annotate_type_information(&empty_table(), &LocalTypes::new(), &mut diags);
    assert!(matches!(t, AstType::Int32));
    assert!(matches!(e.get_type(), AstType::Int64));
    assert_eq!(diags.len(), 1);
    assert!(matches!(diags[0], Diagnostic::SlotAlreadySet));
}

#[test]
fn equal_operands_unify_without_diagnostics() {
    let mut left = number("1", 0);
    let mut right = number("2", 4);
    let mut ty = None;
    let mut diags = Vec::new();
    let t = AstExpression::annotate_binop(&mut left, &mut right, &mut ty, &empty_table(), &LocalTypes::new(), &mut diags);
    assert!(matches!(t, AstType::Int32));
    assert!(matches!(ty, Some(AstType::Int32)));
    assert!(diags.is_empty());
}

#[test]
fn different_operands_give_invalid_and_one_mismatch() {
    let mut e = binary(BinaryOp::Add, number("1", 0), number("2.5", 4), 2);
    let mut diags = Vec::new();
    let t = e.annotate_type_information(&empty_table(), &LocalTypes::new(), &mut diags);
    assert!(matches!(t, AstType::Invalid));
    assert_eq!(diags.len(), 1);
    match &diags[0] {
        Diagnostic::TypeMismatch { left, right } => {
            assert_eq!(left.column_start, 0);
            assert_eq!(right.column_start, 4);
        },
        other => panic!("unexpected {:?}", other),
    }
}

#[test]
fn unknown_variable_is_unresolved() {
    let mut e = variable("y", 3);
    let mut diags = Vec::new();
    let t = e.annotate_type_information(&empty_table(), &LocalTypes::new(), &mut diags);
    assert!(matches!(t, AstType::Invalid));
    assert_eq!(diags.len(), 1);
    match &diags[0] {
        Diagnostic::UnresolvedIdentifier { name, span } => {
            assert_eq!(name, "y");
            assert_eq!(span.column_start, 3);
        },
        other => panic!("unexpected {:?}", other),
    }
}

#[test]
fn string_literal_is_the_string_structure() {
    let mut e = AstExpression::StringLiteral {
        content: "hi".to_string(),
        ty: None,
        token: tok(TokenType::StringValue { content: "hi".to_string() }, 0),
    };
    let mut diags = Vec::new();
    match e.annotate_type_information(&empty_table(), &LocalTypes::new(), &mut diags) {
        AstType::Structure(p) => assert_eq!(p.name, "std::string"),
        other => panic!("unexpected {:?}", other),
    }
}

#[test]
fn assignment_of_sum_records_int32() {
    let mut stmt = assign("x", binary(BinaryOp::Add, number("1", 4), number("2", 8), 6));
    let mut locals = LocalTypes::new();
    let mut diags = Vec::new();
    stmt.annotate_type_information(&empty_table(), &mut locals, &mut diags);
    assert!(diags.is_empty());
    assert!(matches!(locals.get(&"x".to_string()), Some(AstType::Int32)));
    match &stmt {
        AstStatement::ModifyVariable { ty, value, .. } => {
            assert!(matches!(ty, Some(AstType::Int32)));
            assert!(matches!(value, AstExpression::Binary { op: BinaryOp::Add, ty: Some(AstType::Int32), .. }));
        },
        other => panic!("unexpected {:?}", other),
    }
}

#[test]
fn reassignment_with_another_type_keeps_the_first() {
    let mut block = AstCodeBlock { statements: vec![assign("x", number("1", 0)), assign("x", number("1.5", 0))] };
    let mut locals = LocalTypes::new();
    let mut diags = Vec::new();
    block.annotate_type_information(&empty_table(), &mut locals, &mut diags);
    assert_eq!(diags.len(), 1);
    assert!(matches!(diags[0], Diagnostic::TypeMismatch { .. }));
    assert!(matches!(locals.get(&"x".to_string()), Some(AstType::Int32)));
    assert_eq!(locals.entries.len(), 1);
}

#[test]
fn variable_reads_its_recorded_type() {
    let mut block = AstCodeBlock {
        statements: vec![
            assign("x", number("5000000000", 0)),
            AstStatement::Expression(binary(BinaryOp::Mul, variable("x", 0), number("3", 4), 2)),
        ],
    };
    let mut locals = LocalTypes::new();
    let mut diags = Vec::new();
    block.annotate_type_information(&empty_table(), &mut locals, &mut diags);
    assert_eq!(diags.len(), 1);
    assert!(matches!(diags[0], Diagnostic::TypeMismatch { .. }));
}

#[test]
fn array_literals_unify_their_elements() {
    let mut same = AstExpression::ArrayLiteral {
        content: vec![number("1", 1), number("2", 3)],
        ty: None,
        open_bracket_tok: tok(TokenType::OpenBracket, 0),
        close_bracket_tok: tok(TokenType::CloseBracket, 4),
    };
    let mut diags = Vec::new();
    match same.annotate_type_information(&empty_table(), &LocalTypes::new(), &mut diags) {
        AstType::ArrayOf(inner) => assert!(matches!(*inner, AstType::Int32)),
        other => panic!("unexpected {:?}", other),
    }
    assert!(diags.is_empty());

    let mut mixed = AstExpression::ArrayLiteral {
        content: vec![number("1", 1), number("2.0", 3)],
        ty: None,
        open_bracket_tok: tok(TokenType::OpenBracket, 0),
        close_bracket_tok: tok(TokenType::CloseBracket, 6),
    };
    let t = mixed.annotate_type_information(&empty_table(), &LocalTypes::new(), &mut diags);
    assert!(matches!(t, AstType::Invalid));
    assert_eq!(diags.len(), 1);

    let mut empty = AstExpression::ArrayLiteral {
        content: vec![],
        ty: None,
        open_bracket_tok: tok(TokenType::OpenBracket, 0),
        close_bracket_tok: tok(TokenType::CloseBracket, 1),
    };
    empty.annotate_type_information(&empty_table(), &LocalTypes::new(), &mut diags);
    assert_eq!(diags.len(), 2);
    assert!(matches!(diags[1], Diagnostic::UnsupportedConstruct { .. }));
}

fn function_header(name: &str, parameters: Vec<(AstType, String)>, return_type: AstType, statements: Vec<AstStatement>) -> AstHeader {
    AstHeader::Function { name: path(name, 0), parameters, return_type, code_block: AstCodeBlock { statements } }
}

fn call(name: &str, arguments: Vec<AstExpression>) -> AstExpression {
    AstExpression::Invoke {
        receiver: Box::new(variable(name, 0)),
        arguments,
        return_type: None,
        open_paren_tok: tok(TokenType::OpenParen, 1),
        close_paren_tok: tok(TokenType::CloseParen, 5),
        resolve_as_ufcs: false,
    }
}

#[test]
fn calls_match_the_declared_shape() {
    let headers = vec![function_header("twice", vec![(AstType::Int64, "v".to_string())], AstType::Int64, vec![])];
    let mut diags = Vec::new();
    let table = gather_all(&headers, &mut diags);
    let mut good = call("twice", vec![number("5000000000", 2)]);
    assert!(matches!(good.annotate_type_information(&table, &LocalTypes::new(), &mut diags), AstType::Int64));
    assert!(diags.is_empty());

    let mut wrong_type = call("twice", vec![number("5", 2)]);
    assert!(matches!(wrong_type.annotate_type_information(&table, &LocalTypes::new(), &mut diags), AstType::Invalid));
    assert!(matches!(diags[0], Diagnostic::TypeMismatch { .. }));

    let mut wrong_arity = call("twice", vec![]);
    wrong_arity.annotate_type_information(&table, &LocalTypes::new(), &mut diags);
    assert!(matches!(diags[1], Diagnostic::ShapeConflict { .. }));

    let mut unknown = call("thrice", vec![]);
    unknown.annotate_type_information(&table, &LocalTypes::new(), &mut diags);
    assert!(matches!(diags[2], Diagnostic::UnresolvedIdentifier { .. }));
}

#[test]
fn structure_literals_match_the_declared_fields() {
    let headers = vec![AstHeader::Struct {
        name: path("Point", 0),
        fields: vec![("x".to_string(), AstType::Int32), ("y".to_string(), AstType::Int32)],
    }];
    let mut diags = Vec::new();
    let table = gather_all(&headers, &mut diags);
    let mut good = AstExpression::StructureLiteral {
        name: path("Point", 0),
        fields: vec![("x".to_string(), number("1", 2)), ("y".to_string(), number("2", 4))],
        ty: None,
    };
    match good.annotate_type_information(&table, &LocalTypes::new(), &mut diags) {
        AstType::Structure(p) => assert_eq!(p.name, "Point"),
        other => panic!("unexpected {:?}", other),
    }
    assert!(diags.is_empty());
    let mut reordered = AstExpression::StructureLiteral {
        name: path("Point", 0),
        fields: vec![("y".to_string(), number("1", 2)), ("x".to_string(), number("2", 4))],
        ty: None,
    };
    assert!(matches!(reordered.annotate_type_information(&table, &LocalTypes::new(), &mut diags), AstType::Structure(_)));
    assert!(diags.is_empty());
    let mut repeated = AstExpression::StructureLiteral {
        name: path("Point", 0),
        fields: vec![("x".to_string(), number("1", 2)), ("x".to_string(), number("2", 4))],
        ty: None,
    };
    assert!(matches!(repeated.annotate_type_information(&table, &LocalTypes::new(), &mut diags), AstType::Invalid));
    assert!(matches!(diags.pop(), Some(Diagnostic::ShapeConflict { .. })));
    let mut wrong_name = AstExpression::StructureLiteral {
        name: path("Point", 0),
        fields: vec![("x".to_string(), number("1", 2)), ("z".to_string(), number("2", 4))],
        ty: None,
    };
    assert!(matches!(wrong_name.annotate_type_information(&table, &LocalTypes::new(), &mut diags), AstType::Invalid));
    assert!(matches!(diags[0], Diagnostic::ShapeConflict { .. }));
    let mut wrong_type = AstExpression::StructureLiteral {
        name: path("Point", 0),
        fields: vec![("x".to_string(), number("1", 2)), ("y".to_string(), number("2.0", 4))],
        ty: None,
    };
    wrong_type.annotate_type_information(&table, &LocalTypes::new(), &mut diags);
    assert!(matches!(diags[1], Diagnostic::TypeMismatch { .. }));
}

#[test]
fn indexing_yields_the_element_type() {
    let mut block = AstCodeBlock {
        statements: vec![
            assign(
                "a",
                AstExpression::ArrayLiteral {
                    content: vec![number("1.5", 1)],
                    ty: None,
                    open_bracket_tok: tok(TokenType::OpenBracket, 0),
                    close_bracket_tok: tok(TokenType::CloseBracket, 4),
                },
            ),
            assign(
                "b",
                AstExpression::Index {
                    ty: None,
                    base: Box::new(variable("a", 0)),
                    other: Box::new(number("0", 2)),
                    open_bracket_tok: tok(TokenType::OpenBracket, 1),
                },
            ),
        ],
    };
    let mut locals = LocalTypes::new();
    let mut diags = Vec::new();
    block.annotate_type_information(&empty_table(), &mut locals, &mut diags);
    assert!(diags.is_empty());
    assert!(matches!(locals.get(&"b".to_string()), Some(AstType::Float32)));
}

#[test]
fn gathering_registers_functions_and_structures() {
    let headers = vec![
        AstHeader::Import("lib::io".to_string()),
        function_header("main", vec![], AstType::Int32, vec![]),
        AstHeader::Struct { name: path("Point", 0), fields: vec![("x".to_string(), AstType::Int32)] },
    ];
    let mut diags = Vec::new();
    let table = gather_all(&headers, &mut diags);
    assert!(diags.is_empty());
    assert_eq!(table.names.len(), 2);
    assert_eq!(table.names[0].0, "main");
    match &table.names[0].1 {
        ProgramType::Function { name, arguments, return_type } => {
            assert_eq!(name, "main");
            assert!(arguments.is_empty());
            assert!(matches!(return_type, AstType::Int32));
        },
        other => panic!("unexpected {:?}", other),
    }
    assert!(matches!(&table.names[1].1, ProgramType::Structure { fields, .. } if fields.len() == 1));
}

#[test]
fn duplicate_declaration_is_a_shape_conflict() {
    let headers = vec![
        function_header("main", vec![], AstType::Int32, vec![]),
        function_header("main", vec![], AstType::Int64, vec![]),
    ];
    let mut diags = Vec::new();
    let table = gather_all(&headers, &mut diags);
    assert_eq!(table.names.len(), 1);
    assert_eq!(diags.len(), 1);
    assert!(matches!(&diags[0], Diagnostic::ShapeConflict { name, .. } if name == "main"));
}

#[test]
fn non_integer_condition_is_a_mismatch() {
    let mut stmt = AstStatement::WhileStatement { cond: number("1.5", 6), do_true: AstCodeBlock { statements: vec![] } };
    let mut locals = LocalTypes::new();
    let mut diags = Vec::new();
    stmt.annotate_type_information(&empty_table(), &mut locals, &mut diags);
    assert_eq!(diags.len(), 1);
    assert!(matches!(diags[0], Diagnostic::TypeMismatch { .. }));
}

#[test]
fn path_literal_is_unsupported() {
    let mut e = AstExpression::PathLiteral(path("a::b", 0));
    let mut diags = Vec::new();
    assert!(matches!(e.annotate_type_information(&empty_table(), &LocalTypes::new(), &mut diags), AstType::Invalid));
    assert!(matches!(diags[0], Diagnostic::UnsupportedConstruct { .. }));
}
