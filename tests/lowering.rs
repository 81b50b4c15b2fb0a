use qir_core::ast::{AstCodeBlock, AstExpression, AstHeader, AstStatement, AstType, BinaryOp, PathData};
use qir_core::annotate::annotate_program;
use qir_core::lower::{compile, lower_expression, lower_program, lower_type, struct_layout};
use qir_core::types::{gather_all, ProgramType, TypeInformation};
use qir_core::qir::{QIRExpression, QIRHeader, QIRType};
use qir_core::span::Span;
use qir_core::tokens::{Token, TokenType};

fn tok(token_type: TokenType) -> Token {
    Token { token_type, span: Span { row_start: 0, row_end: 0, column_start: 0, column_end: 0, file_name: "main.q".to_string() } }
}

fn path(name: &str) -> PathData {
    PathData { name: name.to_string(), token: tok(TokenType::Identifier { content: name.to_string() }) }
}

fn number(text: &str) -> AstExpression {
    AstExpression::NumberLiteral { content: text.to_string(), ty: None, token: tok(TokenType::Number { content: text.to_string() }) }
}

fn assign(name: &str, value: AstExpression) -> AstStatement {
    AstStatement::ModifyVariable { name: name.to_string(), ty: None, value, token: tok(TokenType::Identifier { content: name.to_string() }) }
}

fn function(name: &str, statements: Vec<AstStatement>) -> AstHeader {
    AstHeader::Function { name: path(name), parameters: vec![], return_type: AstType::Int32, code_block: AstCodeBlock { statements } }
}

fn point_struct() -> AstHeader {
    AstHeader::Struct { name: path("Point"), fields: vec![("x".to_string(), AstType::Int32), ("y".to_string(), AstType::Int32)] }
}

fn point_literal() -> AstExpression {
    AstExpression::StructureLiteral {
        name: path("Point"),
        fields: vec![("x".to_string(), number("1")), ("y".to_string(), number("2"))],
        ty: None,
    }
}

fn binds(e: &QIRExpression, name: &str) -> bool {
    match e {
        QIRExpression::StoreToPtr { receiver, output_type: QIRType::Ptr, .. } => {
            matches!(&**receiver, QIRExpression::GetLocalPtr { local } if local.name == name)
        },
        _ => false,
    }
}

fn refs(block: &[QIRExpression], name: &str) -> i64 {
    let mut n = 0;
    for (i, e) in block.iter().enumerate() {
        match e {
            QIRExpression::Retain { .. } => {
                if i + 1 < block.len() && binds(&block[i + 1], name) {
                    n += 1;
                }
            },
            QIRExpression::Release { ptr } => {
                if let QIRExpression::LoadFromPtr { ptr: inner } = &**ptr {
                    match &**inner {
                        QIRExpression::GetLocalPtr { local } if local.name == name => n -= 1,
                        QIRExpression::GetTemporaryPtr { index: 1 } if i > 0 && binds(&block[i - 1], name) => n -= 1,
                        _ => {},
                    }
                }
            },
            _ => {},
        }
    }
    n
}

fn built_structure(e: &QIRExpression) -> &Vec<QIRExpression> {
    match e {
        QIRExpression::BuildStructure { operations, .. } => &operations.exprs,
        other => panic!("unexpected {:?}", other),
    }
}

fn field_indices(ops: &[QIRExpression]) -> Vec<usize> {
    ops.iter()
        .filter_map(|e| match e {
            QIRExpression::StoreToPtr { receiver, .. } => match &**receiver {
                QIRExpression::GetFieldPtr { field, .. } => Some(*field),
                _ => None,
            },
            _ => None,
        })
        .collect()
}

#[test]
fn empty_main_lowers_to_an_empty_function() {
    let mut headers = vec![function("main", vec![])];
    let (ir, diags) = compile(&mut headers);
    assert!(diags.is_empty());
    assert_eq!(ir.len(), 1);
    match &ir[0] {
        QIRHeader::Function { name, parameters, return_type, code_block } => {
            assert_eq!(name.name, "main");
            assert!(parameters.is_empty());
            assert_eq!(*return_type, QIRType::Int32);
            assert!(code_block.exprs.is_empty());
        },
        other => panic!("unexpected {:?}", other),
    }
}

#[test]
fn structure_layout_has_two_header_fields() {
    let fields = vec![
        ("a".to_string(), AstType::Float64),
        ("b".to_string(), AstType::ArrayOf(Box::new(AstType::Int32))),
        ("c".to_string(), AstType::Int64),
    ];
    let layout = struct_layout(&fields);
    assert_eq!(layout, vec![QIRType::Int32, QIRType::Int32, QIRType::Float64, QIRType::Ptr, QIRType::Int64]);
    let mut headers = vec![point_struct()];
    let (ir, diags) = compile(&mut headers);
    assert!(diags.is_empty());
    match &ir[0] {
        QIRHeader::Struct { name, fields } => {
            assert_eq!(name.name, "Point");
            assert_eq!(*fields, vec![QIRType::Int32, QIRType::Int32, QIRType::Int32, QIRType::Int32]);
        },
        other => panic!("unexpected {:?}", other),
    }
}

#[test]
fn source_types_map_to_physical_types() {
    assert_eq!(lower_type(&AstType::Float32), QIRType::Float32);
    assert_eq!(lower_type(&AstType::Structure(path("Point"))), QIRType::Ptr);
    assert_eq!(lower_type(&AstType::UnionOf(Box::new(AstType::Int32), Box::new(AstType::Int64))), QIRType::Ptr);
    assert_eq!(lower_type(&AstType::Void), QIRType::Void);
}

#[test]
fn operators_route_by_operand_type() {
    let mut headers = vec![function(
        "main",
        vec![
            assign("a", AstExpression::Binary { op: BinaryOp::Add, ty: None, left: Box::new(number("1")), right: Box::new(number("2")), op_tok: tok(TokenType::Plus) }),
            assign("b", AstExpression::Binary { op: BinaryOp::Add, ty: None, left: Box::new(number("1.5")), right: Box::new(number("2.5")), op_tok: tok(TokenType::Plus) }),
        ],
    )];
    let (ir, diags) = compile(&mut headers);
    assert!(diags.is_empty());
    let body = match &ir[0] {
        QIRHeader::Function { code_block, .. } => &code_block.exprs,
        other => panic!("unexpected {:?}", other),
    };
    assert_eq!(body.len(), 2);
    let operand_types: Vec<QIRType> = body
        .iter()
        .map(|e| match e {
            QIRExpression::StoreToPtr { new_value, .. } => match &**new_value {
                QIRExpression::RuntimeCall { op, operand_type, arguments, return_type } => {
                    assert_eq!(*op, BinaryOp::Add);
                    assert_eq!(arguments.len(), 2);
                    assert_eq!(operand_type, return_type);
                    *operand_type
                },
                other => panic!("unexpected {:?}", other),
            },
            other => panic!("unexpected {:?}", other),
        })
        .collect();
    assert_eq!(operand_types, vec![QIRType::Int32, QIRType::Float32]);
}

#[test]
fn structure_literal_allocates_then_stores_fields() {
    let mut headers = vec![point_struct(), function("main", vec![assign("p", point_literal())])];
    let (ir, diags) = compile(&mut headers);
    assert!(diags.is_empty());
    let body = match &ir[1] {
        QIRHeader::Function { code_block, .. } => &code_block.exprs,
        other => panic!("unexpected {:?}", other),
    };
    assert_eq!(body.len(), 4);
    let value = match &body[0] {
        QIRExpression::StoreToPtr { receiver, new_value, .. } => {
            assert!(matches!(**receiver, QIRExpression::GetTemporaryPtr { index: 0 }));
            &**new_value
        },
        other => panic!("unexpected {:?}", other),
    };
    let ops = built_structure(value);
    match &ops[0] {
        QIRExpression::StoreToPtr { new_value, .. } => match &**new_value {
            QIRExpression::InstantiateStructure { name, type_id, reference_count } => {
                assert_eq!(name.name, "Point");
                assert_eq!(*type_id, 0);
                assert_eq!(*reference_count, 1);
            },
            other => panic!("unexpected {:?}", other),
        },
        other => panic!("unexpected {:?}", other),
    }
    assert_eq!(ops.iter().filter(|e| matches!(e, QIRExpression::StoreToPtr { new_value, .. } if matches!(**new_value, QIRExpression::InstantiateStructure { .. }))).count(), 1);
    assert_eq!(field_indices(&ops[1..]), vec![2, 3]);
    assert!(matches!(body[1], QIRExpression::Retain { .. }));
    assert!(matches!(&body[2], QIRExpression::StoreToPtr { receiver, .. } if matches!(&**receiver, QIRExpression::GetLocalPtr { local } if local.name == "p")));
    assert!(matches!(body[3], QIRExpression::Release { .. }));
    assert_eq!(refs(body, "p"), 0);
}

#[test]
fn fields_are_stored_by_declared_name() {
    let swapped = AstExpression::StructureLiteral {
        name: path("Point"),
        fields: vec![("y".to_string(), number("1")), ("x".to_string(), number("2"))],
        ty: None,
    };
    let mut headers = vec![point_struct(), function("main", vec![assign("p", swapped)])];
    let (ir, diags) = compile(&mut headers);
    assert!(diags.is_empty());
    let body = match &ir[1] {
        QIRHeader::Function { code_block, .. } => &code_block.exprs,
        other => panic!("unexpected {:?}", other),
    };
    let value = match &body[0] {
        QIRExpression::StoreToPtr { new_value, .. } => &**new_value,
        other => panic!("unexpected {:?}", other),
    };
    assert_eq!(field_indices(&built_structure(value)[1..]), vec![3, 2]);
}

#[test]
fn rebinding_retains_then_releases_then_stores() {
    let mut headers = vec![point_struct(), function("main", vec![assign("p", point_literal()), assign("p", AstExpression::VariableLiteral { content: "p".to_string(), ty: None, token: tok(TokenType::Identifier { content: "p".to_string() }) })])];
    let (ir, diags) = compile(&mut headers);
    assert!(diags.is_empty());
    let body = match &ir[1] {
        QIRHeader::Function { code_block, .. } => &code_block.exprs,
        other => panic!("unexpected {:?}", other),
    };
    assert_eq!(body.len(), 9);
    assert!(matches!(&body[3], QIRExpression::StoreToPtr { receiver, .. } if matches!(**receiver, QIRExpression::GetTemporaryPtr { index: 0 })));
    assert!(matches!(&body[4], QIRExpression::StoreToPtr { receiver, .. } if matches!(**receiver, QIRExpression::GetTemporaryPtr { index: 1 })));
    assert!(matches!(body[5], QIRExpression::Retain { .. }));
    assert!(binds(&body[6], "p"));
    assert!(matches!(&body[7], QIRExpression::Release { ptr } if matches!(&**ptr, QIRExpression::LoadFromPtr { ptr: inner } if matches!(**inner, QIRExpression::GetTemporaryPtr { index: 1 }))));
    assert!(matches!(body[8], QIRExpression::Release { .. }));
    assert_eq!(refs(body, "p"), 0);
}

#[test]
fn structure_literal_lowers_as_an_argument() {
    let headers_fn = AstHeader::Function {
        name: path("show"),
        parameters: vec![(AstType::Structure(path("Point")), "v".to_string())],
        return_type: AstType::Int32,
        code_block: AstCodeBlock { statements: vec![] },
    };
    let call = AstExpression::Invoke {
        receiver: Box::new(AstExpression::VariableLiteral { content: "show".to_string(), ty: None, token: tok(TokenType::Identifier { content: "show".to_string() }) }),
        arguments: vec![point_literal()],
        return_type: None,
        open_paren_tok: tok(TokenType::OpenParen),
        close_paren_tok: tok(TokenType::CloseParen),
        resolve_as_ufcs: false,
    };
    let mut headers = vec![point_struct(), headers_fn, function("main", vec![AstStatement::Expression(call)])];
    let (ir, diags) = compile(&mut headers);
    assert!(diags.is_empty());
    let body = match &ir[2] {
        QIRHeader::Function { code_block, .. } => &code_block.exprs,
        other => panic!("unexpected {:?}", other),
    };
    match &body[0] {
        QIRExpression::Invoke { arguments, .. } => {
            assert_eq!(field_indices(&built_structure(&arguments[0])[1..]), vec![2, 3]);
        },
        other => panic!("unexpected {:?}", other),
    }
}

#[test]
fn branch_paths_balance_reference_counts() {
    let branch = AstStatement::IfStatement {
        cond: number("1"),
        if_true: AstCodeBlock { statements: vec![assign("q", point_literal()), assign("p", point_literal())] },
        if_false: AstCodeBlock { statements: vec![] },
    };
    let mut headers = vec![point_struct(), function("main", vec![assign("p", point_literal()), branch])];
    let (ir, diags) = compile(&mut headers);
    assert!(diags.is_empty());
    let body = match &ir[1] {
        QIRHeader::Function { code_block, .. } => &code_block.exprs,
        other => panic!("unexpected {:?}", other),
    };
    let (if_true, if_false, continuation) = match body.last().unwrap() {
        QIRExpression::BranchIf { if_true, if_false, continuation, .. } => (&if_true.exprs, &if_false.exprs, &continuation.exprs),
        other => panic!("unexpected {:?}", other),
    };
    assert_eq!(refs(if_true, "p"), 0);
    assert_eq!(refs(if_true, "q"), 0);
    assert_eq!(refs(if_false, "p"), 0);
    assert!(matches!(if_true.last(), Some(QIRExpression::JumpToContinuation)));
    assert!(matches!(if_false.last(), Some(QIRExpression::JumpToContinuation)));
    assert_eq!(refs(&body[..body.len() - 1], "p") + refs(continuation, "p"), 0);
    assert!(if_true.iter().any(|e| matches!(e, QIRExpression::Release { .. })));
}

#[test]
fn loop_body_jumps_back_and_balances() {
    let lp = AstStatement::WhileStatement {
        cond: number("1"),
        do_true: AstCodeBlock { statements: vec![assign("p", point_literal())] },
    };
    let mut headers = vec![point_struct(), function("main", vec![lp])];
    let (ir, diags) = compile(&mut headers);
    assert!(diags.is_empty());
    let body = match &ir[1] {
        QIRHeader::Function { code_block, .. } => &code_block.exprs,
        other => panic!("unexpected {:?}", other),
    };
    assert_eq!(body.len(), 1);
    let header = match &body[0] {
        QIRExpression::GotoBlock { block } => &block.exprs,
        other => panic!("unexpected {:?}", other),
    };
    match &header[0] {
        QIRExpression::BranchIf { if_true, if_false, .. } => {
            assert!(matches!(if_true.exprs.last(), Some(QIRExpression::LoopBack)));
            assert!(matches!(if_false.exprs.last(), Some(QIRExpression::JumpToContinuation)));
            assert_eq!(refs(&if_true.exprs, "p"), 0);
        },
        other => panic!("unexpected {:?}", other),
    }
}

#[test]
fn unsupported_expression_lowers_to_invalid() {
    let mut diags = Vec::new();
    let q = lower_expression(&AstExpression::PathLiteral(path("a::b")), &TypeInformation::new(), &mut diags);
    assert!(matches!(q, QIRExpression::Invalid));
    assert_eq!(diags.len(), 1);
}

#[test]
fn variable_reads_load_through_the_local() {
    let mut diags = Vec::new();
    let v = AstExpression::VariableLiteral { content: "x".to_string(), ty: Some(AstType::Int32), token: tok(TokenType::Identifier { content: "x".to_string() }) };
    match lower_expression(&v, &TypeInformation::new(), &mut diags) {
        QIRExpression::LoadFromPtr { ptr } => match *ptr {
            QIRExpression::GetLocalPtr { local } => assert_eq!(local.name, "x"),
            other => panic!("unexpected {:?}", other),
        },
        other => panic!("unexpected {:?}", other),
    }
    assert!(diags.is_empty());
}

#[test]
fn empty_main_through_each_stage() {
    let mut headers = vec![function("main", vec![])];
    let mut diags = Vec::new();
    let table = gather_all(&headers, &mut diags);
    assert_eq!(table.names.len(), 1);
    assert_eq!(table.names[0].0, "main");
    assert!(matches!(
        &table.names[0].1,
        ProgramType::Function { arguments, return_type: AstType::Int32, .. } if arguments.is_empty()
    ));
    annotate_program(&mut headers, &table, &mut diags);
    assert!(diags.is_empty());
    let ir = lower_program(&headers, &table, &mut diags);
    assert!(diags.is_empty());
    assert!(matches!(
        &ir[..],
        [QIRHeader::Function { return_type: QIRType::Int32, parameters, code_block, .. }]
            if parameters.is_empty() && code_block.exprs.is_empty()
    ));
}
