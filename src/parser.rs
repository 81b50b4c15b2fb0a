use vstd::prelude::*;

use crate::ast::{AstCodeBlock, AstExpression, AstHeader, AstStatement, AstType, BinaryOp, PathData, TypeModel};
use crate::annotate::unannotated;
use crate::iter::TokenIterator;
use crate::span::Span;
use crate::tokens::{Token, TokenType};

verus! {

broadcast use vstd::std_specs::vec::group_vec_axioms, vstd::seq::group_seq_axioms;

/// What the parser looked for when it found something else.
#[derive(Debug)]
pub enum Expectation {
    Token(TokenType),
    Identifier,
    BaseValue,
    Statement,
    Header,
    FieldOrCloseBrace,
}

/// A syntax error.
#[derive(Debug)]
pub enum ParseError {
    /// `found` is `None` at the end of the tokens.
    Expected { expected: Expectation, found: Option<TokenType>, span: Span },
    /// A statement form the grammar does not have yet, by its keyword.
    NotImplemented { keyword: TokenType, span: Span },
    /// A `.` that is not followed by a call.
    UfcsWithoutCall { span: Span },
}

/// Builds declarations from tokens, collecting syntax errors as it goes.
#[derive(Debug)]
pub struct Parser {
    pub tokens: TokenIterator,
    pub errors: Vec<ParseError>,
}

/// The kinds of punctuation the grammar asks for by name.
enum Punct {
    OpenBrace,
    CloseBrace,
    OpenParen,
    CloseParen,
    Arrow,
    Colon,
    Semicolon,
}

spec fn punct_spec(p: Punct, t: TokenType) -> bool {
    match p {
        Punct::OpenBrace => t is OpenBrace,
        Punct::CloseBrace => t is CloseBrace,
        Punct::OpenParen => t is OpenParen,
        Punct::CloseParen => t is CloseParen,
        Punct::Arrow => t is Arrow,
        Punct::Colon => t is Colon,
        Punct::Semicolon => t is Semicolon,
    }
}

fn punct_matches(p: &Punct, t: &TokenType) -> (r: bool)
    ensures
        r == punct_spec(*p, *t),
{
    match p {
        Punct::OpenBrace => matches!(t, TokenType::OpenBrace),
        Punct::CloseBrace => matches!(t, TokenType::CloseBrace),
        Punct::OpenParen => matches!(t, TokenType::OpenParen),
        Punct::CloseParen => matches!(t, TokenType::CloseParen),
        Punct::Arrow => matches!(t, TokenType::Arrow),
        Punct::Colon => matches!(t, TokenType::Colon),
        Punct::Semicolon => matches!(t, TokenType::Semicolon),
    }
}

fn punct_token(p: &Punct) -> TokenType {
    match p {
        Punct::OpenBrace => TokenType::OpenBrace,
        Punct::CloseBrace => TokenType::CloseBrace,
        Punct::OpenParen => TokenType::OpenParen,
        Punct::CloseParen => TokenType::CloseParen,
        Punct::Arrow => TokenType::Arrow,
        Punct::Colon => TokenType::Colon,
        Punct::Semicolon => TokenType::Semicolon,
    }
}

/// The text of a path read from position `i`: identifiers joined by `::`; any other
/// token in an identifier's place adds no text. Also where the path ends.
pub open spec fn path_parse(v: Seq<Token>, i: int) -> Option<(Seq<char>, int)>
    decreases v.len() - i,
{
    if i < 0 || i >= v.len() {
        None
    } else {
        let part = identifier_text(v[i].token_type);
        if i + 1 < v.len() && v[i + 1].token_type is DoubleColon {
            match path_parse(v, i + 2) {
                Some((rest, end)) => Some((part + seq![':', ':'] + rest, end)),
                None => None,
            }
        } else {
            Some((part, i + 1))
        }
    }
}

/// The text of an identifier token; nothing for another token.
pub open spec fn identifier_text(t: TokenType) -> Seq<char> {
    match t {
        TokenType::Identifier { content } => content@,
        _ => seq![],
    }
}

/// The name of a source type that the grammar builds in.
pub open spec fn builtin_type(name: Seq<char>) -> Option<AstType> {
    if name == seq!['i', '3', '2'] {
        Some(AstType::Int32)
    } else if name == seq!['i', '6', '4'] {
        Some(AstType::Int64)
    } else if name == seq!['f', '3', '2'] {
        Some(AstType::Float32)
    } else if name == seq!['f', '6', '4'] {
        Some(AstType::Float64)
    } else if name == seq!['v', 'o', 'i', 'd'] {
        Some(AstType::Void)
    } else {
        None
    }
}

/// The model of the type a path names.
pub open spec fn named_type(name: Seq<char>) -> TypeModel {
    match builtin_type(name) {
        Some(t) => t@,
        None => TypeModel::Structure(name),
    }
}

/// The type read from position `i`: a path naming a type, and, after a `|`, a second
/// type with which it forms a union. Also where the type ends.
pub open spec fn type_parse(v: Seq<Token>, i: int) -> Option<(TypeModel, int)>
    decreases v.len() - i,
{
    match path_parse(v, i) {
        None => None,
        Some((name, end)) => {
            if i < end && end < v.len() && v[end].token_type is VerticalLine {
                match type_parse(v, end + 1) {
                    Some((other, end2)) => Some((TypeModel::UnionOf(Box::new(named_type(name)), Box::new(other)), end2)),
                    None => None,
                }
            } else {
                Some((named_type(name), end))
            }
        },
    }
}

pub proof fn lemma_path_parse_end(v: Seq<Token>, i: int)
    ensures
        path_parse(v, i) matches Some((_, end)) ==> i < end <= v.len() && (end < v.len() ==> !(
        v[end].token_type is DoubleColon)),
    decreases v.len() - i,
{
    if 0 <= i < v.len() && i + 1 < v.len() && v[i + 1].token_type is DoubleColon {
        lemma_path_parse_end(v, i + 2);
    }
}

/// The fields of a structure read from position `i` up to and with its closing brace:
/// each `name: type;` in order. Also where the closing brace ends.
pub open spec fn field_list_parse(v: Seq<Token>, i: int) -> Option<(Seq<(Seq<char>, TypeModel)>, int)>
    decreases v.len() - i,
{
    if i < 0 || i >= v.len() {
        None
    } else {
        match v[i].token_type {
            TokenType::CloseBrace => Some((seq![], i + 1)),
            TokenType::Identifier { content } => if i + 1 < v.len() && v[i + 1].token_type is Colon {
                match type_parse(v, i + 2) {
                    Some((m, e)) => if i < e < v.len() && v[e].token_type is Semicolon {
                        match field_list_parse(v, e + 1) {
                            Some((rest, end)) => Some((seq![(content@, m)] + rest, end)),
                            None => None,
                        }
                    } else {
                        None
                    },
                    None => None,
                }
            } else {
                None
            },
            _ => None,
        }
    }
}

/// The fields of a parsed structure, as names and type models.
pub open spec fn field_models(fields: Seq<(String, AstType)>) -> Seq<(Seq<char>, TypeModel)> {
    fields.map_values(|f: (String, AstType)| (f.0@, f.1@))
}

pub open spec fn prepend_fields(p: Seq<(Seq<char>, TypeModel)>, r: Option<(Seq<(Seq<char>, TypeModel)>, int)>) -> Option<(Seq<(Seq<char>, TypeModel)>, int)> {
    match r {
        Some((rest, end)) => Some((p + rest, end)),
        None => None,
    }
}

fn text_is(s: &String, literal: &str) -> (r: bool)
    ensures
        r == (s@ == literal@),
{
    *s == literal.to_string()
}

impl Parser {
    /// A parser at the first of `tokens`, with no errors yet.
    pub fn new(tokens: Vec<Token>) -> (r: Parser)
        ensures
            r.wf(),
            r.tokens.vector == tokens,
            r.tokens.index == 0,
            r.errors@.len() == 0,
    {
        Parser { tokens: TokenIterator::new(tokens), errors: Vec::new() }
    }

    /// The cursor stands within the tokens or just past their end.
    pub open spec fn wf(&self) -> bool {
        self.tokens.index <= self.tokens.vector@.len()
    }

    /// Reads the token at the cursor, if any, and moves past it; at the end of the tokens
    /// the cursor stays.
    fn next_token(&mut self) -> (r: Option<Token>)
        requires
            old(self).wf(),
        ensures
            final(self).wf(),
            final(self).tokens.vector == old(self).tokens.vector,
            final(self).errors == old(self).errors,
            if old(self).tokens.index < old(self).tokens.vector@.len() {
                r == Some(old(self).tokens.vector@[old(self).tokens.index as int]) && final(self).tokens.index
                    == old(self).tokens.index + 1
            } else {
                r is None && final(self).tokens.index == old(self).tokens.index
            },
    {
        if self.tokens.index < self.tokens.vector.len() {
            self.tokens.next()
        } else {
            None
        }
    }

    /// `next` is this parser after reading on: the same tokens, a cursor no further
    /// back, and the errors extended.
    pub open spec fn advances_to(&self, next: Parser) -> bool {
        &&& next.wf()
        &&& next.tokens.vector == self.tokens.vector
        &&& self.tokens.index <= next.tokens.index
        &&& self.errors@.len() <= next.errors@.len()
        &&& forall|i: int| 0 <= i < self.errors@.len() ==> next.errors@[i] == #[trigger] self.errors@[i]
    }

    pub open spec fn remaining(&self) -> int {
        self.tokens.vector@.len() - self.tokens.index
    }

    /// Where the tokens end: the span of the last one.
    fn eof_span(&self) -> Span {
        if self.tokens.vector.len() > 0 {
            self.tokens.vector[self.tokens.vector.len() - 1].span.duplicate()
        } else {
            Span { row_start: 0, row_end: 0, column_start: 0, column_end: 0, file_name: String::new() }
        }
    }

    fn push_error(&mut self, e: ParseError)
        requires
            old(self).wf(),
        ensures
            old(self).advances_to(*final(self)),
            final(self).tokens == old(self).tokens,
            final(self).errors@ == old(self).errors@.push(e),
    {
        self.errors.push(e);
        assert(self.errors@.subrange(0, old(self).errors@.len() as int) =~= old(self).errors@);
    }

    /// Reads a token of kind `p`; another token, or none, is an error.
    fn expect(&mut self, p: Punct) -> (r: bool)
        requires
            old(self).wf(),
        ensures
            old(self).advances_to(*final(self)),
            r ==> final(self).tokens.index == old(self).tokens.index + 1,
            old(self).tokens.index < old(self).tokens.vector@.len() ==> final(self).tokens.index
                == old(self).tokens.index + 1,
            r ==> final(self).errors == old(self).errors,
            !r ==> final(self).errors@.len() == old(self).errors@.len() + 1,
            r == (old(self).tokens.index < old(self).tokens.vector@.len() && punct_spec(
                p,
                old(self).tokens.vector@[old(self).tokens.index as int].token_type,
            )),
    {
        match self.next_token() {
            None => {
                let span = self.eof_span();
                self.push_error(ParseError::Expected { expected: Expectation::Token(punct_token(&p)), found: None, span });
                false
            },
            Some(tok) => {
                if punct_matches(&p, &tok.token_type) {
                    assert(self.errors@.subrange(0, old(self).errors@.len() as int) =~= old(self).errors@);
                    true
                } else {
                    self.push_error(
                        ParseError::Expected {
                            expected: Expectation::Token(punct_token(&p)),
                            found: Some(tok.token_type),
                            span: tok.span,
                        },
                    );
                    false
                }
            },
        }
    }

    /// Reads a path `a::b::c`. Ends in an error only at the end of the tokens.
    pub fn parse_identifier(&mut self) -> (r: Result<PathData, ParseError>)
        requires
            old(self).wf(),
        ensures
            old(self).advances_to(*final(self)),
            final(self).errors == old(self).errors,
            match path_parse(old(self).tokens.vector@, old(self).tokens.index as int) {
                None => r matches Err(ParseError::Expected { expected: Expectation::Identifier, found: None, .. }),
                Some((name, end)) => r matches Ok(p) && p.name@ == name && final(self).tokens.index == end && p.token
                    == (if end < old(self).tokens.vector@.len() {
                    old(self).tokens.vector@[old(self).tokens.index as int]
                } else {
                    old(self).tokens.vector@[end - 1]
                }),
            },
    {
        let ghost v = self.tokens.vector@;
        let ghost start = self.tokens.index as int;
        let mut final_identifier = String::new();
        let mut first: Option<Token> = None;
        assert(self.errors@.subrange(0, self.errors@.len() as int) =~= self.errors@);
        loop
            invariant
                self.wf(),
                self.errors@.subrange(0, self.errors@.len() as int) == self.errors@,
                self.tokens.vector@ == v,
                self.errors == old(self).errors,
                old(self).tokens.vector == self.tokens.vector,
                start == old(self).tokens.index,
                start <= self.tokens.index,
                self.tokens.index == start ==> first is None,
                self.tokens.index > start ==> first == Some(v[start]) && start < v.len(),
                path_parse(v, start) == match path_parse(v, self.tokens.index as int) {
                    Some((rest, end)) => Some((final_identifier@ + rest, end)),
                    None => None::<(Seq<char>, int)>,
                },
            decreases v.len() - self.tokens.index,
        {
            let ghost i = self.tokens.index as int;
            let namespace_token = match self.next_token() {
                None => {
                    return Err(
                        ParseError::Expected { expected: Expectation::Identifier, found: None, span: self.eof_span() },
                    );
                },
                Some(t) => t,
            };
            let ghost before = final_identifier@;
            let ghost part = identifier_text(namespace_token.token_type);
            match &namespace_token.token_type {
                TokenType::Identifier { content } => {
                    final_identifier.append(content.as_str());
                },
                _ => {},
            }
            assert(final_identifier@ == before + part);
            let is_path = match self.tokens.peek() {
                None => false,
                Some(next) => matches!(next.token_type, TokenType::DoubleColon),
            };
            if !is_path {
                let token = match first {
                    Some(t) => {
                        if self.tokens.index < self.tokens.vector.len() {
                            t
                        } else {
                            namespace_token
                        }
                    },
                    None => namespace_token,
                };
                assert(before + part + seq![] =~= final_identifier@);
                return Ok(PathData { name: final_identifier, token });
            }
            if first.is_none() {
                first = Some(namespace_token);
            }
            self.next_token();
            final_identifier.append("::");
            proof {
                reveal_strlit("::");
                assert("::"@ =~= seq![':', ':']);
                match path_parse(v, i + 2) {
                    Some((rest, end)) => {
                        assert(before + (part + seq![':', ':'] + rest) =~= final_identifier@ + rest);
                    },
                    None => {},
                }
            }
        }
    }

    /// Reads a type: a base type, or base types joined by `|` into a union.
    pub fn parse_type(&mut self) -> (r: Result<AstType, ParseError>)
        requires
            old(self).wf(),
        ensures
            old(self).advances_to(*final(self)),
            final(self).errors == old(self).errors,
            match type_parse(old(self).tokens.vector@, old(self).tokens.index as int) {
                None => r is Err,
                Some((m, end)) => r matches Ok(t) && t@ == m && final(self).tokens.index == end,
            },
        decreases old(self).remaining(), 2nat,
    {
        self.parse_type_ops()
    }

    /// Reads a base type, then `| type` as often as it follows.
    pub fn parse_type_ops(&mut self) -> (r: Result<AstType, ParseError>)
        requires
            old(self).wf(),
        ensures
            old(self).advances_to(*final(self)),
            final(self).errors == old(self).errors,
            match type_parse(old(self).tokens.vector@, old(self).tokens.index as int) {
                None => r is Err,
                Some((m, end)) => r matches Ok(t) && t@ == m && final(self).tokens.index == end,
            },
        decreases old(self).remaining(), 1nat,
    {
        let ghost v = self.tokens.vector@;
        let ghost start = self.tokens.index as int;
        proof {
            lemma_path_parse_end(v, start);
        }
        let ty = self.parse_base_type()?;
        let is_union = match self.tokens.peek() {
            Some(tok) => matches!(tok.token_type, TokenType::VerticalLine),
            None => false,
        };
        if !is_union {
            return Ok(ty);
        }
        self.next_token();
        let other = self.parse_type()?;
        Ok(AstType::UnionOf(Box::new(ty), Box::new(other)))
    }

    /// Reads a path naming a type: `i32`, `i64`, `f32`, `f64` and `void` are built in;
    /// any other name is a structure.
    pub fn parse_base_type(&mut self) -> (r: Result<AstType, ParseError>)
        requires
            old(self).wf(),
        ensures
            old(self).advances_to(*final(self)),
            final(self).errors == old(self).errors,
            match path_parse(old(self).tokens.vector@, old(self).tokens.index as int) {
                None => r matches Err(ParseError::Expected { expected: Expectation::Identifier, found: None, .. }),
                Some((name, end)) => r is Ok && final(self).tokens.index == end && r->Ok_0@ == named_type(name)
                    && match builtin_type(name) {
                    Some(t) => r == Ok::<AstType, ParseError>(t),
                    None => r matches Ok(AstType::Structure(p)) && p.name@ == name,
                },
            },
        decreases old(self).remaining(), 0nat,
    {
        let identifier = self.parse_identifier()?;
        proof {
            reveal_strlit("i32");
            reveal_strlit("i64");
            reveal_strlit("f32");
            reveal_strlit("f64");
            reveal_strlit("void");
            assert("i32"@ =~= seq!['i', '3', '2']);
            assert("i64"@ =~= seq!['i', '6', '4']);
            assert("f32"@ =~= seq!['f', '3', '2']);
            assert("f64"@ =~= seq!['f', '6', '4']);
            assert("void"@ =~= seq!['v', 'o', 'i', 'd']);
        }
        if text_is(&identifier.name, "i32") {
            Ok(AstType::Int32)
        } else if text_is(&identifier.name, "i64") {
            Ok(AstType::Int64)
        } else if text_is(&identifier.name, "f32") {
            Ok(AstType::Float32)
        } else if text_is(&identifier.name, "f64") {
            Ok(AstType::Float64)
        } else if text_is(&identifier.name, "void") {
            Ok(AstType::Void)
        } else {
            Ok(AstType::Structure(identifier))
        }
    }
}

impl Parser {
    /// Reads an expression.
    pub fn parse_expression(&mut self) -> (r: Result<AstExpression, ParseError>)
        requires
            old(self).wf(),
        ensures
            old(self).advances_to(*final(self)),
            r matches Ok(e) ==> unannotated(e),
        decreases old(self).remaining(), 5nat,
    {
        self.parse_ufcs()
    }

    /// Reads `a.f(b)` as the call `f(a, b)`.
    fn parse_ufcs(&mut self) -> (r: Result<AstExpression, ParseError>)
        requires
            old(self).wf(),
        ensures
            old(self).advances_to(*final(self)),
            r matches Ok(e) ==> unannotated(e),
        decreases old(self).remaining(), 4nat,
    {
        let mut expr = self.parse_factor()?;
        loop
            invariant
                old(self).advances_to(*self),
                unannotated(expr),
            decreases self.remaining(),
        {
            let tok = match self.tokens.peek() {
                Some(tok) => tok,
                None => {
                    return Ok(expr);
                },
            };
            if !matches!(tok.token_type, TokenType::Dot) {
                return Ok(expr);
            }
            self.next_token();
            let rhs = self.parse_factor()?;
            match rhs {
                AstExpression::Invoke { receiver, arguments, return_type, open_paren_tok, close_paren_tok, .. } => {
                    let mut all: Vec<AstExpression> = Vec::new();
                    all.push(expr);
                    let mut rest = arguments;
                    all.append(&mut rest);
                    expr = AstExpression::Invoke {
                        receiver,
                        arguments: all,
                        return_type,
                        open_paren_tok,
                        close_paren_tok,
                        resolve_as_ufcs: true,
                    };
                },
                _ => {
                    self.push_error(ParseError::UfcsWithoutCall { span: tok.span });
                },
            }
            proof {
                assert(self.errors@.subrange(0, old(self).errors@.len() as int) =~= old(self).errors@);
            }
        }
    }

    /// Reads operands joined by `*` or `/`; the right operand is read the same way.
    fn parse_factor(&mut self) -> (r: Result<AstExpression, ParseError>)
        requires
            old(self).wf(),
        ensures
            old(self).advances_to(*final(self)),
            r matches Ok(e) ==> unannotated(e),
        decreases old(self).remaining(), 3nat,
    {
        let mut expr = self.parse_term();
        loop
            invariant
                old(self).advances_to(*self),
                expr matches Ok(e) ==> unannotated(e),
            decreases self.remaining(),
        {
            let tok = match self.tokens.peek() {
                Some(tok) => tok,
                None => {
                    return expr;
                },
            };
            let op = match tok.token_type {
                TokenType::Star => BinaryOp::Mul,
                TokenType::Slash => BinaryOp::Div,
                _ => {
                    return expr;
                },
            };
            self.next_token();
            let rhs = self.parse_factor()?;
            proof {
                assert(self.errors@.subrange(0, old(self).errors@.len() as int) =~= old(self).errors@);
            }
            expr = match expr {
                Ok(lhs) => Ok(AstExpression::Binary { op, ty: None, left: Box::new(lhs), right: Box::new(rhs), op_tok: tok }),
                Err(e) => Err(e),
            };
        }
    }

    /// Reads operands joined by `+` or `-`.
    fn parse_term(&mut self) -> (r: Result<AstExpression, ParseError>)
        requires
            old(self).wf(),
        ensures
            old(self).advances_to(*final(self)),
            r matches Ok(e) ==> unannotated(e),
        decreases old(self).remaining(), 2nat,
    {
        let mut expr = self.parse_postfix_exprs();
        loop
            invariant
                old(self).advances_to(*self),
                expr matches Ok(e) ==> unannotated(e),
            decreases self.remaining(),
        {
            let tok = match self.tokens.peek() {
                Some(tok) => tok,
                None => {
                    return expr;
                },
            };
            let op = match tok.token_type {
                TokenType::Plus => BinaryOp::Add,
                TokenType::Minus => BinaryOp::Sub,
                _ => {
                    return expr;
                },
            };
            self.next_token();
            let rhs = self.parse_postfix_exprs()?;
            proof {
                assert(self.errors@.subrange(0, old(self).errors@.len() as int) =~= old(self).errors@);
            }
            expr = match expr {
                Ok(lhs) => Ok(AstExpression::Binary { op, ty: None, left: Box::new(lhs), right: Box::new(rhs), op_tok: tok }),
                Err(e) => Err(e),
            };
        }
    }

    /// Reads a base value followed by any number of `[index]` and `(arguments)`.
    fn parse_postfix_exprs(&mut self) -> (r: Result<AstExpression, ParseError>)
        requires
            old(self).wf(),
        ensures
            old(self).advances_to(*final(self)),
            r matches Ok(e) ==> unannotated(e),
        decreases old(self).remaining(), 1nat,
    {
        let mut expr = self.parse_base_value()?;
        loop
            invariant
                old(self).advances_to(*self),
                unannotated(expr),
            decreases self.remaining(),
        {
            let tok = match self.tokens.peek() {
                Some(tok) => tok,
                None => {
                    return Ok(expr);
                },
            };
            match tok.token_type {
                TokenType::OpenBracket => {
                    self.next_token();
                    let index_by = self.parse_expression()?;
                    let close = match self.tokens.peek() {
                        None => {
                            return Err(ParseError::Expected {
                                expected: Expectation::Token(TokenType::CloseBracket),
                                found: None,
                                span: self.eof_span(),
                            });
                        },
                        Some(t) => t,
                    };
                    if !matches!(close.token_type, TokenType::CloseBracket) {
                        return Err(ParseError::Expected {
                            expected: Expectation::Token(TokenType::CloseBracket),
                            found: Some(close.token_type),
                            span: close.span,
                        });
                    }
                    self.next_token();
                    expr = AstExpression::Index {
                        ty: None,
                        base: Box::new(expr),
                        other: Box::new(index_by),
                        open_bracket_tok: tok,
                    };
                },
                TokenType::OpenParen => {
                    let ghost start_remaining = self.remaining();
                    self.next_token();
                    let mut arguments: Vec<AstExpression> = Vec::new();
                    loop
                        invariant
                            old(self).advances_to(*self),
                            unannotated(expr),
                            forall|j: int| 0 <= j < arguments@.len() ==> unannotated(#[trigger] arguments@[j]),
                            self.remaining() < start_remaining,
                            start_remaining <= old(self).remaining(),
                        decreases self.remaining(),
                    {
                        if let Some(peeked) = self.tokens.peek() {
                            if matches!(peeked.token_type, TokenType::CloseParen) {
                                break;
                            }
                        }
                        let arg = self.parse_expression()?;
                        arguments.push(arg);
                        match self.tokens.peek() {
                            Some(peeked) => {
                                if !matches!(peeked.token_type, TokenType::Comma) {
                                    break;
                                }
                            },
                            None => {
                                break;
                            },
                        }
                        self.next_token();
                    }
                    let close = match self.tokens.peek() {
                        None => {
                            return Err(ParseError::Expected {
                                expected: Expectation::Token(TokenType::CloseParen),
                                found: None,
                                span: self.eof_span(),
                            });
                        },
                        Some(t) => t,
                    };
                    if !matches!(close.token_type, TokenType::CloseParen) {
                        return Err(ParseError::Expected {
                            expected: Expectation::Token(TokenType::CloseParen),
                            found: Some(close.token_type),
                            span: close.span,
                        });
                    }
                    self.next_token();
                    expr = AstExpression::Invoke {
                        receiver: Box::new(expr),
                        arguments,
                        return_type: None,
                        open_paren_tok: tok,
                        close_paren_tok: close,
                        resolve_as_ufcs: false,
                    };
                },
                _ => {
                    return Ok(expr);
                },
            }
        }
    }

    /// Reads a number or a variable.
    fn parse_base_value(&mut self) -> (r: Result<AstExpression, ParseError>)
        requires
            old(self).wf(),
        ensures
            old(self).advances_to(*final(self)),
            final(self).errors == old(self).errors,
            old(self).tokens.index < old(self).tokens.vector@.len() ==> final(self).tokens.index
                == old(self).tokens.index + 1 && ({
                let t = old(self).tokens.vector@[old(self).tokens.index as int];
                match t.token_type {
                    TokenType::Number { content } => r == Ok::<AstExpression, ParseError>(
                        AstExpression::NumberLiteral { content, ty: None, token: t },
                    ),
                    TokenType::Identifier { content } => r == Ok::<AstExpression, ParseError>(
                        AstExpression::VariableLiteral { content, ty: None, token: t },
                    ),
                    _ => r == Err::<AstExpression, ParseError>(
                        ParseError::Expected { expected: Expectation::BaseValue, found: Some(t.token_type), span: t.span },
                    ),
                }
            }),
            old(self).tokens.index >= old(self).tokens.vector@.len() ==> r is Err,
            r matches Ok(e) ==> unannotated(e),
        decreases old(self).remaining(), 0nat,
    {
        assert(self.errors@.subrange(0, self.errors@.len() as int) =~= self.errors@);
        let tok = match self.next_token() {
            None => {
                return Err(ParseError::Expected { expected: Expectation::BaseValue, found: None, span: self.eof_span() });
            },
            Some(tok) => tok,
        };
        let number = match &tok.token_type {
            TokenType::Number { content } => Some(content.clone()),
            _ => None,
        };
        if let Some(content) = number {
            return Ok(AstExpression::NumberLiteral { content, ty: None, token: tok });
        }
        let name = match &tok.token_type {
            TokenType::Identifier { content } => Some(content.clone()),
            _ => None,
        };
        if let Some(content) = name {
            return Ok(AstExpression::VariableLiteral { content, ty: None, token: tok });
        }
        Err(ParseError::Expected { expected: Expectation::BaseValue, found: Some(tok.token_type), span: tok.span })
    }
}

impl Expectation {
    /// A copy of this expectation.
    pub fn duplicate(&self) -> (r: Expectation)
        ensures
            r == *self,
    {
        match self {
            Expectation::Token(t) => Expectation::Token(t.duplicate()),
            Expectation::Identifier => Expectation::Identifier,
            Expectation::BaseValue => Expectation::BaseValue,
            Expectation::Statement => Expectation::Statement,
            Expectation::Header => Expectation::Header,
            Expectation::FieldOrCloseBrace => Expectation::FieldOrCloseBrace,
        }
    }
}

impl ParseError {
    /// A copy of this error.
    pub fn duplicate(&self) -> (r: ParseError)
        ensures
            r == *self,
    {
        match self {
            ParseError::Expected { expected, found, span } => ParseError::Expected {
                expected: expected.duplicate(),
                found: match found {
                    Some(t) => Some(t.duplicate()),
                    None => None,
                },
                span: span.duplicate(),
            },
            ParseError::NotImplemented { keyword, span } => ParseError::NotImplemented {
                keyword: keyword.duplicate(),
                span: span.duplicate(),
            },
            ParseError::UfcsWithoutCall { span } => ParseError::UfcsWithoutCall { span: span.duplicate() },
        }
    }
}

impl Parser {
    /// Reads a statement: an expression; `loop` and `if` are not in the grammar yet.
    pub fn parse_statement(&mut self) -> (r: Result<AstStatement, ParseError>)
        requires
            old(self).wf(),
        ensures
            old(self).advances_to(*final(self)),
            r matches Ok(st) ==> (st matches AstStatement::Expression(e) && unannotated(e)),
            old(self).tokens.index >= old(self).tokens.vector@.len() ==> r is Err && final(self).tokens.index
                == old(self).tokens.index && final(self).errors == old(self).errors,
            old(self).tokens.index < old(self).tokens.vector@.len() ==> ({
                let t = old(self).tokens.vector@[old(self).tokens.index as int];
                (t.token_type is LoopKeyword || t.token_type is IfKeyword) ==> r == Err::<AstStatement, ParseError>(
                    ParseError::NotImplemented { keyword: t.token_type, span: t.span },
                ) && final(self).tokens.index == old(self).tokens.index && final(self).errors == old(self).errors
            }),
    {
        let tok = match self.tokens.peek() {
            None => {
                return Err(ParseError::Expected { expected: Expectation::Statement, found: None, span: self.eof_span() });
            },
            Some(tok) => tok,
        };
        match tok.token_type {
            TokenType::LoopKeyword => Err(ParseError::NotImplemented { keyword: TokenType::LoopKeyword, span: tok.span }),
            TokenType::IfKeyword => Err(ParseError::NotImplemented { keyword: TokenType::IfKeyword, span: tok.span }),
            _ => Ok(AstStatement::Expression(self.parse_expression()?)),
        }
    }

    /// Reads `{ statement; ... }`. A statement in error is skipped up to its `;`.
    pub fn parse_code_block(&mut self) -> (r: Option<AstCodeBlock>)
        requires
            old(self).wf(),
        ensures
            old(self).advances_to(*final(self)),
            r is None ==> final(self).errors@.len() > old(self).errors@.len(),
            r is Some ==> old(self).tokens.index < final(self).tokens.index
                && old(self).tokens.vector@[old(self).tokens.index as int].token_type is OpenBrace
                && final(self).tokens.vector@[final(self).tokens.index - 1].token_type is CloseBrace,
            r matches Some(b) ==> forall|j: int|
                0 <= j < b.statements@.len() ==> (#[trigger] b.statements@[j] matches AstStatement::Expression(e)
                    && unannotated(e)),
    {
        if !self.expect(Punct::OpenBrace) {
            return None;
        }
        let mut statements: Vec<AstStatement> = Vec::new();
        loop
            invariant
                old(self).advances_to(*self),
                old(self).tokens.index < self.tokens.index,
                old(self).tokens.vector@[old(self).tokens.index as int].token_type is OpenBrace,
                forall|j: int|
                    0 <= j < statements@.len() ==> (#[trigger] statements@[j] matches AstStatement::Expression(e)
                        && unannotated(e)),
            decreases self.remaining(),
        {
            let ghost start = self.tokens.index;
            match self.tokens.peek() {
                Some(peeked) => {
                    if matches!(peeked.token_type, TokenType::CloseBrace) {
                        self.next_token();
                        return Some(AstCodeBlock { statements });
                    }
                    match self.parse_statement() {
                        Ok(stmt) => {
                            statements.push(stmt);
                        },
                        Err(err) => {
                            loop
                                invariant
                                    old(self).advances_to(*self),
                                    start <= self.tokens.index,
                                decreases self.remaining(),
                            {
                                match self.tokens.peek() {
                                    Some(p) => {
                                        if matches!(p.token_type, TokenType::Semicolon) {
                                            break;
                                        }
                                    },
                                    None => {
                                        break;
                                    },
                                }
                                self.next_token();
                            }
                            self.push_error(err);
                        },
                    }
                    if !self.expect(Punct::Semicolon) {
                        return None;
                    }
                },
                None => {
                    self.expect(Punct::CloseBrace);
                    return None;
                },
            }
        }
    }

    /// Reads `name(){...}` after `fn`: a function without parameters, with a return type
    /// after `->` (`Invalid` when it cannot be read) and a body.
    pub fn parse_function(&mut self) -> (r: Option<AstHeader>)
        requires
            old(self).wf(),
        ensures
            old(self).advances_to(*final(self)),
            r matches Some(h) ==> h is Function,
            r is None ==> final(self).errors@.len() > old(self).errors@.len(),
            ({
                let v = old(self).tokens.vector@;
                path_parse(v, old(self).tokens.index as int) matches Some((_, e)) && e + 1 < v.len()
                    && v[e].token_type is OpenParen && v[e + 1].token_type is CloseParen && !(e + 2 < v.len()
                    && v[e + 2].token_type is Arrow) ==> r is None && final(self).errors@.len() == old(
                    self,
                ).errors@.len() + 1
            }),
            r matches Some(AstHeader::Function { name, parameters, .. }) ==> parameters@.len() == 0 && (path_parse(
                old(self).tokens.vector@,
                old(self).tokens.index as int,
            ) matches Some((n, e)) && name.name@ == n && e + 2 < old(self).tokens.vector@.len()
                && old(self).tokens.vector@[e].token_type is OpenParen && old(self).tokens.vector@[e
                + 1].token_type is CloseParen && old(self).tokens.vector@[e + 2].token_type is Arrow),
    {
        let ghost v = self.tokens.vector@;
        let function_name = match self.parse_identifier() {
            Ok(name) => name,
            Err(err) => {
                self.push_error(err);
                return None;
            },
        };
        let ghost e = self.tokens.index as int;
        if !self.expect(Punct::OpenParen) {
            return None;
        }
        if !self.expect(Punct::CloseParen) {
            return None;
        }
        if !self.expect(Punct::Arrow) {
            return None;
        }
        let return_type = match self.parse_type() {
            Ok(t) => t,
            Err(err) => {
                self.push_error(err);
                AstType::Invalid
            },
        };
        let code_block = match self.parse_code_block() {
            Some(b) => b,
            None => {
                return None;
            },
        };
        Some(AstHeader::Function { name: function_name, parameters: Vec::new(), return_type, code_block })
    }

    /// Reads `name { field: type; ... }` after `struct`.
    pub fn parse_struct(&mut self) -> (r: Option<AstHeader>)
        requires
            old(self).wf(),
        ensures
            old(self).advances_to(*final(self)),
            r matches Some(h) ==> h is Struct,
            r is None ==> final(self).errors@.len() == old(self).errors@.len() + 1,
            r matches Some(AstHeader::Struct { name, .. }) ==> (path_parse(
                old(self).tokens.vector@,
                old(self).tokens.index as int,
            ) matches Some((n, _)) && name.name@ == n),
            ({
                let v = old(self).tokens.vector@;
                match path_parse(v, old(self).tokens.index as int) {
                    None => r is None,
                    Some((_, e)) => if e < v.len() && v[e].token_type is OpenBrace {
                        match field_list_parse(v, e + 1) {
                            Some((fs, end)) => r matches Some(AstHeader::Struct { fields, .. }) && field_models(fields@)
                                == fs && final(self).tokens.index == end && final(self).errors == old(self).errors,
                            None => r is None,
                        }
                    } else {
                        r is None
                    },
                }
            }),
    {
        let ghost v = self.tokens.vector@;
        let ghost start = self.tokens.index as int;
        let name = match self.parse_identifier() {
            Ok(name) => name,
            Err(err) => {
                self.push_error(err);
                return None;
            },
        };
        let ghost e0 = self.tokens.index as int;
        assert(path_parse(v, start) matches Some((_, x)) && x == e0);
        if !self.expect(Punct::OpenBrace) {
            return None;
        }
        let ghost e1 = self.tokens.index as int;
        let mut fields: Vec<(String, AstType)> = Vec::new();
        assert(field_models(fields@) =~= Seq::<(Seq<char>, TypeModel)>::empty());
        assert(prepend_fields(field_models(fields@), field_list_parse(v, e1)) =~= field_list_parse(v, e1)) by {
            match field_list_parse(v, e1) {
                Some((rest, end)) => {
                    assert(Seq::<(Seq<char>, TypeModel)>::empty() + rest =~= rest);
                },
                None => {},
            }
        }
        loop
            invariant
                old(self).advances_to(*self),
                v == self.tokens.vector@,
                self.errors == old(self).errors,
                e1 <= self.tokens.index,
                start == old(self).tokens.index,
                path_parse(v, start) matches Some((_, x)) && x == e0,
                0 <= e0 < v.len(),
                v[e0].token_type is OpenBrace,
                e1 == e0 + 1,
                field_list_parse(v, e1) == prepend_fields(field_models(fields@), field_list_parse(v, self.tokens.index as int)),
            ensures
                old(self).advances_to(*self),
                v == self.tokens.vector@,
                self.errors == old(self).errors,
                start == old(self).tokens.index,
                path_parse(v, start) matches Some((_, x)) && x == e0,
                0 <= e0 < v.len(),
                v[e0].token_type is OpenBrace,
                e1 == e0 + 1,
                field_list_parse(v, e1) == prepend_fields(field_models(fields@), field_list_parse(v, self.tokens.index as int)),
                self.tokens.index < v.len() ==> v[self.tokens.index as int].token_type is CloseBrace,
            decreases self.remaining(),
        {
            let ghost i = self.tokens.index as int;
            let ghost before = field_models(fields@);
            let next_tok = match self.tokens.peek() {
                None => {
                    break;
                },
                Some(t) => t,
            };
            let field_name = match &next_tok.token_type {
                TokenType::CloseBrace => {
                    break;
                },
                TokenType::Identifier { content } => content.clone(),
                _ => {
                    self.push_error(
                        ParseError::Expected {
                            expected: Expectation::FieldOrCloseBrace,
                            found: Some(next_tok.token_type),
                            span: next_tok.span,
                        },
                    );
                    return None;
                },
            };
            self.next_token();
            if !self.expect(Punct::Colon) {
                return None;
            }
            let ty = match self.parse_type() {
                Ok(t) => t,
                Err(err) => {
                    self.push_error(err);
                    return None;
                },
            };
            let ghost entry = (field_name@, ty@);
            fields.push((field_name, ty));
            assert(field_models(fields@) =~= before.push(entry));
            let ghost e = self.tokens.index as int;
            if !self.expect(Punct::Semicolon) {
                return None;
            }
            proof {
                match field_list_parse(v, e + 1) {
                    Some((rest, end)) => {
                        assert(before + (seq![entry] + rest) =~= before.push(entry) + rest);
                    },
                    None => {},
                }
            }
        }
        if !self.expect(Punct::CloseBrace) {
            return None;
        }
        proof {
            assert(field_models(fields@) + seq![] =~= field_models(fields@));
        }
        Some(AstHeader::Struct { name, fields })
    }

    /// Reads one declaration: `import path`, `fn ...` or `struct ...`. None at the end of
    /// the tokens, or after an error.
    pub fn parse_header(&mut self) -> (r: Option<AstHeader>)
        requires
            old(self).wf(),
        ensures
            old(self).advances_to(*final(self)),
            r is Some ==> final(self).tokens.index > old(self).tokens.index,
            old(self).tokens.index >= old(self).tokens.vector@.len() ==> r is None && *final(self) == *old(self),
            r is None && old(self).tokens.index < old(self).tokens.vector@.len() ==> final(self).errors@.len() > old(
                self,
            ).errors@.len(),
            old(self).tokens.index < old(self).tokens.vector@.len() ==> ({
                let t = old(self).tokens.vector@[old(self).tokens.index as int];
                match t.token_type {
                    TokenType::ImportKeyword => match path_parse(old(self).tokens.vector@, old(self).tokens.index + 1) {
                        Some((name, _)) => r matches Some(AstHeader::Import(n)) && n@ == name,
                        None => r is None,
                    },
                    TokenType::FnKeyword => r matches Some(h) ==> h is Function,
                    TokenType::StructKeyword => r matches Some(h) ==> h is Struct,
                    _ => r is None && final(self).tokens.index == old(self).tokens.index + 1
                        && final(self).errors@ == old(self).errors@.push(
                        ParseError::Expected { expected: Expectation::Header, found: Some(t.token_type), span: t.span },
                    ),
                }
            }),
    {
        let keyword_tok = match self.next_token() {
            None => {
                return None;
            },
            Some(t) => t,
        };
        match keyword_tok.token_type {
            TokenType::ImportKeyword => match self.parse_identifier() {
                Ok(path) => Some(AstHeader::Import(path.name)),
                Err(err) => {
                    self.push_error(err);
                    None
                },
            },
            TokenType::FnKeyword => self.parse_function(),
            TokenType::StructKeyword => self.parse_struct(),
            _ => {
                self.push_error(
                    ParseError::Expected {
                        expected: Expectation::Header,
                        found: Some(keyword_tok.token_type),
                        span: keyword_tok.span,
                    },
                );
                None
            },
        }
    }

    /// Reads declarations until the tokens end or one cannot be read; in the second case
    /// an error is recorded.
    pub fn parse_to_headers(&mut self) -> (r: Vec<AstHeader>)
        requires
            old(self).wf(),
        ensures
            old(self).advances_to(*final(self)),
            final(self).tokens.index == final(self).tokens.vector@.len() || final(self).errors@.len() > old(
                self,
            ).errors@.len(),
    {
        let mut headers: Vec<AstHeader> = Vec::new();
        loop
            invariant
                old(self).advances_to(*self),
            decreases self.remaining(),
        {
            let ghost before = *self;
            match self.parse_header() {
                Some(h) => {
                    headers.push(h);
                },
                None => {
                    assert(before.errors@.len() >= old(self).errors@.len());
                    return headers;
                },
            }
        }
    }

    /// Reads the whole program: its declarations if no error was found, else every error.
    pub fn parse(&mut self) -> (r: Result<Vec<AstHeader>, Vec<ParseError>>)
        requires
            old(self).wf(),
        ensures
            old(self).advances_to(*final(self)),
            (r is Ok) == (final(self).errors@.len() == 0),
            r is Ok ==> final(self).tokens.index == final(self).tokens.vector@.len(),
            r matches Err(errs) ==> errs@ == final(self).errors@,
    {
        let parsed = self.parse_to_headers();
        if self.errors.len() == 0 {
            Ok(parsed)
        } else {
            let mut errs: Vec<ParseError> = Vec::new();
            let mut i: usize = 0;
            while i < self.errors.len()
                invariant
                    i <= self.errors@.len(),
                    errs@ == self.errors@.subrange(0, i as int),
                decreases self.errors@.len() - i,
            {
                errs.push(self.errors[i].duplicate());
                i = i + 1;
                assert(errs@ =~= self.errors@.subrange(0, i as int));
            }
            assert(errs@ =~= self.errors@);
            Err(errs)
        }
    }
}

} // verus!
