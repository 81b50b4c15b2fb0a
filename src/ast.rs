use vstd::prelude::*;

use crate::span::Span;
use crate::tokens::Token;

verus! {

/// A top-level declaration of a source file.
#[derive(Debug)]
pub enum AstHeader {
    Import(String),
    Function {
        name: PathData,
        parameters: Vec<(AstType, String)>,
        return_type: AstType,
        code_block: AstCodeBlock,
    },
    Struct { name: PathData, fields: Vec<(String, AstType)> },
}

/// A braced sequence of statements.
#[derive(Debug)]
pub struct AstCodeBlock {
    pub statements: Vec<AstStatement>,
}

/// A statement of a function body.
#[derive(Debug)]
pub enum AstStatement {
    Comment(String),
    Expression(AstExpression),
    /// `name = value;`. The slot `ty` receives the variable's type during annotation.
    ModifyVariable { name: String, ty: Option<AstType>, value: AstExpression, token: Token },
    IfStatement { cond: AstExpression, if_true: AstCodeBlock, if_false: AstCodeBlock },
    WhileStatement { cond: AstExpression, do_true: AstCodeBlock },
}

/// A possibly namespaced name (`a::b::c`), with the token it was read from.
#[derive(Debug)]
pub struct PathData {
    pub name: String,
    pub token: Token,
}

/// The arithmetic operators of the source language.
#[derive(Clone, Copy, Debug, PartialEq, Eq, Structural)]
pub enum BinaryOp {
    Add,
    Sub,
    Mul,
    Div,
    Mod,
}

/// An expression. Each slot named `ty` (or `return_type`) starts empty and is
/// written once by the annotator.
#[derive(Debug)]
pub enum AstExpression {
    NumberLiteral { content: String, ty: Option<AstType>, token: Token },
    StringLiteral { content: String, ty: Option<AstType>, token: Token },
    VariableLiteral { content: String, ty: Option<AstType>, token: Token },
    PathLiteral(PathData),
    ArrayLiteral {
        content: Vec<AstExpression>,
        ty: Option<AstType>,
        open_bracket_tok: Token,
        close_bracket_tok: Token,
    },
    StructureLiteral { name: PathData, fields: Vec<(String, AstExpression)>, ty: Option<AstType> },
    TypeLiteral { ty: AstType, token: Token },
    Binary {
        op: BinaryOp,
        ty: Option<AstType>,
        left: Box<AstExpression>,
        right: Box<AstExpression>,
        op_tok: Token,
    },
    Invoke {
        receiver: Box<AstExpression>,
        arguments: Vec<AstExpression>,
        return_type: Option<AstType>,
        open_paren_tok: Token,
        close_paren_tok: Token,
        resolve_as_ufcs: bool,
    },
    Index {
        ty: Option<AstType>,
        base: Box<AstExpression>,
        other: Box<AstExpression>,
        open_bracket_tok: Token,
    },
}

/// A source-level type.
#[derive(Debug)]
pub enum AstType {
    Int32,
    Int64,
    Float32,
    Float64,
    ArrayOf(Box<AstType>),
    Structure(PathData),
    Void,
    Invalid,
    UnionOf(Box<AstType>, Box<AstType>),
}

/// What a source type means: structures are told apart by the text of their
/// name alone, never by where the name was written.
pub enum TypeModel {
    Int32,
    Int64,
    Float32,
    Float64,
    ArrayOf(Box<TypeModel>),
    Structure(Seq<char>),
    Void,
    Invalid,
    UnionOf(Box<TypeModel>, Box<TypeModel>),
}

impl View for AstType {
    type V = TypeModel;

    open spec fn view(&self) -> TypeModel
        decreases self,
    {
        match self {
            AstType::Int32 => TypeModel::Int32,
            AstType::Int64 => TypeModel::Int64,
            AstType::Float32 => TypeModel::Float32,
            AstType::Float64 => TypeModel::Float64,
            AstType::ArrayOf(inner) => TypeModel::ArrayOf(Box::new((**inner).view())),
            AstType::Structure(p) => TypeModel::Structure(p.name@),
            AstType::Void => TypeModel::Void,
            AstType::Invalid => TypeModel::Invalid,
            AstType::UnionOf(a, b) => TypeModel::UnionOf(Box::new((**a).view()), Box::new((**b).view())),
        }
    }
}

impl BinaryOp {
    /// A copy of this operator.
    pub fn duplicate(&self) -> (r: BinaryOp)
        ensures
            r == *self,
    {
        match self {
            BinaryOp::Add => BinaryOp::Add,
            BinaryOp::Sub => BinaryOp::Sub,
            BinaryOp::Mul => BinaryOp::Mul,
            BinaryOp::Div => BinaryOp::Div,
            BinaryOp::Mod => BinaryOp::Mod,
        }
    }
}

impl PathData {
    /// A copy of this path.
    pub fn duplicate(&self) -> (r: PathData)
        ensures
            r == *self,
    {
        PathData { name: self.name.clone(), token: self.token.duplicate() }
    }
}

impl AstType {
    /// A copy of this type.
    pub fn duplicate(&self) -> (r: AstType)
        ensures
            r == *self,
        decreases self,
    {
        match self {
            AstType::Int32 => AstType::Int32,
            AstType::Int64 => AstType::Int64,
            AstType::Float32 => AstType::Float32,
            AstType::Float64 => AstType::Float64,
            AstType::ArrayOf(inner) => AstType::ArrayOf(Box::new(inner.duplicate())),
            AstType::Structure(p) => AstType::Structure(p.duplicate()),
            AstType::Void => AstType::Void,
            AstType::Invalid => AstType::Invalid,
            AstType::UnionOf(a, b) => AstType::UnionOf(Box::new(a.duplicate()), Box::new(b.duplicate())),
        }
    }

    /// Whether two types mean the same: structure names are compared by text.
    pub fn same_as(&self, other: &AstType) -> (r: bool)
        ensures
            r == (self@ == other@),
        decreases self,
    {
        match (self, other) {
            (AstType::Int32, AstType::Int32) => true,
            (AstType::Int64, AstType::Int64) => true,
            (AstType::Float32, AstType::Float32) => true,
            (AstType::Float64, AstType::Float64) => true,
            (AstType::Void, AstType::Void) => true,
            (AstType::Invalid, AstType::Invalid) => true,
            (AstType::ArrayOf(a), AstType::ArrayOf(b)) => a.same_as(b),
            (AstType::Structure(p), AstType::Structure(q)) => p.name == q.name,
            (AstType::UnionOf(a1, b1), AstType::UnionOf(a2, b2)) => {
                let first = a1.same_as(a2);
                if first {
                    b1.same_as(b2)
                } else {
                    false
                }
            },
            _ => {
                proof {
                    assert(self@ != other@);
                }
                false
            },
        }
    }
}

} // verus!
