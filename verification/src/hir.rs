use vstd::prelude::*;
use crate::ast::{BinaryOp, LiteralKind, UnaryOp};
use crate::span::Span;
use crate::types::TypeId;

verus! {

/// A node of the typed tree, with the type the analysis gave it.
#[derive(Debug)]
pub struct TypedSpanned<T> {
    pub node: T,
    pub ty: TypeId,
    pub span: Span,
}

impl<T> TypedSpanned<T> {
    pub fn new(node: T, ty: TypeId, span: Span) -> (r: Self)
        ensures
            r.node == node,
            r.ty == ty,
            r.span == span,
    {
        Self { node, ty, span }
    }
}

/// A declaration-level node of the typed tree.
#[derive(Debug)]
pub struct DeclSpanned<T> {
    pub node: T,
    pub span: Span,
}

impl<T> DeclSpanned<T> {
    pub fn new(node: T, span: Span) -> (r: Self)
        ensures
            r.node == node,
            r.span == span,
    {
        Self { node, span }
    }
}

/// The typed program handed to the code generator.
#[derive(Debug)]
pub struct TypedProgram {
    pub node: TypedProgramKind,
    pub span: Span,
}

#[derive(Debug)]
pub struct TypedProgramKind {
    pub decls: Option<Vec<TypedDecl>>,
    pub body: TypedExpr,
    pub monomorphized_functions: Vec<TypedDecl>,
    pub monomorphized_types: Vec<TypedDecl>,
    pub monomorphized_methods: Vec<TypedDecl>,
}

pub type TypedDecl = DeclSpanned<TypedDeclKind>;

#[derive(Debug)]
pub enum TypedDeclKind {
    Function { name: String, params: Vec<TypedParam>, return_type: TypeId, body: TypedExpr },
    Type {
        name: String,
        params: Option<Vec<TypedParam>>,
        parent: Option<TypedInheritInfo>,
        features: Vec<TypedTypeFeature>,
        type_id: TypeId,
    },
}

impl DeclSpanned<TypedDeclKind> {
    /// The return type of a typed function declaration.
    pub fn node_return_type(&self) -> (r: TypeId)
        requires
            self.node is Function,
        ensures
            r == self.node->Function_return_type,
    {
        match &self.node {
            TypedDeclKind::Function { return_type, .. } => *return_type,
            TypedDeclKind::Type { type_id, .. } => *type_id,
        }
    }
}

pub type TypedExpr = TypedSpanned<TypedExprKind>;

#[derive(Debug)]
pub enum TypedExprKind {
    Literal(LiteralKind),
    Variable(String),
    New { name: String, args: Vec<TypedExpr> },
    Block(Vec<TypedExpr>),
    Call { name: String, args: Vec<TypedExpr> },
    PropertyAccess { obj: Box<TypedExpr>, property: String },
    MethodCall { obj: Box<TypedExpr>, method: String, args: Vec<TypedExpr> },
    Unary { op: UnaryOp, expr: Box<TypedExpr> },
    Binary { left_expr: Box<TypedExpr>, op: BinaryOp, right_expr: Box<TypedExpr> },
    Is { expr: Box<TypedExpr>, target_type: TypeId },
    As { expr: Box<TypedExpr>, target_type: TypeId },
    Let { name: String, value: Box<TypedExpr>, body: Box<TypedExpr> },
    If { condition: Box<TypedExpr>, then_branch: Box<TypedExpr>, else_branch: Option<Box<TypedExpr>> },
    While { condition: Box<TypedExpr>, body: Box<TypedExpr> },
    For { var: String, iterable: Box<TypedExpr>, body: Box<TypedExpr> },
    Assign { target: Box<TypedExpr>, value: Box<TypedExpr> },
}

pub type TypedTypeFeature = DeclSpanned<TypedTypeFeatureKind>;

#[derive(Debug)]
pub enum TypedTypeFeatureKind {
    Attribute { name: String, type_id: TypeId, default: Option<TypedExpr> },
    Method { name: String, params: Vec<TypedParam>, return_type: TypeId, body: TypedExpr },
}

pub type TypedParam = DeclSpanned<TypedParamKind>;

#[derive(Debug, Clone)]
pub struct TypedParamKind {
    pub name: String,
    pub type_id: TypeId,
}

pub type TypedInheritInfo = DeclSpanned<TypedInheritInfoKind>;

#[derive(Debug)]
pub struct TypedInheritInfoKind {
    pub parent_type: TypeId,
    pub args: Option<Vec<TypedExpr>>,
}

} // verus!
