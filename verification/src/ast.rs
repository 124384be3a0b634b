use vstd::prelude::*;
use crate::span::Span;

verus! {

/// Unary operators of the surface language.
#[derive(Debug, Clone, Copy, PartialEq, Eq)]
pub enum UnaryOpKind {
    Neg,
    Not,
}

/// A unary operator with its position.
#[derive(Debug, Clone, Copy)]
pub struct UnaryOp {
    pub node: UnaryOpKind,
    pub span: Span,
}

/// Binary operators of the surface language.
#[derive(Debug, Clone, Copy, PartialEq, Eq)]
pub enum BinaryOpKind {
    Add,
    Sub,
    Mul,
    Div,
    Pow,
    Less,
    Greater,
    LessEqual,
    GreaterEqual,
    And,
    Or,
    Concat,
    ConcatSpace,
    DoubleEqual,
    NotEqual,
}

/// A binary operator with its position.
#[derive(Debug, Clone, Copy)]
pub struct BinaryOp {
    pub node: BinaryOpKind,
    pub span: Span,
}

/// The text with which an operator is written in source code.
pub open spec fn binary_op_text(op: BinaryOpKind) -> Seq<char> {
    match op {
        BinaryOpKind::Add => "+"@,
        BinaryOpKind::Sub => "-"@,
        BinaryOpKind::Mul => "*"@,
        BinaryOpKind::Div => "/"@,
        BinaryOpKind::Pow => "^"@,
        BinaryOpKind::Less => "<"@,
        BinaryOpKind::Greater => ">"@,
        BinaryOpKind::LessEqual => "<="@,
        BinaryOpKind::GreaterEqual => ">="@,
        BinaryOpKind::And => "&"@,
        BinaryOpKind::Or => "|"@,
        BinaryOpKind::Concat => "@"@,
        BinaryOpKind::ConcatSpace => "@@"@,
        BinaryOpKind::DoubleEqual => "=="@,
        BinaryOpKind::NotEqual => "!="@,
    }
}

impl BinaryOpKind {
    /// The operator as written in source code (e.g. `+`, `<=`, `@`).
    pub fn to_string(&self) -> (s: String)
        ensures
            s@ == binary_op_text(*self),
    {
        let text: &str = match self {
            BinaryOpKind::Add => "+",
            BinaryOpKind::Sub => "-",
            BinaryOpKind::Mul => "*",
            BinaryOpKind::Div => "/",
            BinaryOpKind::Pow => "^",
            BinaryOpKind::Less => "<",
            BinaryOpKind::Greater => ">",
            BinaryOpKind::LessEqual => "<=",
            BinaryOpKind::GreaterEqual => ">=",
            BinaryOpKind::And => "&",
            BinaryOpKind::Or => "|",
            BinaryOpKind::Concat => "@",
            BinaryOpKind::ConcatSpace => "@@",
            BinaryOpKind::DoubleEqual => "==",
            BinaryOpKind::NotEqual => "!=",
        };
        String::from_str(text)
    }
}

/// Literal values. A number literal keeps the digits it was written with:
/// the analysis only needs to know that it is a number.
#[derive(Debug, Clone)]
pub enum LiteralKind {
    Number(String),
    String(String),
    Bool(bool),
}

#[derive(Debug, Clone)]
pub struct Literal {
    pub node: LiteralKind,
    pub span: Span,
}

/// Expressions of the surface language.
#[derive(Debug)]
pub enum ExprKind {
    Literal(Literal),
    Variable(String),
    Block(Vec<Expr>),
    Unary { op: UnaryOp, expr: Box<Expr> },
    Binary { left_expr: Box<Expr>, op: BinaryOp, right_expr: Box<Expr> },
    Assign { target: Box<Expr>, value: Box<Expr> },
    Let { name: String, annotation: Option<String>, value: Box<Expr>, body: Box<Expr> },
    If { condition: Box<Expr>, then_branch: Box<Expr>, else_branch: Option<Box<Expr>> },
    While { condition: Box<Expr>, body: Box<Expr> },
    For { var: String, iterable: Box<Expr>, body: Box<Expr> },
    New { annotation: String, args: Vec<Expr> },
    PropertyAccess { obj: Box<Expr>, property: String },
    MethodCall { obj: Box<Expr>, method: String, args: Vec<Expr> },
    Is { expr: Box<Expr>, annotation: String },
    As { expr: Box<Expr>, annotation: String },
    Call { name: String, args: Vec<Expr> },
}

#[derive(Debug)]
pub struct Expr {
    pub node: ExprKind,
    pub span: Span,
}

/// A parameter: its name and, when annotated, the name of its type.
pub type Param = (String, Option<String>);

/// `inherits Parent(args)` of a type declaration.
#[derive(Debug)]
pub struct InheritInfoKind {
    pub parent_name: String,
    pub args: Option<Vec<Expr>>,
}

#[derive(Debug)]
pub struct InheritInfo {
    pub node: InheritInfoKind,
    pub span: Span,
}

/// A member of a type declaration.
#[derive(Debug)]
pub enum TypeFeaturesKind {
    Attribute { name: String, annotation: Option<String>, default: Option<Expr> },
    Method { name: String, params: Vec<Param>, return_type: Option<String>, body: Expr },
}

#[derive(Debug)]
pub struct TypeFeatures {
    pub node: TypeFeaturesKind,
    pub span: Span,
}

/// A method signature of a protocol declaration.
#[derive(Debug, Clone)]
pub struct ProtocolMethodKind {
    pub name: String,
    pub params: Vec<Param>,
    pub return_type: Option<String>,
}

#[derive(Debug, Clone)]
pub struct ProtocolMethod {
    pub node: ProtocolMethodKind,
    pub span: Span,
}

/// Top-level declarations.
#[derive(Debug)]
pub enum DeclKind {
    Function { name: String, params: Vec<Param>, return_type: Option<String>, body: Expr },
    Type {
        name: String,
        params: Option<Vec<Param>>,
        parent: Option<InheritInfo>,
        features: Vec<TypeFeatures>,
    },
    Protocol { name: String, parents: Option<Vec<String>>, methods: Vec<ProtocolMethod> },
}

#[derive(Debug)]
pub struct Decl {
    pub node: DeclKind,
    pub span: Span,
}

/// A whole program: declarations followed by the entry expression.
#[derive(Debug)]
pub struct ProgramKind {
    pub decls: Option<Vec<Decl>>,
    pub body: Expr,
}

#[derive(Debug)]
pub struct Program {
    pub node: ProgramKind,
    pub span: Span,
}

/// The size of an expression tree: one for each node.
pub open spec fn expr_size(e: Expr) -> nat
    decreases e, 1nat,
{
    1 + match e.node {
        ExprKind::Literal(_) => 0,
        ExprKind::Variable(_) => 0,
        ExprKind::Block(es) => exprs_size(es@),
        ExprKind::Unary { expr, .. } => expr_size(*expr),
        ExprKind::Binary { left_expr, right_expr, .. } => expr_size(*left_expr) + expr_size(*right_expr),
        ExprKind::Assign { target, value } => expr_size(*target) + expr_size(*value),
        ExprKind::Let { value, body, .. } => expr_size(*value) + expr_size(*body),
        ExprKind::If { condition, then_branch, else_branch } => expr_size(*condition) + expr_size(*then_branch)
            + match else_branch { Some(b) => expr_size(*b), None => 0 },
        ExprKind::While { condition, body } => expr_size(*condition) + expr_size(*body),
        ExprKind::For { iterable, body, .. } => expr_size(*iterable) + expr_size(*body),
        ExprKind::New { args, .. } => exprs_size(args@),
        ExprKind::PropertyAccess { obj, .. } => expr_size(*obj),
        ExprKind::MethodCall { obj, args, .. } => expr_size(*obj) + exprs_size(args@),
        ExprKind::Is { expr, .. } => expr_size(*expr),
        ExprKind::As { expr, .. } => expr_size(*expr),
        ExprKind::Call { args, .. } => exprs_size(args@),
    }
}

/// The total size of a list of expressions.
pub open spec fn exprs_size(es: Seq<Expr>) -> nat
    decreases es, 0nat,
{
    if es.len() == 0 {
        0
    } else {
        exprs_size(es.drop_last()) + expr_size(es.last())
    }
}


/// Every element of a list is no larger than the whole list.
pub proof fn lemma_exprs_size_elem(es: Seq<Expr>, i: int)
    requires
        0 <= i < es.len(),
    ensures
        expr_size(es[i]) <= exprs_size(es),
        expr_size(es[i]) >= 1,
    decreases es.len(),
{
    if i == es.len() - 1 {
    } else {
        lemma_exprs_size_elem(es.drop_last(), i);
    }
}

/// The size of a prefix is at most the size of the list.
pub proof fn lemma_exprs_size_prefix(es: Seq<Expr>, k: int)
    requires
        0 <= k <= es.len(),
    ensures
        exprs_size(es.take(k)) + expr_size(es[k]) <= exprs_size(es) || k == es.len(),
        exprs_size(es.take(k)) <= exprs_size(es),
    decreases es.len() - k,
{
    if k == es.len() {
        assert(es.take(k) =~= es);
    } else {
        lemma_exprs_size_prefix(es, k + 1);
        assert(es.take(k + 1).drop_last() =~= es.take(k));
    }
}

/// Which kind of expression `e` is.
pub open spec fn expr_tag(e: Expr) -> int {
    match e.node {
        ExprKind::Literal(_) => 0,
        ExprKind::Variable(_) => 1,
        ExprKind::Block(_) => 2,
        ExprKind::Unary { .. } => 3,
        ExprKind::Binary { .. } => 4,
        ExprKind::Assign { .. } => 5,
        ExprKind::Let { .. } => 6,
        ExprKind::If { .. } => 7,
        ExprKind::While { .. } => 8,
        ExprKind::For { .. } => 9,
        ExprKind::New { .. } => 10,
        ExprKind::PropertyAccess { .. } => 11,
        ExprKind::MethodCall { .. } => 12,
        ExprKind::Is { .. } => 13,
        ExprKind::As { .. } => 14,
        ExprKind::Call { .. } => 15,
    }
}

/// A copy of an expression tree.
pub fn copy_expr(e: &Expr) -> (r: Expr)
    ensures
        r.span == e.span,
        expr_tag(r) == expr_tag(*e),
    decreases expr_size(*e), 1nat,
{
    let node = match &e.node {
        ExprKind::Literal(l) => ExprKind::Literal(l.clone()),
        ExprKind::Variable(n) => ExprKind::Variable(n.clone()),
        ExprKind::Block(es) => ExprKind::Block(copy_exprs(es)),
        ExprKind::Unary { op, expr } => ExprKind::Unary { op: *op, expr: Box::new(copy_expr(expr)) },
        ExprKind::Binary { left_expr, op, right_expr } => ExprKind::Binary {
            left_expr: Box::new(copy_expr(left_expr)),
            op: *op,
            right_expr: Box::new(copy_expr(right_expr)),
        },
        ExprKind::Assign { target, value } => ExprKind::Assign {
            target: Box::new(copy_expr(target)),
            value: Box::new(copy_expr(value)),
        },
        ExprKind::Let { name, annotation, value, body } => ExprKind::Let {
            name: name.clone(),
            annotation: annotation.clone(),
            value: Box::new(copy_expr(value)),
            body: Box::new(copy_expr(body)),
        },
        ExprKind::If { condition, then_branch, else_branch } => ExprKind::If {
            condition: Box::new(copy_expr(condition)),
            then_branch: Box::new(copy_expr(then_branch)),
            else_branch: match else_branch {
                Some(b) => Some(Box::new(copy_expr(b))),
                None => None,
            },
        },
        ExprKind::While { condition, body } => ExprKind::While {
            condition: Box::new(copy_expr(condition)),
            body: Box::new(copy_expr(body)),
        },
        ExprKind::For { var, iterable, body } => ExprKind::For {
            var: var.clone(),
            iterable: Box::new(copy_expr(iterable)),
            body: Box::new(copy_expr(body)),
        },
        ExprKind::New { annotation, args } => ExprKind::New { annotation: annotation.clone(), args: copy_exprs(args) },
        ExprKind::PropertyAccess { obj, property } => ExprKind::PropertyAccess {
            obj: Box::new(copy_expr(obj)),
            property: property.clone(),
        },
        ExprKind::MethodCall { obj, method, args } => ExprKind::MethodCall {
            obj: Box::new(copy_expr(obj)),
            method: method.clone(),
            args: copy_exprs(args),
        },
        ExprKind::Is { expr, annotation } => ExprKind::Is { expr: Box::new(copy_expr(expr)), annotation: annotation.clone() },
        ExprKind::As { expr, annotation } => ExprKind::As { expr: Box::new(copy_expr(expr)), annotation: annotation.clone() },
        ExprKind::Call { name, args } => ExprKind::Call { name: name.clone(), args: copy_exprs(args) },
    };
    Expr { node, span: e.span }
}

/// A copy of a list of expressions.
pub fn copy_exprs(es: &Vec<Expr>) -> (r: Vec<Expr>)
    ensures
        r.len() == es.len(),
    decreases exprs_size(es@), 2nat,
{
    let mut r: Vec<Expr> = Vec::new();
    let mut i: usize = 0;
    while i < es.len()
        invariant
            i <= es.len(),
            r.len() == i,
        decreases es.len() - i,
    {
        proof { lemma_exprs_size_elem(es@, i as int); }
        r.push(copy_expr(&es[i]));
        i = i + 1;
    }
    r
}

/// A copy of a parameter list.
pub fn copy_params(ps: &Vec<Param>) -> (r: Vec<Param>)
    ensures
        r@.len() == ps@.len(),
        forall|i: int| 0 <= i < ps@.len() ==> (#[trigger] r@[i]).0@ == ps@[i].0@ && r@[i].1 == ps@[i].1,
{
    let mut r: Vec<Param> = Vec::new();
    let mut i: usize = 0;
    while i < ps.len()
        invariant
            i <= ps@.len(),
            r@.len() == i,
            forall|j: int| 0 <= j < i ==> (#[trigger] r@[j]).0@ == ps@[j].0@ && r@[j].1 == ps@[j].1,
        decreases ps.len() - i,
    {
        let name = ps[i].0.clone();
        let annotation = match &ps[i].1 {
            Some(t) => Some(t.clone()),
            None => None,
        };
        r.push((name, annotation));
        i = i + 1;
    }
    r
}

/// A copy of a member of a type declaration.
pub fn copy_feature(f: &TypeFeatures) -> (r: TypeFeatures)
    ensures
        r.span == f.span,
        (r.node is Method) == (f.node is Method),
        r.node is Method ==> r.node->Method_params@.len() == f.node->Method_params@.len(),
        r.node is Method ==> r.node->Method_return_type == f.node->Method_return_type,
        r.node is Method ==> (forall|i: int|
            0 <= i < f.node->Method_params@.len() ==> (#[trigger] r.node->Method_params@[i]).0@ == f.node->Method_params@[i].0@
                && r.node->Method_params@[i].1 == f.node->Method_params@[i].1),
        r.node is Method ==> r.node->Method_body.span == f.node->Method_body.span && expr_tag(r.node->Method_body) == expr_tag(
            f.node->Method_body,
        ),
{
    let node = match &f.node {
        TypeFeaturesKind::Attribute { name, annotation, default } => TypeFeaturesKind::Attribute {
            name: name.clone(),
            annotation: annotation.clone(),
            default: match default {
                Some(e) => Some(copy_expr(e)),
                None => None,
            },
        },
        TypeFeaturesKind::Method { name, params, return_type, body } => TypeFeaturesKind::Method {
            name: name.clone(),
            params: copy_params(params),
            return_type: match return_type {
                Some(t) => Some(t.clone()),
                None => None,
            },
            body: copy_expr(body),
        },
    };
    TypeFeatures { node, span: f.span }
}

/// A copy of a declaration.
pub fn copy_decl(d: &Decl) -> (r: Decl)
    ensures
        r.span == d.span,
        (r.node is Function) == (d.node is Function),
        (r.node is Type) == (d.node is Type),
        r.node is Function ==> r.node->Function_return_type == d.node->Function_return_type,
        r.node is Function ==> r.node->Function_params@.len() == d.node->Function_params@.len() && (forall|i: int|
            0 <= i < d.node->Function_params@.len() ==> (#[trigger] r.node->Function_params@[i]).0@ == d.node->Function_params@[i].0@
                && r.node->Function_params@[i].1 == d.node->Function_params@[i].1),
        r.node is Function ==> r.node->Function_body.span == d.node->Function_body.span && expr_tag(r.node->Function_body) == expr_tag(
            d.node->Function_body,
        ),
        r.node is Function ==> r.node->Function_name@ == d.node->Function_name@,
{
    let node = match &d.node {
        DeclKind::Function { name, params, return_type, body } => DeclKind::Function {
            name: name.clone(),
            params: copy_params(params),
            return_type: match return_type {
                Some(t) => Some(t.clone()),
                None => None,
            },
            body: copy_expr(body),
        },
        DeclKind::Type { name, params, parent, features } => {
            let mut fs: Vec<TypeFeatures> = Vec::new();
            let mut i: usize = 0;
            while i < features.len()
                invariant
                    i <= features@.len(),
                decreases features.len() - i,
            {
                fs.push(copy_feature(&features[i]));
                i = i + 1;
            }
            DeclKind::Type {
                name: name.clone(),
                params: match params {
                    Some(ps) => Some(copy_params(ps)),
                    None => None,
                },
                parent: match parent {
                    Some(p) => Some(InheritInfo {
                        node: InheritInfoKind {
                            parent_name: p.node.parent_name.clone(),
                            args: match &p.node.args {
                                Some(a) => Some(copy_exprs(a)),
                                None => None,
                            },
                        },
                        span: p.span,
                    }),
                    None => None,
                },
                features: fs,
            }
        },
        DeclKind::Protocol { name, parents, methods } => DeclKind::Protocol {
            name: name.clone(),
            parents: parents.clone(),
            methods: methods.clone(),
        },
    };
    Decl { node, span: d.span }
}

} // verus!
