use vstd::prelude::*;
use crate::hir::{
    DeclSpanned, TypedDecl, TypedDeclKind, TypedExpr, TypedExprKind, TypedInheritInfo, TypedInheritInfoKind, TypedParam,
    TypedParamKind, TypedSpanned, TypedTypeFeature, TypedTypeFeatureKind,
};

verus! {

/// The size of a typed expression tree: one for each node.
pub open spec fn texpr_size(e: TypedExpr) -> nat
    decreases e, 1nat,
{
    1 + match e.node {
        TypedExprKind::Literal(_) => 0,
        TypedExprKind::Variable(_) => 0,
        TypedExprKind::New { args, .. } => texprs_size(args@),
        TypedExprKind::Block(es) => texprs_size(es@),
        TypedExprKind::Call { args, .. } => texprs_size(args@),
        TypedExprKind::PropertyAccess { obj, .. } => texpr_size(*obj),
        TypedExprKind::MethodCall { obj, args, .. } => texpr_size(*obj) + texprs_size(args@),
        TypedExprKind::Unary { expr, .. } => texpr_size(*expr),
        TypedExprKind::Binary { left_expr, right_expr, .. } => texpr_size(*left_expr) + texpr_size(*right_expr),
        TypedExprKind::Is { expr, .. } => texpr_size(*expr),
        TypedExprKind::As { expr, .. } => texpr_size(*expr),
        TypedExprKind::Let { value, body, .. } => texpr_size(*value) + texpr_size(*body),
        TypedExprKind::If { condition, then_branch, else_branch } => texpr_size(*condition) + texpr_size(*then_branch)
            + match else_branch { Some(b) => texpr_size(*b), None => 0 },
        TypedExprKind::While { condition, body } => texpr_size(*condition) + texpr_size(*body),
        TypedExprKind::For { iterable, body, .. } => texpr_size(*iterable) + texpr_size(*body),
        TypedExprKind::Assign { target, value } => texpr_size(*target) + texpr_size(*value),
    }
}

/// The total size of a list of typed expressions.
pub open spec fn texprs_size(es: Seq<TypedExpr>) -> nat
    decreases es, 0nat,
{
    if es.len() == 0 {
        0
    } else {
        texprs_size(es.drop_last()) + texpr_size(es.last())
    }
}

proof fn lemma_texprs_size_elem(es: Seq<TypedExpr>, i: int)
    requires
        0 <= i < es.len(),
    ensures
        texpr_size(es[i]) <= texprs_size(es),
    decreases es.len(),
{
    if i < es.len() - 1 {
        lemma_texprs_size_elem(es.drop_last(), i);
    }
}

/// Which kind of typed expression `e` is.
pub open spec fn texpr_tag(e: TypedExpr) -> int {
    match e.node {
        TypedExprKind::Literal(_) => 0,
        TypedExprKind::Variable(_) => 1,
        TypedExprKind::New { .. } => 2,
        TypedExprKind::Block(_) => 3,
        TypedExprKind::Call { .. } => 4,
        TypedExprKind::PropertyAccess { .. } => 5,
        TypedExprKind::MethodCall { .. } => 6,
        TypedExprKind::Unary { .. } => 7,
        TypedExprKind::Binary { .. } => 8,
        TypedExprKind::Is { .. } => 9,
        TypedExprKind::As { .. } => 10,
        TypedExprKind::Let { .. } => 11,
        TypedExprKind::If { .. } => 12,
        TypedExprKind::While { .. } => 13,
        TypedExprKind::For { .. } => 14,
        TypedExprKind::Assign { .. } => 15,
    }
}

/// `b` copies the node `a`: same kind, type and place.
pub open spec fn texpr_copied(a: TypedExpr, b: TypedExpr) -> bool {
    &&& b.ty == a.ty
    &&& b.span == a.span
    &&& texpr_tag(b) == texpr_tag(a)
}

/// `b` copies the parameters `a`: the same names, types and places.
pub open spec fn params_copied(a: Seq<TypedParam>, b: Seq<TypedParam>) -> bool {
    &&& b.len() == a.len()
    &&& forall|i: int|
        0 <= i < a.len() ==> (#[trigger] b[i]).node.name@ == a[i].node.name@ && b[i].node.type_id == a[i].node.type_id && b[i].span
            == a[i].span
}

/// `b` copies the member `a`: same kind, name, types and place.
pub open spec fn feature_copied(a: TypedTypeFeature, b: TypedTypeFeature) -> bool {
    &&& b.span == a.span
    &&& match (a.node, b.node) {
        (
            TypedTypeFeatureKind::Attribute { name: n1, type_id: t1, default: d1 },
            TypedTypeFeatureKind::Attribute { name: n2, type_id: t2, default: d2 },
        ) => n2@ == n1@ && t2 == t1 && match (d1, d2) {
            (Some(x), Some(y)) => texpr_copied(x, y),
            (None, None) => true,
            _ => false,
        },
        (
            TypedTypeFeatureKind::Method { name: n1, params: p1, return_type: r1, body: b1 },
            TypedTypeFeatureKind::Method { name: n2, params: p2, return_type: r2, body: b2 },
        ) => n2@ == n1@ && params_copied(p1@, p2@) && r2 == r1 && texpr_copied(b1, b2),
        _ => false,
    }
}

/// `b` copies the typed declaration `a`: same kind, name, parameters,
/// types, members and places, and a body of the same kind, type and place.
pub open spec fn decl_copied(a: TypedDecl, b: TypedDecl) -> bool {
    &&& b.span == a.span
    &&& match (a.node, b.node) {
        (
            TypedDeclKind::Function { name: n1, params: p1, return_type: r1, body: b1 },
            TypedDeclKind::Function { name: n2, params: p2, return_type: r2, body: b2 },
        ) => n2@ == n1@ && params_copied(p1@, p2@) && r2 == r1 && texpr_copied(b1, b2),
        (
            TypedDeclKind::Type { name: n1, params: p1, parent: a1, features: f1, type_id: t1 },
            TypedDeclKind::Type { name: n2, params: p2, parent: a2, features: f2, type_id: t2 },
        ) => {
            &&& n2@ == n1@
            &&& t2 == t1
            &&& match (p1, p2) {
                (Some(x), Some(y)) => params_copied(x@, y@),
                (None, None) => true,
                _ => false,
            }
            &&& match (a1, a2) {
                (Some(x), Some(y)) => y.span == x.span && y.node.parent_type == x.node.parent_type,
                (None, None) => true,
                _ => false,
            }
            &&& f2@.len() == f1@.len()
            &&& forall|i: int| 0 <= i < f1@.len() ==> feature_copied(f1@[i], #[trigger] f2@[i])
        },
        _ => false,
    }
}

/// A copy of a typed expression tree.
pub fn copy_typed_expr(e: &TypedExpr) -> (r: TypedExpr)
    ensures
        texpr_copied(*e, r),
    decreases texpr_size(*e), 1nat,
{
    let node = match &e.node {
        TypedExprKind::Literal(l) => TypedExprKind::Literal(l.clone()),
        TypedExprKind::Variable(n) => TypedExprKind::Variable(n.clone()),
        TypedExprKind::New { name, args } => TypedExprKind::New { name: name.clone(), args: copy_typed_exprs(args) },
        TypedExprKind::Block(es) => TypedExprKind::Block(copy_typed_exprs(es)),
        TypedExprKind::Call { name, args } => TypedExprKind::Call { name: name.clone(), args: copy_typed_exprs(args) },
        TypedExprKind::PropertyAccess { obj, property } => TypedExprKind::PropertyAccess {
            obj: Box::new(copy_typed_expr(obj)),
            property: property.clone(),
        },
        TypedExprKind::MethodCall { obj, method, args } => TypedExprKind::MethodCall {
            obj: Box::new(copy_typed_expr(obj)),
            method: method.clone(),
            args: copy_typed_exprs(args),
        },
        TypedExprKind::Unary { op, expr } => TypedExprKind::Unary { op: *op, expr: Box::new(copy_typed_expr(expr)) },
        TypedExprKind::Binary { left_expr, op, right_expr } => TypedExprKind::Binary {
            left_expr: Box::new(copy_typed_expr(left_expr)),
            op: *op,
            right_expr: Box::new(copy_typed_expr(right_expr)),
        },
        TypedExprKind::Is { expr, target_type } => TypedExprKind::Is { expr: Box::new(copy_typed_expr(expr)), target_type: *target_type },
        TypedExprKind::As { expr, target_type } => TypedExprKind::As { expr: Box::new(copy_typed_expr(expr)), target_type: *target_type },
        TypedExprKind::Let { name, value, body } => TypedExprKind::Let {
            name: name.clone(),
            value: Box::new(copy_typed_expr(value)),
            body: Box::new(copy_typed_expr(body)),
        },
        TypedExprKind::If { condition, then_branch, else_branch } => TypedExprKind::If {
            condition: Box::new(copy_typed_expr(condition)),
            then_branch: Box::new(copy_typed_expr(then_branch)),
            else_branch: match else_branch {
                Some(b) => Some(Box::new(copy_typed_expr(b))),
                None => None,
            },
        },
        TypedExprKind::While { condition, body } => TypedExprKind::While {
            condition: Box::new(copy_typed_expr(condition)),
            body: Box::new(copy_typed_expr(body)),
        },
        TypedExprKind::For { var, iterable, body } => TypedExprKind::For {
            var: var.clone(),
            iterable: Box::new(copy_typed_expr(iterable)),
            body: Box::new(copy_typed_expr(body)),
        },
        TypedExprKind::Assign { target, value } => TypedExprKind::Assign {
            target: Box::new(copy_typed_expr(target)),
            value: Box::new(copy_typed_expr(value)),
        },
    };
    TypedSpanned { node, ty: e.ty, span: e.span }
}

/// A copy of a list of typed expressions.
pub fn copy_typed_exprs(es: &Vec<TypedExpr>) -> (r: Vec<TypedExpr>)
    ensures
        r@.len() == es@.len(),
        forall|i: int| 0 <= i < es@.len() ==> texpr_copied(es@[i], #[trigger] r@[i]),
    decreases texprs_size(es@), 2nat,
{
    let mut r: Vec<TypedExpr> = Vec::new();
    let mut i: usize = 0;
    while i < es.len()
        invariant
            i <= es@.len(),
            r@.len() == i,
            forall|k: int| 0 <= k < i ==> texpr_copied(es@[k], #[trigger] r@[k]),
        decreases es.len() - i,
    {
        proof { lemma_texprs_size_elem(es@, i as int); }
        r.push(copy_typed_expr(&es[i]));
        i = i + 1;
    }
    r
}

/// A copy of a list of typed parameters.
pub fn copy_typed_params(ps: &Vec<TypedParam>) -> (r: Vec<TypedParam>)
    ensures
        params_copied(ps@, r@),
{
    let mut r: Vec<TypedParam> = Vec::new();
    let mut i: usize = 0;
    while i < ps.len()
        invariant
            i <= ps@.len(),
            r@.len() == i,
            forall|k: int|
                0 <= k < i ==> (#[trigger] r@[k]).node.name@ == ps@[k].node.name@ && r@[k].node.type_id == ps@[k].node.type_id
                    && r@[k].span == ps@[k].span,
        decreases ps.len() - i,
    {
        r.push(DeclSpanned { node: TypedParamKind { name: ps[i].node.name.clone(), type_id: ps[i].node.type_id }, span: ps[i].span });
        i = i + 1;
    }
    r
}

/// A copy of a member of a typed type declaration.
pub fn copy_typed_feature(f: &TypedTypeFeature) -> (r: TypedTypeFeature)
    ensures
        feature_copied(*f, r),
{
    let node = match &f.node {
        TypedTypeFeatureKind::Attribute { name, type_id, default } => TypedTypeFeatureKind::Attribute {
            name: name.clone(),
            type_id: *type_id,
            default: match default {
                Some(d) => Some(copy_typed_expr(d)),
                None => None,
            },
        },
        TypedTypeFeatureKind::Method { name, params, return_type, body } => TypedTypeFeatureKind::Method {
            name: name.clone(),
            params: copy_typed_params(params),
            return_type: *return_type,
            body: copy_typed_expr(body),
        },
    };
    DeclSpanned { node, span: f.span }
}

/// A copy of a typed declaration.
pub fn copy_typed_decl(d: &TypedDecl) -> (r: TypedDecl)
    ensures
        decl_copied(*d, r),
{
    let node = match &d.node {
        TypedDeclKind::Function { name, params, return_type, body } => TypedDeclKind::Function {
            name: name.clone(),
            params: copy_typed_params(params),
            return_type: *return_type,
            body: copy_typed_expr(body),
        },
        TypedDeclKind::Type { name, params, parent, features, type_id } => {
            let mut fs: Vec<TypedTypeFeature> = Vec::new();
            let mut i: usize = 0;
            while i < features.len()
                invariant
                    i <= features@.len(),
                    fs@.len() == i,
                    forall|k: int| 0 <= k < i ==> feature_copied(features@[k], #[trigger] fs@[k]),
                decreases features.len() - i,
            {
                fs.push(copy_typed_feature(&features[i]));
                i = i + 1;
            }
            let parent_copy: Option<TypedInheritInfo> = match parent {
                Some(p) => Some(
                    DeclSpanned {
                        node: TypedInheritInfoKind {
                            parent_type: p.node.parent_type,
                            args: match &p.node.args {
                                Some(a) => Some(copy_typed_exprs(a)),
                                None => None,
                            },
                        },
                        span: p.span,
                    },
                ),
                None => None,
            };
            TypedDeclKind::Type {
                name: name.clone(),
                params: match params {
                    Some(ps) => Some(copy_typed_params(ps)),
                    None => None,
                },
                parent: parent_copy,
                features: fs,
                type_id: *type_id,
            }
        },
    };
    DeclSpanned { node, span: d.span }
}

/// Copies of the declarations of `v`, in order.
pub fn copy_typed_decls<K>(v: &Vec<(K, TypedDecl)>) -> (r: Vec<TypedDecl>)
    ensures
        r@.len() == v@.len(),
        forall|k: int| 0 <= k < v@.len() ==> decl_copied(v@[k].1, #[trigger] r@[k]),
{
    let mut r: Vec<TypedDecl> = Vec::new();
    let mut i: usize = 0;
    while i < v.len()
        invariant
            i <= v@.len(),
            r@.len() == i,
            forall|k: int| 0 <= k < i ==> decl_copied(v@[k].1, #[trigger] r@[k]),
        decreases v.len() - i,
    {
        r.push(copy_typed_decl(&v[i].1));
        i = i + 1;
    }
    r
}

} // verus!
