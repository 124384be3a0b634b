use vstd::prelude::*;
use crate::analyzer::{analyzed, frame, keeps_errors, keeps_types, SemanticAnalyzer};
use crate::ast::{
    binary_op_text, expr_size, exprs_size, lemma_exprs_size_elem, BinaryOp, BinaryOpKind, Expr, ExprKind,
    Literal, LiteralKind, UnaryOp, UnaryOpKind,
};
use crate::context::lookup_in;
use crate::error::{SemanticError, SemanticErrorKind};
use crate::hir::{TypedExpr, TypedExprKind};
use crate::span::Span;
use crate::symbols::{Symbol, SymbolKind, SymbolType};
use crate::types::{join_of, subtype, TypeId};

verus! {

/// `e` is an `InvalidOperatorOperand` error for operator `op`, expecting
/// type `expected` and finding type `found`, at `span`.
pub open spec fn is_operand_error(e: SemanticError, op: Seq<char>, expected: Seq<char>, found: Seq<char>, span: Span) -> bool {
    &&& e.span == span
    &&& e.kind matches SemanticErrorKind::InvalidOperatorOperand { operator, expected: x, found: y }
        && operator@ == op && x@ == expected && y@ == found
}

/// The errors an operator adds when its two operands must both have type
/// `expected`: one for the left operand if it has another type, then one for
/// the right operand if it has another type.
pub open spec fn operand_errors(
    a: SemanticAnalyzer,
    added: Seq<SemanticError>,
    op: BinaryOp,
    l: TypeId,
    r: TypeId,
    expected: TypeId,
    lspan: Span,
    rspan: Span,
) -> bool {
    let lb = l != expected;
    let rb = r != expected;
    &&& added.len() == (if lb { 1int } else { 0 }) + (if rb { 1int } else { 0 })
    &&& lb ==> is_operand_error(added[0], binary_op_text(op.node), a.name_of(expected), a.name_of(l), lspan)
    &&& rb ==> is_operand_error(
        added[if lb { 1int } else { 0 }],
        binary_op_text(op.node),
        a.name_of(expected),
        a.name_of(r),
        rspan,
    )
}

/// Whether `@` or `@@` may join operands of these types: at least one is a
/// string and each is a string or a number.
pub open spec fn concat_ok(a: SemanticAnalyzer, l: TypeId, r: TypeId) -> bool {
    &&& (l == a.string_id() || r == a.string_id())
    &&& (l == a.string_id() || l == a.number_id())
    &&& (r == a.string_id() || r == a.number_id())
}

/// The typing rule of binary operators, given the types of both operands:
/// the type of the result, and the errors the operator adds.
pub open spec fn binary_outcome(
    a: SemanticAnalyzer,
    op: BinaryOp,
    l: TypeId,
    r: TypeId,
    lspan: Span,
    rspan: Span,
    span: Span,
    ty: TypeId,
    added: Seq<SemanticError>,
) -> bool {
    match op.node {
        BinaryOpKind::Add | BinaryOpKind::Sub | BinaryOpKind::Mul | BinaryOpKind::Div | BinaryOpKind::Pow => {
            ty == a.number_id() && operand_errors(a, added, op, l, r, a.number_id(), lspan, rspan)
        },
        BinaryOpKind::Less | BinaryOpKind::Greater | BinaryOpKind::LessEqual | BinaryOpKind::GreaterEqual => {
            ty == a.boolean_id() && operand_errors(a, added, op, l, r, a.number_id(), lspan, rspan)
        },
        BinaryOpKind::And | BinaryOpKind::Or => {
            ty == a.boolean_id() && operand_errors(a, added, op, l, r, a.boolean_id(), lspan, rspan)
        },
        BinaryOpKind::Concat | BinaryOpKind::ConcatSpace => {
            &&& ty == a.string_id()
            &&& added.len() == (if concat_ok(a, l, r) { 0int } else { 1 })
            &&& !concat_ok(a, l, r) ==> {
                &&& added[0].span == lspan.spec_union(rspan)
                &&& added[0].kind matches SemanticErrorKind::InvalidBinaryOperation { operator, left, right }
                    && operator@ == binary_op_text(op.node) && left@ == a.name_of(l) && right@ == a.name_of(r)
            }
        },
        BinaryOpKind::DoubleEqual | BinaryOpKind::NotEqual => {
            let comparable = subtype(a.ctx.types.infos@, l, r, a.ty_count()) || subtype(
                a.ctx.types.infos@,
                r,
                l,
                a.ty_count(),
            );
            &&& ty == a.boolean_id()
            &&& added.len() == (if comparable { 0int } else { 1 })
            &&& !comparable ==> {
                &&& added[0].span == span
                &&& added[0].kind matches SemanticErrorKind::IncomparableTypes { left, right }
                    && left@ == a.name_of(l) && right@ == a.name_of(r)
            }
        },
    }
}

/// How many errors the rule of operator `op` adds for operands of types `l` and `r`.
pub open spec fn binary_error_count(a: SemanticAnalyzer, op: BinaryOp, l: TypeId, r: TypeId) -> int {
    match op.node {
        BinaryOpKind::Add | BinaryOpKind::Sub | BinaryOpKind::Mul | BinaryOpKind::Div | BinaryOpKind::Pow | BinaryOpKind::Less
        | BinaryOpKind::Greater | BinaryOpKind::LessEqual | BinaryOpKind::GreaterEqual => (if l != a.number_id() {
            1int
        } else {
            0
        }) + (if r != a.number_id() {
            1int
        } else {
            0
        }),
        BinaryOpKind::And | BinaryOpKind::Or => (if l != a.boolean_id() {
            1int
        } else {
            0
        }) + (if r != a.boolean_id() {
            1int
        } else {
            0
        }),
        BinaryOpKind::Concat | BinaryOpKind::ConcatSpace => if concat_ok(a, l, r) {
            0
        } else {
            1
        },
        BinaryOpKind::DoubleEqual | BinaryOpKind::NotEqual => if subtype(a.ctx.types.infos@, l, r, a.ty_count()) || subtype(
            a.ctx.types.infos@,
            r,
            l,
            a.ty_count(),
        ) {
            0
        } else {
            1
        },
    }
}

/// The type a unary operator expects (and gives).
pub open spec fn unary_expected(a: SemanticAnalyzer, op: UnaryOp) -> TypeId {
    match op.node {
        UnaryOpKind::Neg => a.number_id(),
        UnaryOpKind::Not => a.boolean_id(),
    }
}

/// The errors the rule of a unary operator adds: one `InvalidUnaryOperation`
/// at `span` when the operand has the wrong type.
pub open spec fn unary_outcome(a: SemanticAnalyzer, op: UnaryOp, inner: TypeId, span: Span, added: Seq<SemanticError>) -> bool {
    &&& added.len() == (if inner != unary_expected(a, op) { 1int } else { 0 })
    &&& inner != unary_expected(a, op) ==> {
        &&& added[0].span == span
        &&& added[0].kind matches SemanticErrorKind::InvalidUnaryOperation { operator, operand } && operator@ == (match op.node {
            UnaryOpKind::Neg => "-"@,
            UnaryOpKind::Not => "!"@,
        }) && operand@ == a.name_of(inner)
    }
}

/// How many errors the rule of `is` or `as` adds.
pub open spec fn check_count(a: SemanticAnalyzer, inner: TypeId, annotation: Seq<char>) -> int {
    match a.ctx.types.spec_resolve(annotation) {
        Some(t) => if related(a, inner, t) {
            0
        } else {
            1
        },
        None => 1,
    }
}

/// The errors the rule of `is` adds: `UnknownType` for an unknown type, else
/// `ImpossibleTypeCheck` for unrelated types, at `span`.
pub open spec fn is_outcome(a: SemanticAnalyzer, inner: TypeId, annotation: Seq<char>, span: Span, added: Seq<SemanticError>) -> bool {
    &&& added.len() == check_count(a, inner, annotation)
    &&& added.len() == 1 ==> added[0].span == span
    &&& match a.ctx.types.spec_resolve(annotation) {
        Some(t) => !related(a, inner, t) ==> (added[0].kind matches SemanticErrorKind::ImpossibleTypeCheck { expr, target }
            && expr@ == a.name_of(inner) && target@ == annotation),
        None => added[0].kind matches SemanticErrorKind::UnknownType { name } && name@ == annotation,
    }
}

/// The errors the rule of `as` adds: `UnknownType` for an unknown type, else
/// `InvalidCast` for unrelated types, at `span`.
pub open spec fn as_outcome(a: SemanticAnalyzer, inner: TypeId, annotation: Seq<char>, span: Span, added: Seq<SemanticError>) -> bool {
    &&& added.len() == check_count(a, inner, annotation)
    &&& added.len() == 1 ==> added[0].span == span
    &&& match a.ctx.types.spec_resolve(annotation) {
        Some(t) => !related(a, inner, t) ==> (added[0].kind matches SemanticErrorKind::InvalidCast { from, to }
            && from@ == a.name_of(inner) && to@ == annotation),
        None => added[0].kind matches SemanticErrorKind::UnknownType { name } && name@ == annotation,
    }
}

/// Whether an expression may be assigned to.
pub open spec fn valid_target(target: Expr) -> bool {
    match target.node {
        ExprKind::Variable(n) => n@ != "self"@,
        ExprKind::PropertyAccess { .. } => true,
        _ => false,
    }
}

/// The type an assignment's value must fit: the target's, `Object` for an invalid target.
pub open spec fn assigned_type(a: SemanticAnalyzer, target: Expr, target_ty: TypeId) -> TypeId {
    if valid_target(target) {
        target_ty
    } else {
        a.object_id()
    }
}

/// How many errors the rule of an assignment adds.
pub open spec fn assign_count(a: SemanticAnalyzer, target: Expr, target_ty: TypeId, value_ty: TypeId) -> int {
    (if valid_target(target) { 0int } else { 1 }) + (if !subtype(
        a.ctx.types.infos@,
        value_ty,
        assigned_type(a, target, target_ty),
        a.ty_count(),
    ) {
        1int
    } else {
        0
    })
}

/// The errors the rule of an assignment adds: `InvalidAssignmentTarget` at
/// the target, then `TypeMismatch` at the value when it does not fit.
pub open spec fn assign_outcome(
    a: SemanticAnalyzer,
    target: Expr,
    target_ty: TypeId,
    value_ty: TypeId,
    value_span: Span,
    added: Seq<SemanticError>,
) -> bool {
    let t = assigned_type(a, target, target_ty);
    &&& added.len() == assign_count(a, target, target_ty, value_ty)
    &&& !valid_target(target) ==> added[0].span == target.span && added[0].kind is InvalidAssignmentTarget
    &&& !subtype(a.ctx.types.infos@, value_ty, t, a.ty_count()) ==> {
        let e = added[added.len() - 1];
        &&& e.span == value_span
        &&& e.kind matches SemanticErrorKind::TypeMismatch { expected, found } && expected@ == a.name_of(t) && found@ == a.name_of(
            value_ty,
        )
    }
}

/// The typed node has the form of the expression it comes from (a `for`
/// loop becomes the `let` of its iterator).
pub open spec fn mirrors(e: Expr, r: TypedExpr) -> bool {
    match e.node {
        ExprKind::Literal(_) => r.node is Literal,
        ExprKind::Variable(_) => r.node is Variable,
        ExprKind::Block(_) => r.node is Block,
        ExprKind::Unary { .. } => r.node is Unary,
        ExprKind::Binary { .. } => r.node is Binary,
        ExprKind::Assign { .. } => r.node is Assign,
        ExprKind::Let { .. } => r.node is Let,
        ExprKind::If { .. } => r.node is If,
        ExprKind::While { .. } => r.node is While,
        ExprKind::For { .. } => r.node is Let,
        ExprKind::New { .. } => r.node is New,
        ExprKind::PropertyAccess { .. } => r.node is PropertyAccess,
        ExprKind::MethodCall { .. } => r.node is MethodCall,
        ExprKind::Is { .. } => r.node is Is,
        ExprKind::As { .. } => r.node is As,
        ExprKind::Call { .. } => r.node is Call,
    }
}

/// Expressions of the same kind are mirrored by the same typed expressions.
pub proof fn lemma_mirrors_same_tag(a: Expr, b: Expr, t: TypedExpr)
    requires
        crate::ast::expr_tag(a) == crate::ast::expr_tag(b),
    ensures
        mirrors(a, t) == mirrors(b, t),
{
}

/// The type of a literal: `Number`, `String` or `Boolean`.
pub open spec fn literal_type(a: SemanticAnalyzer, lit: Literal) -> TypeId {
    match lit.node {
        LiteralKind::Number(_) => a.number_id(),
        LiteralKind::String(_) => a.string_id(),
        LiteralKind::Bool(_) => a.boolean_id(),
    }
}

impl SemanticAnalyzer {
    /// The type of a literal: `Number`, `String` or `Boolean`.
    pub fn analyze_literal(&mut self, lit: &Literal, span: Span) -> (r: TypedExpr)
        requires
            old(self).wf(),
        ensures
            *final(self) == *old(self),
            r.ty == literal_type(*old(self), *lit),
            r.ty.0 < old(self).ty_count(),
            r.node is Literal,
            r.span == span,
    {
        let type_id = match lit.node {
            LiteralKind::Number(_) => self.resolve_builtin("Number"),
            LiteralKind::String(_) => self.resolve_builtin("String"),
            LiteralKind::Bool(_) => self.resolve_builtin("Boolean"),
        };
        TypedExpr::new(TypedExprKind::Literal(lit.node.clone()), type_id, span)
    }

    /// The type of a variable: that of the symbol it names. A name that no
    /// scope declares gives `UndefinedVariable`, a function `NotAVariable`;
    /// both give `Object`.
    pub fn analyze_variable(&mut self, name: &str, span: Span) -> (r: TypedExpr)
        requires
            old(self).wf(),
        ensures
            final(self).ctx == old(self).ctx,
            r.span == span,
            r.node is Variable,
            r.ty.0 < old(self).ty_count(),
            match old(self).ctx.spec_lookup(name@) {
                Some(sym) => match sym.ty {
                    SymbolType::Variable(t) => r.ty == t && final(self).diagnostics@ == old(self).diagnostics@,
                    _ => {
                        &&& r.ty == old(self).object_id()
                        &&& final(self).diagnostics@.len() == old(self).diagnostics@.len() + 1
                        &&& final(self).diagnostics@.drop_last() == old(self).diagnostics@
                        &&& final(self).diagnostics@.last().span == span
                        &&& final(self).diagnostics@.last().kind matches SemanticErrorKind::NotAVariable { name: n } && n@ == name@
                    },
                },
                None => {
                    &&& r.ty == old(self).object_id()
                    &&& final(self).diagnostics@.len() == old(self).diagnostics@.len() + 1
                    &&& final(self).diagnostics@.drop_last() == old(self).diagnostics@
                    &&& final(self).diagnostics@.last().span == span
                    &&& final(self).diagnostics@.last().kind matches SemanticErrorKind::UndefinedVariable { name: n } && n@ == name@
                },
            },
    {
        let found: Option<TypeId> = match self.ctx.lookup(name) {
            Some(symbol) => match symbol.ty {
                SymbolType::Variable(type_id) => Some(type_id),
                _ => None,
            },
            None => None,
        };
        let type_id = match found {
            Some(t) => t,
            None => {
                let object = self.resolve_builtin("Object");
                if self.ctx.lookup(name).is_some() {
                    self.report(SemanticErrorKind::NotAVariable { name: String::from_str(name) }, span);
                } else {
                    self.report(SemanticErrorKind::UndefinedVariable { name: String::from_str(name) }, span);
                }
                object
            },
        };
        TypedExpr::new(TypedExprKind::Variable(String::from_str(name)), type_id, span)
    }

    /// The rule of a unary operator, once its operand is typed: `-` gives a
    /// `Number` and wants one, `!` gives a `Boolean` and wants one; a wrong
    /// operand adds one `InvalidUnaryOperation`.
    pub fn unary_rule(&mut self, op: &UnaryOp, inner: TypedExpr, span: Span) -> (r: TypedExpr)
        requires
            old(self).wf(),
            inner.ty.0 < old(self).ty_count(),
        ensures
            final(self).ctx == old(self).ctx,
            r.span == span,
            r.node is Unary,
            r.node->Unary_expr.ty == inner.ty,
            r.ty.0 < old(self).ty_count(),
            ({
                let expected = match op.node {
                    UnaryOpKind::Neg => old(self).number_id(),
                    UnaryOpKind::Not => old(self).boolean_id(),
                };
                &&& r.ty == expected
                &&& inner.ty == expected ==> final(self).diagnostics@ == old(self).diagnostics@
                &&& inner.ty != expected ==> {
                    &&& final(self).diagnostics@.drop_last() == old(self).diagnostics@
                    &&& final(self).diagnostics@.len() == old(self).diagnostics@.len() + 1
                    &&& final(self).diagnostics@.last().span == span
                    &&& final(self).diagnostics@.last().kind matches SemanticErrorKind::InvalidUnaryOperation {
                        operator,
                        operand,
                    } && operator@ == (match op.node {
                        UnaryOpKind::Neg => "-"@,
                        UnaryOpKind::Not => "!"@,
                    }) && operand@ == old(self).name_of(inner.ty)
                }
            }),
    {
        let number_type = self.resolve_builtin("Number");
        let boolean_type = self.resolve_builtin("Boolean");
        let type_id = match op.node {
            UnaryOpKind::Neg => {
                if inner.ty != number_type {
                    let operand = self.type_label(inner.ty);
                    self.report(
                        SemanticErrorKind::InvalidUnaryOperation { operator: String::from_str("-"), operand },
                        span,
                    );
                }
                number_type
            },
            UnaryOpKind::Not => {
                if inner.ty != boolean_type {
                    let operand = self.type_label(inner.ty);
                    self.report(
                        SemanticErrorKind::InvalidUnaryOperation { operator: String::from_str("!"), operand },
                        span,
                    );
                }
                boolean_type
            },
        };
        TypedExpr::new(TypedExprKind::Unary { op: *op, expr: Box::new(inner) }, type_id, span)
    }

    /// Adds an `InvalidOperatorOperand` when an operand's type is not the expected one.
    fn enforce_type(&mut self, current: TypeId, expected: TypeId, span: Span, op: &BinaryOp)
        requires
            old(self).wf(),
            current.0 < old(self).ty_count(),
            expected.0 < old(self).ty_count(),
        ensures
            final(self).ctx == old(self).ctx,
            current == expected ==> final(self).diagnostics@ == old(self).diagnostics@,
            current != expected ==> final(self).diagnostics@.len() == old(self).diagnostics@.len() + 1
                && final(self).diagnostics@.drop_last() == old(self).diagnostics@
                && is_operand_error(
                final(self).diagnostics@.last(),
                binary_op_text(op.node),
                old(self).name_of(expected),
                old(self).name_of(current),
                span,
            ),
    {
        if current != expected {
            let exp = self.type_label(expected);
            let found = self.type_label(current);
            self.report(
                SemanticErrorKind::InvalidOperatorOperand { operator: op.node.to_string(), expected: exp, found },
                span,
            );
        }
    }
}


/// The errors after the first `m` of `d`.
pub open spec fn tail_from(d: Seq<SemanticError>, m: int) -> Seq<SemanticError> {
    d.subrange(m, d.len() as int)
}

/// `d` has one more error than `before`: at `span`, of kind `k`.
pub open spec fn one_more(before: Seq<SemanticError>, d: Seq<SemanticError>, span: Span) -> bool {
    &&& d.len() == before.len() + 1
    &&& d.drop_last() =~= before
    &&& d.last().span == span
}

/// `InvalidConditionType` (`is_while` false) or `InvalidWhileCondition`
/// (`is_while` true) naming type `found`, at `span`.
pub open spec fn invalid_condition(found: Seq<char>, span: Span, is_while: bool) -> spec_fn(crate::error::SemanticError) -> bool {
    |e: crate::error::SemanticError| e.span == span && if is_while {
        e.kind matches SemanticErrorKind::InvalidWhileCondition { found: f } && f@ == found
    } else {
        e.kind matches SemanticErrorKind::InvalidConditionType { found: f } && f@ == found
    }
}

/// A condition whose type is not named `Boolean` was reported.
pub open spec fn condition_reported(before: SemanticAnalyzer, after: SemanticAnalyzer, cond: TypedExpr, span: Span, is_while: bool) -> bool {
    after.name_of(cond.ty) != "Boolean"@ ==> crate::type_decl::reported(
        after.diagnostics@,
        before.diagnostics@.len(),
        invalid_condition(after.name_of(cond.ty), span, is_while),
    )
}

/// `UnknownTypeInLetAnnotation` for annotation `a`, at `span`.
pub open spec fn unknown_let_annotation(a: Seq<char>, span: Span) -> spec_fn(crate::error::SemanticError) -> bool {
    |e: crate::error::SemanticError| e.span == span && (e.kind matches SemanticErrorKind::UnknownTypeInLetAnnotation { name } && name@ == a)
}

/// Two types either of which is a subtype of the other.
pub open spec fn related(a: SemanticAnalyzer, x: TypeId, y: TypeId) -> bool {
    subtype(a.ctx.types.infos@, x, y, a.ty_count()) || subtype(a.ctx.types.infos@, y, x, a.ty_count())
}

impl SemanticAnalyzer {
    /// The rule of a binary operator, once both operands are typed (see `binary_outcome`).
    pub fn binary_rule(
        &mut self,
        left: TypedExpr,
        op: &BinaryOp,
        right: TypedExpr,
        lspan: Span,
        rspan: Span,
        span: Span,
    ) -> (r: TypedExpr)
        requires
            old(self).wf(),
            left.ty.0 < old(self).ty_count(),
            right.ty.0 < old(self).ty_count(),
        ensures
            final(self).ctx == old(self).ctx,
            keeps_errors(old(self).diagnostics@, final(self).diagnostics@),
            binary_outcome(
                *old(self),
                *op,
                left.ty,
                right.ty,
                lspan,
                rspan,
                span,
                r.ty,
                tail_from(final(self).diagnostics@, old(self).diagnostics@.len() as int),
            ),
            r.ty.0 < old(self).ty_count(),
            r.span == span,
            r.node is Binary,
            r.node->Binary_left_expr.ty == left.ty,
            r.node->Binary_right_expr.ty == right.ty,
    {
        let l = left.ty;
        let rt = right.ty;
        let number = self.resolve_builtin("Number");
        let string = self.resolve_builtin("String");
        let boolean = self.resolve_builtin("Boolean");
        let ghost d0 = self.diagnostics@;
        let ty = match op.node {
            BinaryOpKind::Add | BinaryOpKind::Sub | BinaryOpKind::Mul | BinaryOpKind::Div | BinaryOpKind::Pow => {
                self.enforce_type(l, number, lspan, op);
                let ghost d1 = self.diagnostics@;
                self.enforce_type(rt, number, rspan, op);
                proof { self.lemma_two_checks(d0, d1, l != number, rt != number); }
                number
            },
            BinaryOpKind::Less | BinaryOpKind::Greater | BinaryOpKind::LessEqual | BinaryOpKind::GreaterEqual => {
                self.enforce_type(l, number, lspan, op);
                let ghost d1 = self.diagnostics@;
                self.enforce_type(rt, number, rspan, op);
                proof { self.lemma_two_checks(d0, d1, l != number, rt != number); }
                boolean
            },
            BinaryOpKind::And | BinaryOpKind::Or => {
                self.enforce_type(l, boolean, lspan, op);
                let ghost d1 = self.diagnostics@;
                self.enforce_type(rt, boolean, rspan, op);
                proof { self.lemma_two_checks(d0, d1, l != boolean, rt != boolean); }
                boolean
            },
            BinaryOpKind::Concat | BinaryOpKind::ConcatSpace => {
                let ok = (l == string || rt == string) && (l == string || l == number) && (rt == string || rt
                    == number);
                if !ok {
                    let ln = self.type_label(l);
                    let rn = self.type_label(rt);
                    self.report(
                        SemanticErrorKind::InvalidBinaryOperation { operator: op.node.to_string(), left: ln, right: rn },
                        lspan.union(&rspan),
                    );
                }
                proof {
                    let t = tail_from(self.diagnostics@, d0.len() as int);
                    if ok {
                        assert(t =~= Seq::<SemanticError>::empty());
                    } else {
                        assert(t =~= seq![self.diagnostics@.last()]);
                    }
                }
                string
            },
            BinaryOpKind::DoubleEqual | BinaryOpKind::NotEqual => {
                if !self.ctx.types.is_subtype_of(l, rt) && !self.ctx.types.is_subtype_of(rt, l) {
                    let ln = self.type_label(l);
                    let rn = self.type_label(rt);
                    self.report(SemanticErrorKind::IncomparableTypes { left: ln, right: rn }, span);
                }
                proof {
                    let t = tail_from(self.diagnostics@, d0.len() as int);
                    if related(*old(self), l, rt) {
                        assert(t =~= Seq::<SemanticError>::empty());
                    } else {
                        assert(t =~= seq![self.diagnostics@.last()]);
                    }
                }
                boolean
            },
        };
        TypedExpr::new(
            TypedExprKind::Binary { left_expr: Box::new(left), op: *op, right_expr: Box::new(right) },
            ty,
            span,
        )
    }

    proof fn lemma_two_checks(&self, d0: Seq<SemanticError>, d1: Seq<SemanticError>, lb: bool, rb: bool)
        requires
            !lb ==> d1 == d0,
            lb ==> d1.len() == d0.len() + 1 && d1.drop_last() == d0,
            !rb ==> self.diagnostics@ == d1,
            rb ==> self.diagnostics@.len() == d1.len() + 1 && self.diagnostics@.drop_last() == d1,
        ensures
            keeps_errors(d0, self.diagnostics@),
            ({
                let t = tail_from(self.diagnostics@, d0.len() as int);
                &&& t.len() == (if lb { 1int } else { 0 }) + (if rb { 1int } else { 0 })
                &&& lb ==> t[0] == d1.last()
                &&& rb ==> t[if lb { 1int } else { 0 }] == self.diagnostics@.last()
            }),
    {
        let d2 = self.diagnostics@;
        if lb {
            assert(d0 =~= d1.drop_last());
            assert forall|i: int| 0 <= i < d0.len() implies #[trigger] d1[i] == d0[i] by {
                assert(d1.drop_last()[i] == d1[i]);
            }
        }
        if rb {
            assert forall|i: int| 0 <= i < d1.len() implies #[trigger] d2[i] == d1[i] by {
                assert(d2.drop_last()[i] == d2[i]);
            }
        }
    }

    /// The rule of `is`: the result is a `Boolean`. An unknown type gives
    /// `UnknownType` (and `Object` as the target); a known type unrelated to
    /// the operand's gives `ImpossibleTypeCheck`.
    pub fn is_rule(&mut self, inner: TypedExpr, annotation: &str, span: Span) -> (r: TypedExpr)
        requires
            old(self).wf(),
            inner.ty.0 < old(self).ty_count(),
        ensures
            final(self).ctx == old(self).ctx,
            r.span == span,
            r.ty == old(self).boolean_id(),
            r.ty.0 < old(self).ty_count(),
            r.node is Is,
            r.node->Is_expr.ty == inner.ty,
            match old(self).ctx.types.spec_resolve(annotation@) {
                Some(t) => {
                    &&& r.node->Is_target_type == t
                    &&& related(*old(self), inner.ty, t) ==> final(self).diagnostics@ == old(self).diagnostics@
                    &&& !related(*old(self), inner.ty, t) ==> (one_more(old(self).diagnostics@, final(self).diagnostics@, span)
                        && (final(self).diagnostics@.last().kind matches SemanticErrorKind::ImpossibleTypeCheck { expr, target }
                        && expr@ == old(self).name_of(inner.ty) && target@ == annotation@))
                },
                None => {
                    &&& r.node->Is_target_type == old(self).object_id()
                    &&& one_more(old(self).diagnostics@, final(self).diagnostics@, span)
                    &&& final(self).diagnostics@.last().kind matches SemanticErrorKind::UnknownType { name } && name@ == annotation@
                },
            },
    {
        let bool_type = self.resolve_builtin("Boolean");
        let target = match self.ctx.types.resolve(annotation) {
            Some(target_type) => {
                if !self.ctx.types.is_subtype_of(inner.ty, target_type) && !self.ctx.types.is_subtype_of(
                    target_type,
                    inner.ty,
                ) {
                    let e = self.type_label(inner.ty);
                    self.report(
                        SemanticErrorKind::ImpossibleTypeCheck { expr: e, target: String::from_str(annotation) },
                        span,
                    );
                }
                target_type
            },
            None => {
                self.report(SemanticErrorKind::UnknownType { name: String::from_str(annotation) }, span);
                self.resolve_builtin("Object")
            },
        };
        TypedExpr::new(TypedExprKind::Is { expr: Box::new(inner), target_type: target }, bool_type, span)
    }

    /// The rule of `as`: the result has the target type. An unknown type gives
    /// `UnknownType` (and `Object`); a known type unrelated to the operand's
    /// gives `InvalidCast`.
    pub fn as_rule(&mut self, inner: TypedExpr, annotation: &str, span: Span) -> (r: TypedExpr)
        requires
            old(self).wf(),
            inner.ty.0 < old(self).ty_count(),
        ensures
            final(self).ctx == old(self).ctx,
            r.span == span,
            r.ty.0 < old(self).ty_count(),
            r.node is As,
            r.node->As_target_type == r.ty,
            r.node->As_expr.ty == inner.ty,
            match old(self).ctx.types.spec_resolve(annotation@) {
                Some(t) => {
                    &&& r.ty == t
                    &&& related(*old(self), inner.ty, t) ==> final(self).diagnostics@ == old(self).diagnostics@
                    &&& !related(*old(self), inner.ty, t) ==> (one_more(old(self).diagnostics@, final(self).diagnostics@, span)
                        && (final(self).diagnostics@.last().kind matches SemanticErrorKind::InvalidCast { from, to }
                        && from@ == old(self).name_of(inner.ty) && to@ == annotation@))
                },
                None => {
                    &&& r.ty == old(self).object_id()
                    &&& one_more(old(self).diagnostics@, final(self).diagnostics@, span)
                    &&& final(self).diagnostics@.last().kind matches SemanticErrorKind::UnknownType { name } && name@ == annotation@
                },
            },
    {
        let target = match self.ctx.types.resolve(annotation) {
            Some(target_type) => {
                if !self.ctx.types.is_subtype_of(inner.ty, target_type) && !self.ctx.types.is_subtype_of(
                    target_type,
                    inner.ty,
                ) {
                    let e = self.type_label(inner.ty);
                    self.report(SemanticErrorKind::InvalidCast { from: e, to: String::from_str(annotation) }, span);
                }
                target_type
            },
            None => {
                self.report(SemanticErrorKind::UnknownType { name: String::from_str(annotation) }, span);
                self.resolve_builtin("Object")
            },
        };
        TypedExpr::new(TypedExprKind::As { expr: Box::new(inner), target_type: target }, target, span)
    }

    /// The rule of an `if` or `while` condition: it must be a `Boolean`;
    /// otherwise `InvalidConditionType` (for `if`) or `InvalidWhileCondition`
    /// (for `while`) is added at the condition.
    pub fn condition_rule(&mut self, cond_ty: TypeId, cond_span: Span, is_while: bool)
        requires
            old(self).wf(),
            cond_ty.0 < old(self).ty_count(),
        ensures
            final(self).ctx == old(self).ctx,
            cond_ty == old(self).boolean_id() ==> final(self).diagnostics@ == old(self).diagnostics@,
            cond_ty != old(self).boolean_id() ==> {
                &&& one_more(old(self).diagnostics@, final(self).diagnostics@, cond_span)
                &&& !is_while ==> (final(self).diagnostics@.last().kind matches SemanticErrorKind::InvalidConditionType {
                    found,
                } && found@ == old(self).name_of(cond_ty))
                &&& is_while ==> (final(self).diagnostics@.last().kind matches SemanticErrorKind::InvalidWhileCondition {
                    found,
                } && found@ == old(self).name_of(cond_ty))
            },
    {
        let bool_type = self.resolve_builtin("Boolean");
        if cond_ty != bool_type {
            let found = self.type_label(cond_ty);
            if is_while {
                self.report(SemanticErrorKind::InvalidWhileCondition { found }, cond_span);
            } else {
                self.report(SemanticErrorKind::InvalidConditionType { found }, cond_span);
            }
        }
    }

    /// The type a `let` binds its name to: the annotated type when there is
    /// one (the value must be a subtype of it, else `LetBindingTypeMismatch`
    /// at the value; an unknown annotation gives `UnknownTypeInLetAnnotation`
    /// and `Object`), else the value's type.
    pub fn let_binding_rule(&mut self, value_ty: TypeId, annotation: &Option<String>, value_span: Span, span: Span) -> (t: TypeId)
        requires
            old(self).wf(),
            value_ty.0 < old(self).ty_count(),
        ensures
            final(self).ctx == old(self).ctx,
            t.0 < old(self).ty_count(),
            match annotation {
                None => t == value_ty && final(self).diagnostics@ == old(self).diagnostics@,
                Some(a) => match old(self).ctx.types.spec_resolve(a@) {
                    Some(id) => {
                        &&& t == id
                        &&& subtype(old(self).ctx.types.infos@, value_ty, id, old(self).ty_count()) ==> final(self).diagnostics@
                            == old(self).diagnostics@
                        &&& !subtype(old(self).ctx.types.infos@, value_ty, id, old(self).ty_count()) ==> (one_more(
                            old(self).diagnostics@,
                            final(self).diagnostics@,
                            value_span,
                        ) && (final(self).diagnostics@.last().kind matches SemanticErrorKind::LetBindingTypeMismatch {
                            expected,
                            found,
                        } && expected@ == a@ && found@ == old(self).name_of(value_ty)))
                    },
                    None => {
                        &&& t == old(self).object_id()
                        &&& one_more(old(self).diagnostics@, final(self).diagnostics@, span)
                        &&& final(self).diagnostics@.last().kind matches SemanticErrorKind::UnknownTypeInLetAnnotation {
                            name,
                        } && name@ == a@
                    },
                },
            },
    {
        match annotation {
            Some(t_name) => match self.ctx.types.resolve(t_name.as_str()) {
                Some(id) => {
                    if !self.ctx.types.is_subtype_of(value_ty, id) {
                        let found = self.type_label(value_ty);
                        self.report(
                            SemanticErrorKind::LetBindingTypeMismatch { expected: t_name.clone(), found },
                            value_span,
                        );
                    }
                    id
                },
                None => {
                    self.report(SemanticErrorKind::UnknownTypeInLetAnnotation { name: t_name.clone() }, span);
                    self.resolve_builtin("Object")
                },
            },
            None => value_ty,
        }
    }
}


/// Adding one error keeps the ones before.
pub proof fn lemma_one_more_keeps(before: Seq<SemanticError>, d: Seq<SemanticError>)
    requires
        d.len() == before.len() + 1,
        d.drop_last() =~= before,
    ensures
        keeps_errors(before, d),
{
    assert forall|i: int| 0 <= i < before.len() implies #[trigger] d[i] == before[i] by {
        assert(d.drop_last()[i] == d[i]);
    }
}

/// Whether a name is `base`.
pub fn is_base_name(n: &str) -> (b: bool)
    ensures
        b == (n@ == "base"@),
{
    let a = String::from_str(n);
    let s = String::from_str("base");
    a == s
}

/// Whether a name is `self`.
pub fn is_self_name(n: &str) -> (b: bool)
    ensures
        b == (n@ == "self"@),
{
    let a = String::from_str(n);
    let s = String::from_str("self");
    a == s
}

impl SemanticAnalyzer {
    /// The rule of an assignment, once target and value are typed: the target
    /// must be a variable other than `self` or a property, else
    /// `InvalidAssignmentTarget` at the target (and `Object` as its type); the
    /// value must be a subtype of the target's type, else `TypeMismatch` at
    /// the value. The assignment has the value's type.
    pub fn assign_rule(&mut self, target: &Expr, target_typed: TypedExpr, value_typed: TypedExpr, value_span: Span, span: Span) -> (r: TypedExpr)
        requires
            old(self).wf(),
            target_typed.ty.0 < old(self).ty_count(),
            value_typed.ty.0 < old(self).ty_count(),
        ensures
            final(self).ctx == old(self).ctx,
            keeps_errors(old(self).diagnostics@, final(self).diagnostics@),
            r.ty == value_typed.ty,
            r.span == span,
            r.node is Assign,
            r.node->Assign_value.ty == value_typed.ty,
            r.node->Assign_target.ty == target_typed.ty,
            ({
                let valid_target = match target.node {
                    ExprKind::Variable(n) => n@ != "self"@,
                    ExprKind::PropertyAccess { .. } => true,
                    _ => false,
                };
                let target_ty = if valid_target { target_typed.ty } else { old(self).object_id() };
                let mismatch = !subtype(old(self).ctx.types.infos@, value_typed.ty, target_ty, old(self).ty_count());
                let added = tail_from(final(self).diagnostics@, old(self).diagnostics@.len() as int);
                &&& added.len() == (if valid_target { 0int } else { 1 }) + (if mismatch { 1int } else { 0 })
                &&& !valid_target ==> added[0].span == target.span && added[0].kind is InvalidAssignmentTarget
                &&& mismatch ==> {
                    let e = added[added.len() - 1];
                    &&& e.span == value_span
                    &&& e.kind matches SemanticErrorKind::TypeMismatch { expected, found }
                        && expected@ == old(self).name_of(target_ty) && found@ == old(self).name_of(value_typed.ty)
                }
            }),
    {
        let ghost d0 = self.diagnostics@;
        let valid = match &target.node {
            ExprKind::Variable(name) => !is_self_name(name.as_str()),
            ExprKind::PropertyAccess { .. } => true,
            _ => false,
        };
        let target_type = if valid {
            target_typed.ty
        } else {
            self.report(SemanticErrorKind::InvalidAssignmentTarget, target.span);
            self.resolve_builtin("Object")
        };
        let ghost d1 = self.diagnostics@;
        if !self.ctx.types.is_subtype_of(value_typed.ty, target_type) {
            let expected = self.type_label(target_type);
            let found = self.type_label(value_typed.ty);
            self.report(SemanticErrorKind::TypeMismatch { expected, found }, value_span);
        }
        proof {
            let d2 = self.diagnostics@;
            if !valid {
                lemma_one_more_keeps(d0, d1);
            }
            if d2.len() > d1.len() {
                lemma_one_more_keeps(d1, d2);
            }
            let added = tail_from(d2, d0.len() as int);
            if !valid {
                assert(added[0] == d1.last());
            }
        }
        let ty = value_typed.ty;
        TypedExpr::new(
            TypedExprKind::Assign { target: Box::new(target_typed), value: Box::new(value_typed) },
            ty,
            span,
        )
    }

    /// Types an expression, adding the errors it holds.
    pub fn analyze_expr(&mut self, expression: &Expr) -> (r: TypedExpr)
        requires
            old(self).wf(),
        ensures
            analyzed(*old(self), *final(self), r),
            r.span == expression.span,
            mirrors(*expression, r),
            expression.node is Literal ==> *final(self) == *old(self) && r.ty == literal_type(*old(self), expression.node->Literal_0),
        decreases old(self).ctx.instantiation_budget, expr_size(*expression), 2nat,
    {
        let span = expression.span;
        match &expression.node {
            ExprKind::Literal(lit) => self.analyze_literal(lit, span),
            ExprKind::Variable(name) => {
                let r = self.analyze_variable(name.as_str(), span);
                proof {
                    if self.diagnostics@.len() > old(self).diagnostics@.len() {
                        lemma_one_more_keeps(old(self).diagnostics@, self.diagnostics@);
                    }
                }
                r
            },
            ExprKind::Block(exprs) => self.analyze_block(exprs, span),
            ExprKind::Unary { op, expr } => self.analyze_unary(op, expr, span),
            ExprKind::Binary { left_expr, op, right_expr } => self.analyze_binary(left_expr, op, right_expr, span),
            ExprKind::Assign { target, value } => self.analyze_assign(target, value, span),
            ExprKind::Let { name, annotation, value, body } => self.analyze_let(name, annotation, value, body, span),
            ExprKind::If { condition, then_branch, else_branch } => self.analyze_if(
                condition,
                then_branch,
                else_branch,
                span,
            ),
            ExprKind::While { condition, body } => self.analyze_while(condition, body, span),
            ExprKind::Is { expr, annotation } => self.analyze_is(expr, annotation.as_str(), span),
            ExprKind::As { expr, annotation } => self.analyze_as(expr, annotation.as_str(), span),
            ExprKind::Call { name, args } => {
                if is_base_name(name.as_str()) {
                    self.analyze_base_call(name, args, span)
                } else {
                    self.analyze_call(name, args, span)
                }
            },
            ExprKind::For { var, iterable, body } => self.analyze_for(var, iterable, body, span),
            ExprKind::New { annotation, args } => self.analyze_new(annotation, args, span),
            ExprKind::PropertyAccess { obj, property } => self.check_property_access(obj, property, span),
            ExprKind::MethodCall { obj, method, args } => self.check_method_call(obj, method, args, span),
        }
    }

    /// Types a unary expression (see `unary_rule`).
    pub fn analyze_unary(&mut self, op: &UnaryOp, expr: &Expr, span: Span) -> (r: TypedExpr)
        requires
            old(self).wf(),
        ensures
            analyzed(*old(self), *final(self), r),
            r.span == span,
            r.node is Unary,
            r.ty == unary_expected(*final(self), *op),
            ({
                let k = if r.node->Unary_expr.ty != unary_expected(*final(self), *op) { 1int } else { 0 };
                &&& k <= final(self).diagnostics@.len() - old(self).diagnostics@.len()
                &&& unary_outcome(
                    *final(self),
                    *op,
                    r.node->Unary_expr.ty,
                    span,
                    tail_from(final(self).diagnostics@, final(self).diagnostics@.len() - k),
                )
            }),
        decreases old(self).ctx.instantiation_budget, expr_size(*expr) + 1, 1nat,
    {
        let inner = self.analyze_expr(expr);
        let ghost mid = self.diagnostics@;
        let r = self.unary_rule(op, inner, span);
        proof {
            if self.diagnostics@.len() > mid.len() {
                lemma_one_more_keeps(mid, self.diagnostics@);
            }
            assert(tail_from(self.diagnostics@, mid.len() as int) =~= self.diagnostics@.subrange(mid.len() as int, self.diagnostics@.len() as int));
        }
        r
    }

    /// Types a binary expression: both operands, then the operator's rule
    /// (see `binary_outcome`).
    pub fn analyze_binary(&mut self, left: &Expr, op: &BinaryOp, right: &Expr, span: Span) -> (r: TypedExpr)
        requires
            old(self).wf(),
        ensures
            analyzed(*old(self), *final(self), r),
            r.span == span,
            r.node is Binary,
            binary_error_count(*final(self), *op, r.node->Binary_left_expr.ty, r.node->Binary_right_expr.ty)
                <= final(self).diagnostics@.len() - old(self).diagnostics@.len(),
            left.node is Literal && right.node is Literal ==> {
                &&& final(self).ctx == old(self).ctx
                &&& r.node->Binary_left_expr.ty == literal_type(*old(self), left.node->Literal_0)
                &&& r.node->Binary_right_expr.ty == literal_type(*old(self), right.node->Literal_0)
                &&& final(self).diagnostics@.len() == old(self).diagnostics@.len() + binary_error_count(
                    *final(self),
                    *op,
                    r.node->Binary_left_expr.ty,
                    r.node->Binary_right_expr.ty,
                )
            },
            binary_outcome(
                *final(self),
                *op,
                r.node->Binary_left_expr.ty,
                r.node->Binary_right_expr.ty,
                left.span,
                right.span,
                span,
                r.ty,
                tail_from(
                    final(self).diagnostics@,
                    final(self).diagnostics@.len() - binary_error_count(
                        *final(self),
                        *op,
                        r.node->Binary_left_expr.ty,
                        r.node->Binary_right_expr.ty,
                    ),
                ),
            ),
        decreases old(self).ctx.instantiation_budget, expr_size(*left) + expr_size(*right) + 1, 1nat,
    {
        let l = self.analyze_expr(left);
        let rt = self.analyze_expr(right);
        let ghost mid = *self;
        let r = self.binary_rule(l, op, rt, left.span, right.span, span);
        proof {
            let m = mid.diagnostics@.len() as int;
            assert(binary_outcome(
                *self,
                *op,
                r.node->Binary_left_expr.ty,
                r.node->Binary_right_expr.ty,
                left.span,
                right.span,
                span,
                r.ty,
                tail_from(self.diagnostics@, m),
            ));
        }
        r
    }

    /// Types `expr is T` (see `is_rule`).
    pub fn analyze_is(&mut self, expr: &Expr, annotation: &str, span: Span) -> (r: TypedExpr)
        requires
            old(self).wf(),
        ensures
            analyzed(*old(self), *final(self), r),
            r.span == span,
            r.node is Is,
            r.ty == final(self).boolean_id(),
            check_count(*final(self), r.node->Is_expr.ty, annotation@) <= final(self).diagnostics@.len() - old(self).diagnostics@.len(),
            is_outcome(
                *final(self),
                r.node->Is_expr.ty,
                annotation@,
                span,
                tail_from(final(self).diagnostics@, final(self).diagnostics@.len() - check_count(*final(self), r.node->Is_expr.ty, annotation@)),
            ),
        decreases old(self).ctx.instantiation_budget, expr_size(*expr) + 1, 1nat,
    {
        let inner = self.analyze_expr(expr);
        let ghost mid = self.diagnostics@;
        let r = self.is_rule(inner, annotation, span);
        proof {
            if self.diagnostics@.len() > mid.len() {
                lemma_one_more_keeps(mid, self.diagnostics@);
            }
        }
        r
    }

    /// Types `expr as T` (see `as_rule`).
    pub fn analyze_as(&mut self, expr: &Expr, annotation: &str, span: Span) -> (r: TypedExpr)
        requires
            old(self).wf(),
        ensures
            analyzed(*old(self), *final(self), r),
            r.span == span,
            r.node is As,
            match final(self).ctx.types.spec_resolve(annotation@) {
                Some(t) => r.ty == t,
                None => r.ty == final(self).object_id(),
            },
            check_count(*final(self), r.node->As_expr.ty, annotation@) <= final(self).diagnostics@.len() - old(self).diagnostics@.len(),
            as_outcome(
                *final(self),
                r.node->As_expr.ty,
                annotation@,
                span,
                tail_from(final(self).diagnostics@, final(self).diagnostics@.len() - check_count(*final(self), r.node->As_expr.ty, annotation@)),
            ),
        decreases old(self).ctx.instantiation_budget, expr_size(*expr) + 1, 1nat,
    {
        let inner = self.analyze_expr(expr);
        let ghost mid = self.diagnostics@;
        let r = self.as_rule(inner, annotation, span);
        proof {
            if self.diagnostics@.len() > mid.len() {
                lemma_one_more_keeps(mid, self.diagnostics@);
            }
        }
        r
    }

    /// Types a block in a scope of its own; it has the type of its last
    /// expression (`Object` when empty).
    pub fn analyze_block(&mut self, expressions: &Vec<Expr>, span: Span) -> (r: TypedExpr)
        requires
            old(self).wf(),
        ensures
            analyzed(*old(self), *final(self), r),
            r.span == span,
            r.node is Block,
            r.node->Block_0@.len() == expressions@.len(),
            expressions@.len() == 0 ==> r.ty == old(self).object_id(),
            expressions@.len() > 0 ==> r.ty == r.node->Block_0@.last().ty,
        decreases old(self).ctx.instantiation_budget, exprs_size(expressions@) + 1, 1nat,
    {
        self.ctx.push_scope();
        let ghost inner_scopes = self.ctx.scopes@;
        let mut last_type_id = self.resolve_builtin("Object");
        let mut typed: Vec<TypedExpr> = Vec::new();
        let mut i: usize = 0;
        while i < expressions.len()
            invariant
                self.ctx.generic_decls == old(self).ctx.generic_decls,
                self.wf(),
                i <= expressions@.len(),
                typed@.len() == i,
                self.ctx.scopes@ == inner_scopes,
                inner_scopes == old(self).ctx.scopes@.push(inner_scopes.last()),
                self.ctx.instantiation_budget == old(self).ctx.instantiation_budget,
                keeps_errors(old(self).diagnostics@, self.diagnostics@),
                keeps_types(old(self).ctx.types.infos@, self.ctx.types.infos@),
                last_type_id.0 < self.ty_count(),
                i == 0 ==> last_type_id == old(self).object_id(),
                i > 0 ==> last_type_id == typed@.last().ty,
                forall|j: int| 0 <= j < i ==> (#[trigger] typed@[j]).ty.0 < self.ty_count(),
            decreases expressions.len() - i,
        {
            proof { lemma_exprs_size_elem(expressions@, i as int); }
            let t = self.analyze_expr(&expressions[i]);
            last_type_id = t.ty;
            typed.push(t);
            i = i + 1;
        }
        self.ctx.pop_scope();
        proof {
            assert(self.ctx.scopes@ =~= old(self).ctx.scopes@);
        }
        TypedExpr::new(TypedExprKind::Block(typed), last_type_id, span)
    }

    /// Types `let name [: T] = value in body`: the name is bound, in a scope
    /// of its own, to the type `let_binding_rule` gives; the `let` has the
    /// body's type.
    pub fn analyze_let(
        &mut self,
        name: &String,
        annotation: &Option<String>,
        value: &Expr,
        body: &Expr,
        span: Span,
    ) -> (r: TypedExpr)
        requires
            old(self).wf(),
        ensures
            analyzed(*old(self), *final(self), r),
            r.span == span,
            r.node is Let,
            r.ty == r.node->Let_body.ty,
            match annotation {
                Some(a) => final(self).ctx.types.spec_resolve(a@) is None ==> crate::type_decl::reported(
                    final(self).diagnostics@,
                    old(self).diagnostics@.len(),
                    unknown_let_annotation(a@, span),
                ),
                None => true,
            },
        decreases old(self).ctx.instantiation_budget, expr_size(*value) + expr_size(*body) + 1, 1nat,
    {
        let value_typed = self.analyze_expr(value);
        let ghost mid = self.diagnostics@;
        let ghost before_rule = *self;
        let var_type = self.let_binding_rule(value_typed.ty, annotation, value.span, span);
        proof {
            if self.diagnostics@.len() > mid.len() {
                lemma_one_more_keeps(mid, self.diagnostics@);
            }
            match annotation {
                Some(a) => {
                    if before_rule.ctx.types.spec_resolve(a@) is None {
                        let e = self.diagnostics@.len() - 1;
                        assert(unknown_let_annotation(a@, span)(self.diagnostics@[e]));
                    }
                },
                None => {},
            }
        }
        let ghost after_rule = *self;
        self.ctx.push_scope();
        let _ = self.ctx.declare(
            Symbol { name: name.clone(), kind: SymbolKind::Variable, ty: SymbolType::Variable(var_type), span },
        );
        let ghost inner_scopes = self.ctx.scopes@;
        let body_typed = self.analyze_expr(body);
        let type_id = body_typed.ty;
        self.ctx.pop_scope();
        proof {
            assert(self.ctx.scopes@ =~= old(self).ctx.scopes@);
            match annotation {
                Some(a) => {
                    if self.ctx.types.spec_resolve(a@) is None {
                        crate::type_decl::lemma_unresolved_before(after_rule.ctx.types, self.ctx.types, a@);
                        crate::type_decl::lemma_unresolved_before(before_rule.ctx.types, after_rule.ctx.types, a@);
                        crate::type_decl::lemma_reported_kept(
                            after_rule.diagnostics@,
                            self.diagnostics@,
                            old(self).diagnostics@.len(),
                            unknown_let_annotation(a@, span),
                        );
                    }
                },
                None => {},
            }
        }
        TypedExpr::new(
            TypedExprKind::Let { name: name.clone(), value: Box::new(value_typed), body: Box::new(body_typed) },
            type_id,
            span,
        )
    }

    /// Types `if (c) t [else e]`: the condition must be a `Boolean` (see
    /// `condition_rule`); with an `else`, the `if` has the closest common
    /// ancestor of both branches' types, else `Object`. The `else` branch is
    /// analysed twice, once for the typed tree and once for the type.
    pub fn analyze_if(
        &mut self,
        condition: &Expr,
        then_branch: &Expr,
        else_branch: &Option<Box<Expr>>,
        span: Span,
    ) -> (r: TypedExpr)
        requires
            old(self).wf(),
        ensures
            analyzed(*old(self), *final(self), r),
            r.span == span,
            r.node is If,
            else_branch is None ==> r.ty == final(self).object_id(),
            else_branch is Some ==> exists|t2: TypeId|
                #![trigger join_of(final(self).ctx.types.infos@, r.node->If_then_branch.ty, t2)]
                t2.0 < final(self).ty_count() && r.ty == join_of(final(self).ctx.types.infos@, r.node->If_then_branch.ty, t2),
            condition_reported(*old(self), *final(self), *r.node->If_condition, condition.span, false),
        decreases old(self).ctx.instantiation_budget, expr_size(*condition) + expr_size(*then_branch) + match else_branch {
            Some(e) => expr_size(**e),
            None => 0,
        } + 1, 1nat,
    {
        let cond_typed = self.analyze_expr(condition);
        let ghost mid = self.diagnostics@;
        let ghost before_rule = *self;
        self.condition_rule(cond_typed.ty, condition.span, false);
        proof {
            if self.diagnostics@.len() > mid.len() {
                lemma_one_more_keeps(mid, self.diagnostics@);
            }
            self.ctx.types.lemma_builtins_resolve();
            assert(self.ctx.types.infos@.len() == self.ctx.types.infos.len());
            crate::decl::lemma_resolved_name(self.ctx.types, "Boolean"@);
            if self.name_of(cond_typed.ty) != "Boolean"@ {
                assert(cond_typed.ty != before_rule.boolean_id());
                let e = self.diagnostics@.len() - 1;
                assert(invalid_condition(self.name_of(cond_typed.ty), condition.span, false)(self.diagnostics@[e]));
            }
        }
        let ghost after_rule = *self;
        let then_typed = self.analyze_expr(then_branch);
        let else_typed = match else_branch {
            Some(e) => Some(Box::new(self.analyze_expr(e))),
            None => None,
        };
        let ghost mut witness = TypeId(0);
        let type_id = match else_branch {
            Some(e) => {
                let again = self.analyze_expr(e);
                proof { witness = again.ty; }
                self.ctx.types.find_lca(then_typed.ty, again.ty)
            },
            None => self.resolve_builtin("Object"),
        };
        assert(else_branch is Some ==> witness.0 < self.ty_count() && type_id == join_of(self.ctx.types.infos@, then_typed.ty, witness));
        proof {
            assert(self.name_of(cond_typed.ty) == after_rule.name_of(cond_typed.ty));
            if self.name_of(cond_typed.ty) != "Boolean"@ {
                crate::type_decl::lemma_reported_kept(
                    after_rule.diagnostics@,
                    self.diagnostics@,
                    old(self).diagnostics@.len(),
                    invalid_condition(self.name_of(cond_typed.ty), condition.span, false),
                );
            }
        }
        let r = TypedExpr::new(
            TypedExprKind::If {
                condition: Box::new(cond_typed),
                then_branch: Box::new(then_typed),
                else_branch: else_typed,
            },
            type_id,
            span,
        );
        assert(r.node->If_then_branch.ty == then_typed.ty);
        r
    }

    /// Types `while (c) body`: the condition must be a `Boolean` (see
    /// `condition_rule`); the loop has the body's type.
    pub fn analyze_while(&mut self, condition: &Expr, body: &Expr, span: Span) -> (r: TypedExpr)
        requires
            old(self).wf(),
        ensures
            analyzed(*old(self), *final(self), r),
            r.span == span,
            r.node is While,
            r.ty == r.node->While_body.ty,
            condition_reported(*old(self), *final(self), *r.node->While_condition, condition.span, true),
        decreases old(self).ctx.instantiation_budget, expr_size(*condition) + expr_size(*body) + 1, 1nat,
    {
        let cond_typed = self.analyze_expr(condition);
        let ghost mid = self.diagnostics@;
        let ghost before_rule = *self;
        self.condition_rule(cond_typed.ty, condition.span, true);
        proof {
            if self.diagnostics@.len() > mid.len() {
                lemma_one_more_keeps(mid, self.diagnostics@);
            }
            self.ctx.types.lemma_builtins_resolve();
            assert(self.ctx.types.infos@.len() == self.ctx.types.infos.len());
            crate::decl::lemma_resolved_name(self.ctx.types, "Boolean"@);
            if self.name_of(cond_typed.ty) != "Boolean"@ {
                assert(cond_typed.ty != before_rule.boolean_id());
                let e = self.diagnostics@.len() - 1;
                assert(invalid_condition(self.name_of(cond_typed.ty), condition.span, true)(self.diagnostics@[e]));
            }
        }
        let ghost after_rule = *self;
        let body_typed = self.analyze_expr(body);
        let type_id = body_typed.ty;
        proof {
            assert(self.name_of(cond_typed.ty) == after_rule.name_of(cond_typed.ty));
            if self.name_of(cond_typed.ty) != "Boolean"@ {
                crate::type_decl::lemma_reported_kept(
                    after_rule.diagnostics@,
                    self.diagnostics@,
                    old(self).diagnostics@.len(),
                    invalid_condition(self.name_of(cond_typed.ty), condition.span, true),
                );
            }
        }
        TypedExpr::new(
            TypedExprKind::While { condition: Box::new(cond_typed), body: Box::new(body_typed) },
            type_id,
            span,
        )
    }

    /// Types an assignment: the value, then the target (see `assign_rule`).
    pub fn analyze_assign(&mut self, target: &Expr, value: &Expr, span: Span) -> (r: TypedExpr)
        requires
            old(self).wf(),
        ensures
            analyzed(*old(self), *final(self), r),
            r.span == span,
            r.node is Assign,
            r.ty == r.node->Assign_value.ty,
            ({
                let k = assign_count(*final(self), *target, r.node->Assign_target.ty, r.node->Assign_value.ty);
                &&& k <= final(self).diagnostics@.len() - old(self).diagnostics@.len()
                &&& assign_outcome(
                    *final(self),
                    *target,
                    r.node->Assign_target.ty,
                    r.node->Assign_value.ty,
                    value.span,
                    tail_from(final(self).diagnostics@, final(self).diagnostics@.len() - k),
                )
            }),
        decreases old(self).ctx.instantiation_budget, expr_size(*target) + expr_size(*value) + 1, 1nat,
    {
        let value_typed = self.analyze_expr(value);
        let target_typed = self.analyze_expr(target);
        let ghost mid = self.diagnostics@;
        let r = self.assign_rule(target, target_typed, value_typed, value.span, span);
        proof {
            assert(mid.len() as int == self.diagnostics@.len() - assign_count(*self, *target, r.node->Assign_target.ty, r.node->Assign_value.ty));
        }
        r
    }

    /// Types each expression of a list, in order.
    pub fn analyze_args(&mut self, args: &Vec<Expr>) -> (r: Vec<TypedExpr>)
        requires
            old(self).wf(),
        ensures
            frame(*old(self), *final(self)),
            r@.len() == args@.len(),
            forall|i: int| 0 <= i < r@.len() ==> (#[trigger] r@[i]).ty.0 < final(self).ty_count() && r@[i].span == args@[i].span,
        decreases old(self).ctx.instantiation_budget, exprs_size(args@), 3nat,
    {
        let mut typed: Vec<TypedExpr> = Vec::new();
        let mut i: usize = 0;
        while i < args.len()
            invariant
                self.ctx.generic_decls == old(self).ctx.generic_decls,
                self.wf(),
                i <= args@.len(),
                typed@.len() == i,
                self.ctx.scopes@ == old(self).ctx.scopes@,
                self.ctx.instantiation_budget == old(self).ctx.instantiation_budget,
                keeps_errors(old(self).diagnostics@, self.diagnostics@),
                keeps_types(old(self).ctx.types.infos@, self.ctx.types.infos@),
                forall|j: int| 0 <= j < i ==> (#[trigger] typed@[j]).ty.0 < self.ty_count() && typed@[j].span == args@[j].span,
            decreases args.len() - i,
        {
            proof { lemma_exprs_size_elem(args@, i as int); }
            let t = self.analyze_expr(&args[i]);
            typed.push(t);
            i = i + 1;
        }
        typed
    }
}

} // verus!
