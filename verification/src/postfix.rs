use vstd::prelude::*;
use crate::analyzer::{
    analyzed, arg_checked, arg_types, args_checked, frame, keeps_errors, keeps_types, lemma_args_checked_start, lemma_args_checked_step,
    lemma_keeps_types_trans, lemma_value_checked_kept, tables_between, value_checked, SemanticAnalyzer,
};
use crate::ast::{expr_size, exprs_size, lemma_exprs_size_elem, Expr, ExprKind, TypeFeaturesKind};
use crate::call::copy_ids;
use crate::context::{function_decl_valid, has_pending_method, mangled_name, method_entry_of, method_key_view, method_keys_contain, MethodInstanceKey};
use crate::error::{decimal, decimal_string, SemanticErrorKind};
use crate::expr::{is_self_name, lemma_one_more_keeps, one_more};
use crate::hir::{DeclSpanned, TypedDeclKind, TypedExpr, TypedExprKind, TypedParam, TypedParamKind};
use crate::span::Span;
use crate::symbols::{Symbol, SymbolKind, SymbolType};
use crate::types::{chain_ids, first_attribute_type, first_method_sig, subtype, TypeId, TypeInfo};

verus! {

/// Whether an expression is the variable `self`.
pub open spec fn is_self_expr(e: Expr) -> bool {
    match e.node {
        ExprKind::Variable(n) => n@ == "self"@,
        _ => false,
    }
}

/// What a method call gives: the signature found by name from the object's
/// type (in the table as it was when the object was typed, which the rest
/// of the call only extends), an instance of a method with unannotated
/// parameters made for the argument types, or an `Object` with an error.
pub open spec fn method_call_outcome(before: SemanticAnalyzer, after: SemanticAnalyzer, method: Seq<char>, nargs: nat, r: TypedExpr) -> bool {
    let obj_ty = r.node->MethodCall_obj.ty;
    let t = after.ctx.types.infos@;
    ||| {
        &&& r.node->MethodCall_method@ == method
        &&& r.node->MethodCall_args@.len() == nargs
        &&& exists|mid: Seq<TypeInfo>|
            #![trigger first_method_sig(mid, chain_ids(mid, obj_ty, mid.len()), method)]
            keeps_types(before.ctx.types.infos@, mid) && keeps_types(mid, t) && match first_method_sig(
                mid,
                chain_ids(mid, obj_ty, mid.len()),
                method,
            ) {
                Some(sig) => sig.1 == r.ty,
                None => false,
            }
    }
    ||| {
        &&& r.node->MethodCall_args@.len() == nargs
        &&& exists|tys: Seq<TypeId>|
            #![trigger method_entry_of(after.ctx.generic_method_instances@, (obj_ty, method, tys))]
            tys.len() == nargs && match method_entry_of(after.ctx.generic_method_instances@, (obj_ty, method, tys)) {
                Some(d) => r.ty == d.node->Function_return_type && r.node->MethodCall_method@ == mangled_name(
                    t,
                    t[obj_ty.0 as int].name@ + "$"@ + method,
                    tys,
                ),
                None => false,
            }
    }
    ||| {
        &&& r.ty == after.object_id()
        &&& before.diagnostics@.len() < after.diagnostics@.len()
        &&& after.diagnostics@.last().kind matches SemanticErrorKind::UnknownMethod { ty_name, method: m }
        &&& m@ == method && ty_name@ == after.name_of(obj_ty)
        &&& first_method_sig(t, chain_ids(t, obj_ty, t.len()), method) is None
        &&& !has_pending_method(after.ctx.pending_generic_methods@, obj_ty, method)
    }
    ||| {
        &&& r.ty == after.object_id()
        &&& before.diagnostics@.len() < after.diagnostics@.len()
        &&& exists|tys: Seq<TypeId>|
            #![trigger method_keys_contain(after.ctx.in_progress_methods@, (obj_ty, method, tys))]
            tys.len() == nargs && ((after.diagnostics@.last().kind is GenericInferenceFailed && (method_keys_contain(
                after.ctx.in_progress_methods@,
                (obj_ty, method, tys),
            ) || before.ctx.instantiation_budget == 0)) || (after.diagnostics@.last().kind matches SemanticErrorKind::InvalidMethodArity {
                found,
                ..
            } && found == nargs) || (after.diagnostics@.last().kind is UnknownMethod && !has_pending_method(
                after.ctx.pending_generic_methods@,
                obj_ty,
                method,
            )))
    }
}

/// The instance `d` of method `f` of type `type_id` for the argument types
/// `tys`: a first parameter `self` of that type, then each parameter of `f`
/// under its name with the argument type at its place; the body is typed
/// from `f`'s body.
pub open spec fn method_instance_of(f: crate::ast::TypeFeatures, d: crate::hir::TypedDecl, type_id: TypeId, tys: Seq<TypeId>) -> bool {
    let ps = f.node->Method_params@;
    let dp = d.node->Function_params@;
    &&& d.node is Function
    &&& dp.len() == ps.len() + 1
    &&& dp[0].node.name@ == "self"@ && dp[0].node.type_id == type_id
    &&& forall|q: int| 0 <= q < ps.len() ==> (#[trigger] dp[q + 1]).node.name@ == ps[q].0@ && dp[q + 1].node.type_id == tys[q]
    &&& d.node->Function_body.span == f.node->Method_body.span
    &&& crate::expr::mirrors(f.node->Method_body, d.node->Function_body)
}

/// The return type an instance of method `f` gets: its annotation when
/// that names a type of `a`, else the type of its body.
pub open spec fn inferred_method_return(a: SemanticAnalyzer, f: crate::ast::TypeFeatures, body_ty: TypeId) -> TypeId {
    match f.node->Method_return_type {
        Some(t) => match a.ctx.types.spec_resolve(t@) {
            Some(id) => id,
            None => body_ty,
        },
        None => body_ty,
    }
}

/// `self` stands for a variable.
pub open spec fn self_is_variable(a: SemanticAnalyzer) -> bool {
    a.ctx.spec_lookup("self"@) matches Some(sym) && sym.ty is Variable
}

/// The loop of a lowered `for`: `while (it.next()) let var = it.current() in body`,
/// where `it` is the variable named `iter` and `body` keeps its span.
pub open spec fn for_lowering(w: TypedExpr, iter: Seq<char>, var: Seq<char>, body_span: Span) -> bool {
    &&& is_call_on(*w.node->While_condition, iter, "next"@)
    &&& match w.node->While_body.node {
        TypedExprKind::Let { name, value, body } => name@ == var && body.span == body_span && is_call_on(*value, iter, "current"@),
        _ => false,
    }
}

/// Both calls of the lowered loop are made on a variable of type `it`
/// (that of the iterable).
pub open spec fn for_calls_typed(w: TypedExpr, it: TypeId) -> bool {
    match w.node {
        TypedExprKind::While { condition, body } => {
            &&& condition.node matches TypedExprKind::MethodCall { obj, .. } && obj.ty == it
            &&& body.node matches TypedExprKind::Let { value, .. } && (value.node matches TypedExprKind::MethodCall { obj, .. } && obj.ty
                == it)
        },
        _ => false,
    }
}

/// `e` calls method `method`, with no argument, on the variable `var`.
pub open spec fn is_call_on(e: TypedExpr, var: Seq<char>, method: Seq<char>) -> bool {
    match e.node {
        TypedExprKind::MethodCall { obj, method: m, args } => m@ == method && args@.len() == 0 && match obj.node {
            TypedExprKind::Variable(v) => v@ == var,
            _ => false,
        },
        _ => false,
    }
}

/// `UnknownType` for `name`, at `span`.
pub open spec fn unknown_type_named(name: Seq<char>, span: Span) -> spec_fn(crate::error::SemanticError) -> bool {
    |e: crate::error::SemanticError| e.span == span && (e.kind matches SemanticErrorKind::UnknownType { name: n } && n@ == name)
}

/// `MethodReturnTypeMismatch` for method `method` whose body, at `span`, has
/// a type other than a subtype of its declared return type.
pub open spec fn method_return_mismatch(method: Seq<char>, span: Span) -> spec_fn(Seq<char>, Seq<char>) -> spec_fn(
    crate::error::SemanticError,
) -> bool {
    |expected: Seq<char>, found: Seq<char>|
        |e: crate::error::SemanticError|
            e.span == span && (e.kind matches SemanticErrorKind::MethodReturnTypeMismatch { method: m, expected: x, found: f }
                && m@ == method && x@ == expected && f@ == found)
}

/// The error `for` reports at its iterable, of the type named `found`, when
/// that type does not conform to `Iterable`.
pub open spec fn not_iterable(span: Span, found: Seq<char>) -> spec_fn(crate::error::SemanticError) -> bool {
    |e: crate::error::SemanticError|
        e.span == span && (e.kind matches SemanticErrorKind::TypeMismatch { expected, found: f } && expected@
            == "Iterable"@ && f@ == found)
}

/// The error a call of method `method` gives for its argument `k` (of
/// `args`) when that argument does not fit its parameter.
pub open spec fn method_mismatch(method: Seq<char>, args: Seq<Expr>) -> spec_fn(int, crate::error::SemanticError) -> bool {
    |k: int, e: crate::error::SemanticError|
        e.span == args[k].span && (e.kind matches SemanticErrorKind::MethodArgumentTypeMismatch { method: m, index, .. } && m@ == method
            && index == k + 1)
}

/// When the method is found on the object's type (in the table `mid` of
/// that moment), its arguments are checked against the parameters of the
/// signature found (see `args_checked`).
pub open spec fn method_args_checked(
    before: SemanticAnalyzer,
    after: SemanticAnalyzer,
    method: Seq<char>,
    args: Seq<Expr>,
    r: TypedExpr,
    mid: Seq<TypeInfo>,
) -> bool {
    &&& keeps_types(before.ctx.types.infos@, mid)
    &&& keeps_types(mid, after.ctx.types.infos@)
    &&& match first_method_sig(mid, chain_ids(mid, r.node->MethodCall_obj.ty, mid.len()), method) {
        Some(sig) => exists|starts: Seq<int>, checks: Seq<int>, tables: Seq<Seq<TypeInfo>>|
            {
                &&& #[trigger] args_checked(
                    after.diagnostics@,
                    starts,
                    checks,
                    tables,
                    arg_types(r.node->MethodCall_args@),
                    sig.0,
                    method_mismatch(method, args),
                )
                &&& before.diagnostics@.len() <= starts[0]
                &&& starts[args.len() as int] == after.diagnostics@.len()
                &&& tables_between(mid, tables, after.ctx.types.infos@)
            },
        None => true,
    }
}

impl SemanticAnalyzer {
    /// Types `obj.property`. Properties are private: `obj` must be `self`,
    /// inside a method, else `InvalidPropertyAccess` (and `Object`). The
    /// property is then looked up from the type of `self` towards its
    /// ancestors; a missing one gives `UnknownAttribute` and `Object`.
    pub fn check_property_access(&mut self, obj: &Expr, property: &String, span: Span) -> (r: TypedExpr)
        requires
            old(self).wf(),
        ensures
            analyzed(*old(self), *final(self), r),
            r.span == span,
            r.node is PropertyAccess,
            (!is_self_expr(*obj) || old(self).ctx.current_method is None) ==> {
                &&& r.ty == old(self).object_id()
                &&& one_more(old(self).diagnostics@, final(self).diagnostics@, span)
                &&& final(self).diagnostics@.last().kind is InvalidPropertyAccess
            },
            (is_self_expr(*obj) && old(self).ctx.current_method is Some) ==> match r.node->PropertyAccess_obj.ty {
                t => match first_attribute_type(
                    final(self).ctx.types.infos@,
                    chain_ids(final(self).ctx.types.infos@, t, final(self).ty_count()),
                    property@,
                ) {
                    Some(a) => r.ty == a,
                    None => r.ty == final(self).object_id() && (final(self).diagnostics@.last().kind matches SemanticErrorKind::UnknownAttribute {
                        ty_name,
                        attribute,
                    } && attribute@ == property@ && ty_name@ == final(self).name_of(t)),
                },
            },
            (is_self_expr(*obj) && old(self).ctx.current_method is Some && self_is_variable(*old(self))) ==> {
                let t = r.node->PropertyAccess_obj.ty;
                if first_attribute_type(
                    final(self).ctx.types.infos@,
                    chain_ids(final(self).ctx.types.infos@, t, final(self).ty_count()),
                    property@,
                ) is Some {
                    final(self).diagnostics@ == old(self).diagnostics@
                } else {
                    one_more(old(self).diagnostics@, final(self).diagnostics@, span)
                }
            },
        decreases old(self).ctx.instantiation_budget, expr_size(*obj) + 1, 1nat,
    {
        let is_self_access = match &obj.node {
            ExprKind::Variable(name) => is_self_name(name.as_str()),
            _ => false,
        };
        if !is_self_access || self.ctx.current_method.is_none() {
            self.report(SemanticErrorKind::InvalidPropertyAccess, span);
            proof { lemma_one_more_keeps(old(self).diagnostics@, self.diagnostics@); }
            let object_type = self.resolve_builtin("Object");
            let placeholder = match &obj.node {
                ExprKind::Variable(name) => TypedExpr::new(TypedExprKind::Variable(name.clone()), object_type, obj.span),
                _ => TypedExpr::new(TypedExprKind::Block(Vec::new()), object_type, obj.span),
            };
            return TypedExpr::new(
                TypedExprKind::PropertyAccess { obj: Box::new(placeholder), property: property.clone() },
                object_type,
                span,
            );
        }
        let obj_typed = self.analyze_variable("self", obj.span);
        let ty = match self.ctx.types.lookup_attribute(obj_typed.ty, property.as_str()) {
            Some(attr_type_id) => attr_type_id,
            None => {
                let ghost mid = self.diagnostics@;
                let tn = self.type_label(obj_typed.ty);
                self.report(SemanticErrorKind::UnknownAttribute { ty_name: tn, attribute: property.clone() }, span);
                proof { lemma_one_more_keeps(mid, self.diagnostics@); }
                self.resolve_builtin("Object")
            },
        };
        TypedExpr::new(TypedExprKind::PropertyAccess { obj: Box::new(obj_typed), property: property.clone() }, ty, span)
    }

    /// Types `obj.method(args)`. The method is looked up from the type of
    /// `obj` towards its ancestors: the number of arguments is checked
    /// (`InvalidMethodArity`), and each argument that has a parameter must be
    /// a subtype of its type (`MethodArgumentTypeMismatch`, at the argument);
    /// the call has the method's return type. A method with unannotated
    /// parameters of the object's type is instantiated for the argument
    /// types. Any other name gives `UnknownMethod` and `Object`.
    pub fn check_method_call(&mut self, obj: &Expr, method: &String, args: &Vec<Expr>, span: Span) -> (r: TypedExpr)
        requires
            old(self).wf(),
        ensures
            analyzed(*old(self), *final(self), r),
            r.span == span,
            r.node is MethodCall,
            method_call_outcome(*old(self), *final(self), method@, args@.len(), r),
            exists|mid: Seq<TypeInfo>| #[trigger] method_args_checked(*old(self), *final(self), method@, args@, r, mid),
        decreases old(self).ctx.instantiation_budget, expr_size(*obj) + exprs_size(args@) + 1, 1nat,
    {
        let obj_typed = self.analyze_expr(obj);
        let obj_type = obj_typed.ty;
        let ghost t_lookup = self.ctx.types.infos@;
        match self.ctx.types.lookup_method(obj_type, method.as_str()) {
            Some((param_types, return_type)) => {
                let ghost m0 = self.diagnostics@;
                if args.len() != param_types.len() {
                    self.report(
                        SemanticErrorKind::InvalidMethodArity { method: method.clone(), expected: param_types.len(), found: args.len() },
                        span,
                    );
                    proof { lemma_one_more_keeps(m0, self.diagnostics@); }
                }
                let ghost mm = method_mismatch(method@, args@);
                let ghost mut starts: Seq<int> = seq![self.diagnostics@.len() as int];
                let ghost mut checks: Seq<int> = Seq::empty();
                let ghost mut tables: Seq<Seq<TypeInfo>> = Seq::empty();
                proof {
                    lemma_args_checked_start(self.diagnostics@, self.diagnostics@.len() as int, param_types@, mm);
                    assert(arg_types(Seq::<TypedExpr>::empty()) =~= Seq::<TypeId>::empty());
                }
                let mut typed_args: Vec<TypedExpr> = Vec::new();
                let mut i: usize = 0;
                while i < args.len()
                    invariant
                        self.wf(),
                        frame(*old(self), *self),
                        keeps_types(t_lookup, self.ctx.types.infos@),
                        mm == method_mismatch(method@, args@),
                        args_checked(self.diagnostics@, starts, checks, tables, arg_types(typed_args@), param_types@, mm),
                        starts[i as int] == self.diagnostics@.len(),
                        old(self).diagnostics@.len() <= starts[0],
                        tables_between(t_lookup, tables, self.ctx.types.infos@),
                        typed_args@.len() == i,
                        i <= args@.len(),
                        return_type.0 < self.ty_count(),
                        forall|k: int| 0 <= k < param_types@.len() ==> (#[trigger] param_types@[k]).0 < self.ty_count(),
                    decreases args.len() - i,
                {
                    proof { lemma_exprs_size_elem(args@, i as int); }
                    let ghost ea = self.diagnostics@;
                    let ghost ta = self.ctx.types.infos@;
                    let ghost prev = typed_args@;
                    let arg_type = self.analyze_expr(&args[i]);
                    let ghost c = self.diagnostics@.len() as int;
                    let ghost t = self.ctx.types.infos@;
                    if i < param_types.len() {
                        let expected_type = param_types[i];
                        if !self.ctx.types.is_subtype_of(arg_type.ty, expected_type) {
                            let ghost mid = self.diagnostics@;
                            let expected = self.type_label(expected_type);
                            let found = self.type_label(arg_type.ty);
                            self.report(
                                SemanticErrorKind::MethodArgumentTypeMismatch { method: method.clone(), index: i + 1, expected, found },
                                args[i].span,
                            );
                            proof {
                                lemma_one_more_keeps(mid, self.diagnostics@);
                                assert(mm(i as int, self.diagnostics@[c]));
                            }
                        }
                    }
                    typed_args.push(arg_type);
                    proof {
                        assert(arg_checked(self.diagnostics@, c, self.diagnostics@.len() as int, t, arg_type.ty, i as int, param_types@, mm));
                        lemma_args_checked_step(ea, self.diagnostics@, starts, checks, tables, arg_types(prev), param_types@, mm, c, t, arg_type.ty);
                        assert(arg_types(typed_args@) =~= arg_types(prev).push(arg_type.ty));
                        let ghost old_tables = tables;
                        starts = starts.push(self.diagnostics@.len() as int);
                        checks = checks.push(c);
                        tables = tables.push(t);
                        assert forall|k: int| 0 <= k < tables.len() implies keeps_types(t_lookup, #[trigger] tables[k]) && keeps_types(
                            tables[k],
                            self.ctx.types.infos@,
                        ) by {
                            if k < old_tables.len() {
                                assert(tables[k] == old_tables[k]);
                                lemma_keeps_types_trans(old_tables[k], ta, self.ctx.types.infos@);
                            } else {
                                lemma_keeps_types_trans(t_lookup, ta, t);
                                assert(t =~= self.ctx.types.infos@);
                            }
                        }
                    }
                    i = i + 1;
                }
                let ghost typed_args_final = typed_args@;
                let r = TypedExpr::new(
                    TypedExprKind::MethodCall { obj: Box::new(obj_typed), method: method.clone(), args: typed_args },
                    return_type,
                    span,
                );
                proof {
                    assert(first_method_sig(t_lookup, chain_ids(t_lookup, obj_type, t_lookup.len()), method@) == Some((param_types@, return_type)));
                    assert(method_call_outcome(*old(self), *self, method@, args@.len(), r));
                    assert(r.node->MethodCall_args@ == typed_args_final);
                    assert(args_checked(self.diagnostics@, starts, checks, tables, arg_types(r.node->MethodCall_args@), param_types@, mm));
                    assert(keeps_types(old(self).ctx.types.infos@, t_lookup));
                    assert(keeps_types(t_lookup, self.ctx.types.infos@));
                    assert(r.node->MethodCall_obj.ty == obj_type);
                    assert(old(self).diagnostics@.len() <= starts[0]);
                    assert(starts[args@.len() as int] == self.diagnostics@.len());
                    assert(tables_between(t_lookup, tables, self.ctx.types.infos@));
                    let sig = first_method_sig(t_lookup, chain_ids(t_lookup, r.node->MethodCall_obj.ty, t_lookup.len()), method@)->0;
                    assert(sig.0 == param_types@);
                    assert(args_checked(
                        self.diagnostics@,
                        starts,
                        checks,
                        tables,
                        arg_types(r.node->MethodCall_args@),
                        sig.0,
                        method_mismatch(method@, args@),
                    ));
                    assert(method_args_checked(*old(self), *self, method@, args@, r, t_lookup));
                }
                r
            },
            None => {
                let has_pending = self.ctx.get_pending_generic_method(obj_type, method.as_str()).is_some();
                if has_pending {
                    let typed_args = self.analyze_args(args);
                    let mut arg_types: Vec<TypeId> = Vec::new();
                    let mut i: usize = 0;
                    while i < typed_args.len()
                        invariant
                            i <= typed_args@.len(),
                            arg_types@.len() == i,
                            forall|k: int| 0 <= k < typed_args@.len() ==> (#[trigger] typed_args@[k]).ty.0 < self.ty_count(),
                            forall|k: int| 0 <= k < i ==> (#[trigger] arg_types@[k]).0 < self.ty_count(),
                        decreases typed_args.len() - i,
                    {
                        arg_types.push(typed_args[i].ty);
                        i = i + 1;
                    }
                    let ghost mid = *self;
                    let key: MethodInstanceKey = (obj_type, method.clone(), copy_ids(&arg_types));
                    let cached: Option<TypeId> = match self.ctx.get_method_instance(&key) {
                        Some(existing) => {
                            proof {
                                let k = choose|k: int| crate::context::is_first_method_key(self.ctx.generic_method_instances@, method_key_view(key), k);
                                assert(function_decl_valid(self.ctx.generic_method_instances@[k].1, self.ty_count()));
                            }
                            Some(existing.node_return_type())
                        },
                        None => None,
                    };
                    let ghost tys = arg_types@;
                    let ghost t_pre = self.ctx.types.infos@;
                    let ghost mut found = cached is Some;
                    let (name, ret) = match cached {
                        Some(ret) => (self.ctx.mangle_method_instance_name(obj_type, method.as_str(), arg_types.as_slice()), ret),
                        None => {
                            if self.ctx.is_method_in_progress(&key) {
                                self.report(SemanticErrorKind::GenericInferenceFailed { function: method.clone() }, span);
                                proof { lemma_one_more_keeps(mid.diagnostics@, self.diagnostics@); }
                                (method.clone(), self.resolve_builtin("Object"))
                            } else {
                                match self.instantiate_generic_method(obj_type, method.as_str(), &arg_types, span) {
                                    Some((m, ret)) => {
                                        proof {
                                            found = true;
                                            assert(self.ctx.types.infos@[obj_type.0 as int] == t_pre[obj_type.0 as int]);
                                            crate::call::lemma_mangled_stable(
                                                t_pre,
                                                self.ctx.types.infos@,
                                                t_pre[obj_type.0 as int].name@ + "$"@ + method@,
                                                tys,
                                            );
                                        }
                                        (m, ret)
                                    },
                                    None => (method.clone(), self.resolve_builtin("Object")),
                                }
                            }
                        },
                    };
                    let r = TypedExpr::new(TypedExprKind::MethodCall { obj: Box::new(obj_typed), method: name, args: typed_args }, ret, span);
                    proof {
                        assert(method_key_view(key) == (obj_type, method@, tys));
                        if found {
                            let t = self.ctx.types.infos@;
                            assert(r.node->MethodCall_method@ == mangled_name(t, t[obj_type.0 as int].name@ + "$"@ + method@, tys));
                        } else {
                            assert(tys.len() == args@.len());
                            assert(r.ty == self.object_id());
                            assert(old(self).diagnostics@.len() < self.diagnostics@.len());
                            assert(r.node->MethodCall_obj.ty == obj_type);
                            assert(r.node->MethodCall_args@.len() == args@.len());
                            assert((self.diagnostics@.last().kind is GenericInferenceFailed && (method_keys_contain(
                                self.ctx.in_progress_methods@, (obj_type, method@, tys)) || old(self).ctx.instantiation_budget == 0))
                                || (self.diagnostics@.last().kind matches SemanticErrorKind::InvalidMethodArity { found, .. } && found == args@.len())
                                || (self.diagnostics@.last().kind is UnknownMethod && !has_pending_method(self.ctx.pending_generic_methods@, obj_type, method@)));
                        }
                        assert(method_call_outcome(*old(self), *self, method@, args@.len(), r));
                        assert(first_method_sig(t_lookup, chain_ids(t_lookup, r.node->MethodCall_obj.ty, t_lookup.len()), method@) is None);
                        assert(keeps_types(old(self).ctx.types.infos@, t_lookup));
                        assert(keeps_types(t_lookup, self.ctx.types.infos@));
                        assert(method_args_checked(*old(self), *self, method@, args@, r, t_lookup));
                    }
                    r
                } else {
                    let ghost mid = self.diagnostics@;
                    let tn = self.type_label(obj_type);
                    self.report(SemanticErrorKind::UnknownMethod { ty_name: tn, method: method.clone() }, span);
                    proof { lemma_one_more_keeps(mid, self.diagnostics@); }
                    let object_type = self.resolve_builtin("Object");
                    let r = TypedExpr::new(
                        TypedExprKind::MethodCall { obj: Box::new(obj_typed), method: method.clone(), args: Vec::new() },
                        object_type,
                        span,
                    );
                    proof {
                        assert(method_call_outcome(*old(self), *self, method@, args@.len(), r));
                        assert(first_method_sig(t_lookup, chain_ids(t_lookup, r.node->MethodCall_obj.ty, t_lookup.len()), method@) is None);
                        assert(method_args_checked(*old(self), *self, method@, args@, r, t_lookup));
                    }
                    r
                }
            },
        }
    }

    /// Makes the instance of a method with unannotated parameters of type
    /// `type_id` for the argument types: `self` and the parameters get their
    /// types, the body is analysed, and the return type is the declared one
    /// (the body must be a subtype of it, else `MethodReturnTypeMismatch`) or
    /// the body's. The instance is a function `Type$method$T1$...` whose first
    /// parameter is `self`. An unknown method gives `UnknownMethod`, a wrong
    /// number of arguments `InvalidMethodArity`; instances nested too deeply
    /// `GenericInferenceFailed`.
    pub fn instantiate_generic_method(
        &mut self,
        type_id: TypeId,
        method_name: &str,
        concrete_arg_types: &Vec<TypeId>,
        call_site_span: Span,
    ) -> (r: Option<(String, TypeId)>)
        requires
            old(self).wf(),
            type_id.0 < old(self).ty_count(),
            forall|k: int| 0 <= k < concrete_arg_types@.len() ==> (#[trigger] concrete_arg_types@[k]).0 < old(self).ty_count(),
        ensures
            frame(*old(self), *final(self)),
            match r {
                Some((m, ret)) => {
                    &&& ret.0 < final(self).ty_count()
                    &&& m@ == mangled_name(
                        old(self).ctx.types.infos@,
                        old(self).ctx.types.infos@[type_id.0 as int].name@ + "$"@ + method_name@,
                        concrete_arg_types@,
                    )
                    &&& method_entry_of(final(self).ctx.generic_method_instances@, (type_id, method_name@, concrete_arg_types@)) matches Some(
                        d,
                    ) && d.node is Function && d.node->Function_return_type == ret && (forall|i: int|
                        #[trigger] crate::context::is_first_pending(old(self).ctx.pending_generic_methods@, type_id, method_name@, i) ==> ret
                            == inferred_method_return(*old(self), old(self).ctx.pending_generic_methods@[i].2, d.node->Function_body.ty))
                },
                None => {
                    &&& final(self).ctx == old(self).ctx
                    &&& one_more(old(self).diagnostics@, final(self).diagnostics@, call_site_span)
                    &&& old(self).ctx.instantiation_budget == 0 ==> (final(self).diagnostics@.last().kind matches SemanticErrorKind::GenericInferenceFailed {
                        function,
                    } && function@ == method_name@)
                    &&& (old(self).ctx.instantiation_budget != 0 && !has_pending_method(
                        old(self).ctx.pending_generic_methods@,
                        type_id,
                        method_name@,
                    )) ==> (final(self).diagnostics@.last().kind matches SemanticErrorKind::UnknownMethod { ty_name, method } && method@
                        == method_name@ && ty_name@ == old(self).name_of(type_id))
                    &&& (old(self).ctx.instantiation_budget != 0 && has_pending_method(
                        old(self).ctx.pending_generic_methods@,
                        type_id,
                        method_name@,
                    )) ==> (final(self).diagnostics@.last().kind matches SemanticErrorKind::InvalidMethodArity { method, found, .. }
                        && method@ == method_name@ && found == concrete_arg_types@.len())
                },
            },
            (old(self).ctx.instantiation_budget == 0 || !has_pending_method(old(self).ctx.pending_generic_methods@, type_id, method_name@))
                ==> r is None,
            (old(self).ctx.instantiation_budget != 0 && has_pending_method(old(self).ctx.pending_generic_methods@, type_id, method_name@)
                && forall|i: int|
                0 <= i < old(self).ctx.pending_generic_methods@.len() && (#[trigger] old(self).ctx.pending_generic_methods@[i]).0
                    == type_id && old(self).ctx.pending_generic_methods@[i].1@ == method_name@ ==> old(
                    self,
                ).ctx.pending_generic_methods@[i].2.node->Method_params@.len() == concrete_arg_types@.len()) ==> r is Some,
            forall|i: int|
                #[trigger] crate::context::is_first_pending(old(self).ctx.pending_generic_methods@, type_id, method_name@, i) ==> {
                    let f = old(self).ctx.pending_generic_methods@[i].2;
                    &&& old(self).ctx.instantiation_budget != 0 ==> (r is Some <==> f.node->Method_params@.len() == concrete_arg_types@.len())
                    &&& (old(self).ctx.instantiation_budget != 0 && r is None) ==> (final(self).diagnostics@.last().kind matches SemanticErrorKind::InvalidMethodArity {
                        expected,
                        ..
                    } && expected == f.node->Method_params@.len())
                    &&& r matches Some((m, _)) ==> method_entry_of(
                        final(self).ctx.generic_method_instances@,
                        (type_id, method_name@, concrete_arg_types@),
                    ) matches Some(d) && method_instance_of(f, d, type_id, concrete_arg_types@) && d.node->Function_name@ == m@
                        && exists|tt: crate::types::TypeTable|
                        #[trigger] keeps_types(old(self).ctx.types.infos@, tt.infos@) && keeps_types(
                            tt.infos@,
                            final(self).ctx.types.infos@,
                        ) && value_checked(
                            final(self).diagnostics@,
                            old(self).diagnostics@.len(),
                            tt,
                            d.node->Function_body.ty,
                            crate::decl::opt_resolve(old(self).ctx.types, f.node->Method_return_type),
                            method_return_mismatch(method_name@, d.node->Function_body.span),
                        )
                },
        decreases old(self).ctx.instantiation_budget, 0nat, 0nat,
    {
        if self.ctx.instantiation_budget == 0 {
            self.report(SemanticErrorKind::GenericInferenceFailed { function: String::from_str(method_name) }, call_site_span);
            proof { lemma_one_more_keeps(old(self).diagnostics@, self.diagnostics@); }
            return None;
        }
        let feature = match self.ctx.get_pending_generic_method(type_id, method_name) {
            Some(f) => f,
            None => {
                let tn = self.type_label(type_id);
                self.report(SemanticErrorKind::UnknownMethod { ty_name: tn, method: String::from_str(method_name) }, call_site_span);
                proof { lemma_one_more_keeps(old(self).diagnostics@, self.diagnostics@); }
                return None;
            },
        };
        let (decl_params, return_type, body) = match &feature.node {
            TypeFeaturesKind::Method { params, return_type, body, .. } => (params, return_type, body),
            _ => {
                return None;
            },
        };
        if decl_params.len() != concrete_arg_types.len() {
            self.report(
                SemanticErrorKind::InvalidMethodArity {
                    method: String::from_str(method_name),
                    expected: decl_params.len(),
                    found: concrete_arg_types.len(),
                },
                call_site_span,
            );
            proof { lemma_one_more_keeps(old(self).diagnostics@, self.diagnostics@); }
            return None;
        }
        let key: MethodInstanceKey = (type_id, String::from_str(method_name), copy_ids(concrete_arg_types));
        self.ctx.mark_method_in_progress((type_id, String::from_str(method_name), copy_ids(concrete_arg_types)));
        let mangled_name = self.ctx.mangle_method_instance_name(type_id, method_name, concrete_arg_types.as_slice());
        let saved_budget = self.ctx.instantiation_budget;
        self.ctx.instantiation_budget = saved_budget - 1;
        self.ctx.push_scope();
        let ghost inner_scopes = self.ctx.scopes@;
        self.ctx.current_type = Some(type_id);
        let _ = self.ctx.declare(
            Symbol { name: String::from_str("self"), kind: SymbolKind::Variable, ty: SymbolType::Variable(type_id), span: feature.span },
        );
        let mut typed_params: Vec<TypedParam> = Vec::new();
        let mut i: usize = 0;
        while i < decl_params.len()
            invariant
                self.ctx.generic_decls == old(self).ctx.generic_decls,
                self.wf(),
                decl_params@.len() == concrete_arg_types@.len(),
                self.ctx.scopes@.len() == inner_scopes.len(),
                self.ctx.scopes@.drop_last() == inner_scopes.drop_last(),
                inner_scopes.len() >= 2,
                self.ctx.instantiation_budget == saved_budget - 1,
                keeps_errors(old(self).diagnostics@, self.diagnostics@),
                self.ctx.types == old(self).ctx.types,
                forall|k: int| 0 <= k < concrete_arg_types@.len() ==> (#[trigger] concrete_arg_types@[k]).0 < self.ty_count(),
                i <= decl_params@.len(),
                typed_params@.len() == i,
                forall|q: int|
                    0 <= q < i ==> (#[trigger] typed_params@[q]).node.name@ == decl_params@[q].0@ && typed_params@[q].node.type_id
                        == concrete_arg_types@[q],
            decreases decl_params.len() - i,
        {
            let ghost s0 = self.ctx.scopes@;
            let _ = self.ctx.declare(
                Symbol {
                    name: decl_params[i].0.clone(),
                    kind: SymbolKind::Parameter,
                    ty: SymbolType::Variable(concrete_arg_types[i]),
                    span: feature.span,
                },
            );
            proof { assert(self.ctx.scopes@.drop_last() =~= s0.drop_last()); }
            typed_params.push(
                DeclSpanned::new(TypedParamKind { name: decl_params[i].0.clone(), type_id: concrete_arg_types[i] }, feature.span),
            );
            i = i + 1;
        }
        let ghost resolve_table = self.ctx.types;
        let declared_return: Option<TypeId> = match return_type {
            Some(t) => self.ctx.types.resolve(t.as_str()),
            None => None,
        };
        self.ctx.current_function_return = declared_return;
        self.ctx.current_method = Some(String::from_str(method_name));
        let body_type = self.analyze_expr(body);
        let ghost tt = self.ctx.types;
        self.ctx.current_function_return = None;
        self.ctx.current_method = None;
        let final_return = match declared_return {
            Some(expected_return) => {
                if !self.ctx.types.is_subtype_of(body_type.ty, expected_return) {
                    let ghost mid = self.diagnostics@;
                    let expected = self.type_label(expected_return);
                    let found = self.type_label(body_type.ty);
                    self.report(
                        SemanticErrorKind::MethodReturnTypeMismatch { method: String::from_str(method_name), expected, found },
                        body_type.span,
                    );
                    proof {
                        lemma_one_more_keeps(mid, self.diagnostics@);
                        let e = self.diagnostics@.len() - 1;
                        assert(method_return_mismatch(method_name@, body_type.span)(
                            tt.infos@[expected_return.0 as int].name@,
                            tt.infos@[body_type.ty.0 as int].name@,
                        )(self.diagnostics@[e]));
                    }
                }
                expected_return
            },
            None => body_type.ty,
        };
        let ghost after_check = self.diagnostics@;
        proof {
            assert(value_checked(
                after_check,
                old(self).diagnostics@.len(),
                tt,
                body_type.ty,
                declared_return,
                method_return_mismatch(method_name@, body_type.span),
            ));
        }
        self.ctx.current_type = None;
        self.ctx.pop_scope();
        self.ctx.unmark_method_in_progress(&key);
        self.ctx.instantiation_budget = saved_budget;
        let mut all_params: Vec<TypedParam> = Vec::new();
        all_params.push(DeclSpanned::new(TypedParamKind { name: String::from_str("self"), type_id }, feature.span));
        proof { reveal_strlit("self"); }
        let mut j: usize = 0;
        while j < typed_params.len()
            invariant
                self.ctx.generic_decls == old(self).ctx.generic_decls,
                j <= typed_params@.len(),
                all_params@.len() == j + 1,
                all_params@[0].node.name@ == "self"@ && all_params@[0].node.type_id == type_id,
                forall|q: int|
                    0 <= q < j ==> (#[trigger] all_params@[q + 1]).node.name@ == typed_params@[q].node.name@ && all_params@[q
                        + 1].node.type_id == typed_params@[q].node.type_id,
            decreases typed_params.len() - j,
        {
            let p = DeclSpanned::new(
                TypedParamKind { name: typed_params[j].node.name.clone(), type_id: typed_params[j].node.type_id },
                typed_params[j].span,
            );
            all_params.push(p);
            j = j + 1;
        }
        let typed_decl = DeclSpanned::new(
            TypedDeclKind::Function { name: mangled_name.clone(), params: all_params, return_type: final_return, body: body_type },
            feature.span,
        );
        let ghost kv = method_key_view(key);
        let ghost d = typed_decl;
        self.ctx.insert_method_instance(key, typed_decl);
        proof {
            assert(self.ctx.scopes@ =~= old(self).ctx.scopes@);
            assert(kv == (type_id, method_name@, concrete_arg_types@));
            assert(method_entry_of(self.ctx.generic_method_instances@, kv) == Some(d));
            assert forall|i: int| #[trigger] crate::context::is_first_pending(old(self).ctx.pending_generic_methods@, type_id, method_name@, i)
                implies final_return == inferred_method_return(*old(self), old(self).ctx.pending_generic_methods@[i].2, body_type.ty) by {
                assert(feature.node->Method_return_type == old(self).ctx.pending_generic_methods@[i].2.node->Method_return_type);
                match feature.node->Method_return_type {
                    Some(t) => {
                        crate::decl::lemma_same_names_same_resolve(resolve_table, old(self).ctx.types, t@);
                    },
                    None => {},
                }
            }
            assert forall|i: int| #[trigger] crate::context::is_first_pending(old(self).ctx.pending_generic_methods@, type_id, method_name@, i)
                implies method_instance_of(old(self).ctx.pending_generic_methods@[i].2, d, type_id, concrete_arg_types@) by {
                let f = old(self).ctx.pending_generic_methods@[i].2;
                assert(crate::context::same_method_text(feature, f));
                crate::expr::lemma_mirrors_same_tag(feature.node->Method_body, f.node->Method_body, body_type);
                assert forall|q: int| 0 <= q < f.node->Method_params@.len() implies (#[trigger] d.node->Function_params@[q + 1]).node.name@
                    == f.node->Method_params@[q].0@ && d.node->Function_params@[q + 1].node.type_id == concrete_arg_types@[q] by {
                    assert(typed_params@[q].node.name@ == decl_params@[q].0@);
                }
            }
            lemma_value_checked_kept(
                after_check,
                self.diagnostics@,
                old(self).diagnostics@.len(),
                tt,
                body_type.ty,
                declared_return,
                method_return_mismatch(method_name@, body_type.span),
            );
            assert(keeps_types(old(self).ctx.types.infos@, tt.infos@));
            assert(keeps_types(tt.infos@, self.ctx.types.infos@));
            assert forall|i: int| #[trigger] crate::context::is_first_pending(old(self).ctx.pending_generic_methods@, type_id, method_name@, i)
                implies declared_return == crate::decl::opt_resolve(
                old(self).ctx.types,
                old(self).ctx.pending_generic_methods@[i].2.node->Method_return_type,
            ) by {
                assert(feature.node->Method_return_type == old(self).ctx.pending_generic_methods@[i].2.node->Method_return_type);
                match feature.node->Method_return_type {
                    Some(t) => {
                        crate::decl::lemma_same_names_same_resolve(resolve_table, old(self).ctx.types, t@);
                    },
                    None => {},
                }
            }
        }
        Some((mangled_name, final_return))
    }

    /// Types `for (var in iterable) body`. The iterable must conform to the
    /// protocol `Iterable` (else `TypeMismatch` at the iterable; when no
    /// `Iterable` protocol is declared, `UnknownType`); the loop variable has
    /// the type `current()` returns (`Object` when there is no such method)
    /// in a scope of its own. The loop is lowered to
    /// `let __iter_S_E = iterable in while (__iter_S_E.next()) let var = __iter_S_E.current() in body`,
    /// where `S..E` is its span; the whole is an `Object`.
    pub fn analyze_for(&mut self, var: &String, iterable: &Expr, body: &Expr, span: Span) -> (r: TypedExpr)
        requires
            old(self).wf(),
        ensures
            analyzed(*old(self), *final(self), r),
            r.span == span,
            r.node is Let,
            r.ty == final(self).object_id(),
            r.node->Let_name@ == "__iter_"@ + decimal(span.start as nat) + "_"@ + decimal(span.end as nat),
            r.node->Let_body.node is While,
            r.node->Let_body.ty == final(self).object_id(),
            r.node->Let_value.span == iterable.span,
            for_lowering(*r.node->Let_body, r.node->Let_name@, var@, body.span),
            for_calls_typed(*r.node->Let_body, r.node->Let_value.ty),
            final(self).ctx.types.spec_resolve("Iterable"@) is None ==> crate::type_decl::reported(
                final(self).diagnostics@,
                old(self).diagnostics@.len(),
                unknown_type_named("Iterable"@, iterable.span),
            ),
            exists|tt: crate::types::TypeTable|
                #[trigger] keeps_types(old(self).ctx.types.infos@, tt.infos@) && keeps_types(
                    tt.infos@,
                    final(self).ctx.types.infos@,
                ) && (tt.spec_resolve("Iterable"@) matches Some(p) && !subtype(
                    tt.infos@,
                    r.node->Let_value.ty,
                    p,
                    tt.infos@.len(),
                ) ==> crate::type_decl::reported(
                    final(self).diagnostics@,
                    old(self).diagnostics@.len(),
                    not_iterable(iterable.span, tt.infos@[r.node->Let_value.ty.0 as int].name@),
                )),
        decreases old(self).ctx.instantiation_budget, expr_size(*iterable) + expr_size(*body) + 1, 1nat,
    {
        let iterable_expr = self.analyze_expr(iterable);
        let object_type = self.resolve_builtin("Object");
        let bool_type = self.resolve_builtin("Boolean");
        let ghost m0 = self.diagnostics@;
        let ghost tt = self.ctx.types;
        match self.ctx.types.resolve("Iterable") {
            Some(iterable_protocol) => {
                if !self.ctx.types.is_subtype_of(iterable_expr.ty, iterable_protocol) {
                    let expected = self.type_label(iterable_protocol);
                    let found = self.type_label(iterable_expr.ty);
                    self.report(SemanticErrorKind::TypeMismatch { expected, found }, iterable.span);
                    proof {
                        lemma_one_more_keeps(m0, self.diagnostics@);
                        reveal_strlit("Iterable");
                        let e = self.diagnostics@.len() - 1;
                        assert(not_iterable(iterable.span, tt.infos@[iterable_expr.ty.0 as int].name@)(
                            self.diagnostics@[e],
                        ));
                    }
                }
            },
            None => {
                self.report(SemanticErrorKind::UnknownType { name: String::from_str("Iterable") }, iterable.span);
                proof {
                    lemma_one_more_keeps(m0, self.diagnostics@);
                    reveal_strlit("Iterable");
                    let e = self.diagnostics@.len() - 1;
                    assert(unknown_type_named("Iterable"@, iterable.span)(self.diagnostics@[e]));
                }
            },
        }
        let ghost after_check = *self;
        let loop_var_type = match self.ctx.types.lookup_method(iterable_expr.ty, "current") {
            Some((_, ret)) => ret,
            None => object_type,
        };
        self.ctx.push_scope();
        let _ = self.ctx.declare(
            Symbol { name: var.clone(), kind: SymbolKind::Variable, ty: SymbolType::Variable(loop_var_type), span },
        );
        let body_type = self.analyze_expr(body);
        let result_ty = body_type.ty;
        self.ctx.pop_scope();
        proof {
            assert(self.ctx.scopes@ =~= old(self).ctx.scopes@);
        }
        let mut iter_name = String::from_str("__iter_");
        let start = decimal_string(span.start);
        iter_name.append(start.as_str());
        iter_name.append("_");
        let end = decimal_string(span.end);
        iter_name.append(end.as_str());
        proof {
            reveal_strlit("__iter_");
            reveal_strlit("_");
        }
        let next_call = TypedExpr::new(
            TypedExprKind::MethodCall {
                obj: Box::new(TypedExpr::new(TypedExprKind::Variable(iter_name.clone()), iterable_expr.ty, span)),
                method: String::from_str("next"),
                args: Vec::new(),
            },
            bool_type,
            span,
        );
        let current_call = TypedExpr::new(
            TypedExprKind::MethodCall {
                obj: Box::new(TypedExpr::new(TypedExprKind::Variable(iter_name.clone()), iterable_expr.ty, span)),
                method: String::from_str("current"),
                args: Vec::new(),
            },
            loop_var_type,
            span,
        );
        let inner_let = TypedExpr::new(
            TypedExprKind::Let { name: var.clone(), value: Box::new(current_call), body: Box::new(body_type) },
            result_ty,
            span,
        );
        let whole_type = self.resolve_builtin("Object");
        let while_expr = TypedExpr::new(
            TypedExprKind::While { condition: Box::new(next_call), body: Box::new(inner_let) },
            whole_type,
            span,
        );
        proof {
            reveal_strlit("next");
            reveal_strlit("current");
            reveal_strlit("Iterable");
            lemma_keeps_types_trans(old(self).ctx.types.infos@, tt.infos@, after_check.ctx.types.infos@);
            lemma_keeps_types_trans(tt.infos@, after_check.ctx.types.infos@, self.ctx.types.infos@);
            if tt.spec_resolve("Iterable"@) matches Some(p) && !subtype(
                tt.infos@,
                iterable_expr.ty,
                p,
                tt.infos@.len(),
            ) {
                crate::type_decl::lemma_reported_kept(
                    after_check.diagnostics@,
                    self.diagnostics@,
                    old(self).diagnostics@.len(),
                    not_iterable(iterable.span, tt.infos@[iterable_expr.ty.0 as int].name@),
                );
            }
            assert(keeps_types(old(self).ctx.types.infos@, tt.infos@));
            if self.ctx.types.spec_resolve("Iterable"@) is None {
                crate::type_decl::lemma_unresolved_before(after_check.ctx.types, self.ctx.types, "Iterable"@);
                crate::type_decl::lemma_reported_kept(
                    after_check.diagnostics@,
                    self.diagnostics@,
                    old(self).diagnostics@.len(),
                    unknown_type_named("Iterable"@, iterable.span),
                );
            }
        }
        TypedExpr::new(
            TypedExprKind::Let { name: iter_name, value: Box::new(iterable_expr), body: Box::new(while_expr) },
            whole_type,
            span,
        )
    }
}

} // verus!
