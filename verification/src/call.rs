use vstd::prelude::*;
use crate::analyzer::{
    analyzed, arg_checked, arg_types, args_checked, frame, keeps_errors, keeps_types, lemma_args_checked_start, lemma_args_checked_step,
    lemma_keeps_types_trans, lemma_value_checked_kept, tables_between, value_checked, SemanticAnalyzer,
};
use crate::ast::{exprs_size, lemma_exprs_size_elem, DeclKind, Expr};
use crate::context::{entry_of, function_decl_valid, has_generic_named, key_view, keys_contain, mangled_name, GenericInstanceKey};
use crate::error::{SemanticError, SemanticErrorKind};
use crate::expr::{lemma_one_more_keeps, one_more};
use crate::hir::{DeclSpanned, TypedDeclKind, TypedExpr, TypedExprKind, TypedParam, TypedParamKind};
use crate::span::Span;
use crate::symbols::{opt_id_below, same_symbol_type, symbol_type_valid, Symbol, SymbolKind, SymbolType};
use crate::types::{chain_ids, first_method_sig, subtype, TypeId, TypeInfo};

verus! {

/// The return type an instance of generic function `decl` gets: its
/// annotation when that names a type of `a`, else the type of its body.
pub open spec fn inferred_return(a: SemanticAnalyzer, decl: crate::ast::Decl, body_ty: TypeId) -> TypeId {
    match decl.node->Function_return_type {
        Some(t) => match a.ctx.types.spec_resolve(t@) {
            Some(id) => id,
            None => body_ty,
        },
        None => body_ty,
    }
}

/// The instance `d` of generic function `t` for the concrete types `tys`:
/// each parameter of `t` keeps its name and gets the concrete type at its
/// place (`object` past the last one), and the body is typed from `t`'s body.
pub open spec fn instance_of_template(t: crate::ast::Decl, d: crate::hir::TypedDecl, tys: Seq<TypeId>, object: TypeId) -> bool {
    let ps = t.node->Function_params@;
    &&& d.node->Function_params@.len() == ps.len()
    &&& forall|q: int|
        0 <= q < ps.len() ==> (#[trigger] d.node->Function_params@[q]).node.name@ == ps[q].0@ && d.node->Function_params@[q].node.type_id == (if q
            < tys.len() {
            tys[q]
        } else {
            object
        })
    &&& d.node->Function_body.span == t.node->Function_body.span
    &&& crate::expr::mirrors(t.node->Function_body, d.node->Function_body)
}

/// `n` arguments were passed where `expected` were due: the first new error
/// is `InvalidFunctionArity` for `name`, at the call.
pub open spec fn function_arity_reported(before: Seq<SemanticError>, after: Seq<SemanticError>, name: Seq<char>, expected: nat, n: nat, span: Span) -> bool {
    n != expected ==> {
        &&& after.len() > before.len()
        &&& after[before.len() as int].span == span
        &&& after[before.len() as int].kind matches SemanticErrorKind::InvalidFunctionArity { name: f, expected: e, found }
        &&& f@ == name && e == expected && found == n
    }
}

/// The instance key of a call of a generic function whose parameters
/// declare the types `decl` (`None` where unannotated or a protocol): the
/// declared type where there is one, else the type of the typed argument.
pub open spec fn call_key(decl: Seq<Option<TypeId>>, args: Seq<TypedExpr>) -> Seq<TypeId> {
    Seq::new(args.len(), |k: int| if k < decl.len() && decl[k] is Some { decl[k]->0 } else { args[k].ty })
}

/// What a call of generic function `name` with instance key `tys` gives:
/// the instance recorded for that key (its return type, under its mangled
/// name), or `Object` under the plain name with a new error
/// (`GenericInferenceFailed` or `UndefinedFunction`): the instance is being
/// made, no instance can be made any more, or no generic function has that name.
pub open spec fn generic_call_outcome(before: SemanticAnalyzer, after: SemanticAnalyzer, name: Seq<char>, tys: Seq<TypeId>, r: TypedExpr) -> bool {
    ||| match entry_of(after.ctx.generic_instances@, (name, tys)) {
        Some(d) => r.ty == d.node->Function_return_type && r.node->Call_name@ == mangled_name(after.ctx.types.infos@, name, tys),
        None => false,
    }
    ||| {
        &&& r.ty == after.object_id()
        &&& r.node->Call_name@ == name
        &&& before.diagnostics@.len() < after.diagnostics@.len()
        &&& (after.diagnostics@.last().kind is GenericInferenceFailed || after.diagnostics@.last().kind is UndefinedFunction)
        &&& (keys_contain(after.ctx.in_progress_instances@, (name, tys)) || before.ctx.instantiation_budget == 0
            || !has_generic_named(after.ctx.generic_decls@, name))
    }
}

/// The signature `base` calls from a method `m` of type `ct`: that of the
/// closest proper ancestor of `ct` declaring `m`.
pub open spec fn base_signature(t: Seq<TypeInfo>, ct: TypeId, m: Seq<char>) -> Option<(Seq<TypeId>, TypeId)> {
    match t[ct.0 as int].parent {
        Some(p) => first_method_sig(t, chain_ids(t, p, t.len()), m),
        None => None,
    }
}

/// A call node with no typed arguments.
fn bare_call(name: &str, ty: TypeId, span: Span) -> (r: TypedExpr)
    ensures
        r.ty == ty,
        r.span == span,
        r.node is Call,
{
    TypedExpr::new(TypedExprKind::Call { name: String::from_str(name), args: Vec::new() }, ty, span)
}

/// The types the arguments of a generic function are checked against: a
/// parameter's declared type, else its protocol constraint, else `Object`
/// (which every type is a subtype of: no check).
pub open spec fn generic_param_checks(declared: Seq<Option<TypeId>>, constraints: Seq<Option<TypeId>>) -> Seq<TypeId> {
    Seq::new(
        if constraints.len() > declared.len() { constraints.len() } else { declared.len() },
        |q: int|
            if q < declared.len() && declared[q] is Some {
                declared[q]->0
            } else if q < constraints.len() && constraints[q] is Some {
                constraints[q]->0
            } else {
                TypeId(0)
            },
    )
}

/// The error `base(..)` inside method `method` gives for its argument `k`
/// when that argument does not fit its parameter: at the call itself.
pub open spec fn base_mismatch(method: Seq<char>, span: Span) -> spec_fn(int, SemanticError) -> bool {
    |k: int, e: SemanticError|
        e.span == span && (e.kind matches SemanticErrorKind::FunctionArgumentTypeMismatch { name: n, index, .. } && n@ == method
            && index == k + 1)
}

/// The error a call of `name` gives for its argument `k` (of `args`) when
/// that argument does not fit its parameter.
pub open spec fn call_mismatch(name: Seq<char>, args: Seq<Expr>) -> spec_fn(int, SemanticError) -> bool {
    |k: int, e: SemanticError|
        e.span == args[k].span && (e.kind matches SemanticErrorKind::FunctionArgumentTypeMismatch { name: n, index, .. } && n@ == name
            && index == k + 1)
}

/// `FunctionReturnTypeMismatch` for function `function` whose body, at
/// `span`, has a type other than a subtype of its declared return type.
pub open spec fn function_return_mismatch(function: Seq<char>, span: Span) -> spec_fn(Seq<char>, Seq<char>) -> spec_fn(
    crate::error::SemanticError,
) -> bool {
    |expected: Seq<char>, found: Seq<char>|
        |e: crate::error::SemanticError|
            e.span == span && (e.kind matches SemanticErrorKind::FunctionReturnTypeMismatch { function: n, expected: x, found: f }
                && n@ == function && x@ == expected && f@ == found)
}

impl SemanticAnalyzer {
    /// Types a call `name(args)`. A name that
    /// stands for a variable gives `NotAFunction`; a name that nothing
    /// declares (nor, inside a type, a method of that type) gives
    /// `UndefinedFunction`; both give `Object` without typing the arguments.
    /// A function with a known signature is checked against it; a generic
    /// function is instantiated for the argument types.
    pub fn analyze_call(&mut self, name: &String, args: &Vec<Expr>, span: Span) -> (r: TypedExpr)
        requires
            old(self).wf(),
        ensures
            analyzed(*old(self), *final(self), r),
            r.span == span,
            r.node is Call,
            match old(self).ctx.spec_lookup(name@) {
                Some(sym) => match sym.ty {
                    SymbolType::Variable(_) => {
                        &&& r.ty == old(self).object_id()
                        &&& one_more(old(self).diagnostics@, final(self).diagnostics@, span)
                        &&& final(self).diagnostics@.last().kind matches SemanticErrorKind::NotAFunction { name: n } && n@ == name@
                    },
                    SymbolType::Function { params, ret } => {
                        &&& r.ty == ret
                        &&& r.node->Call_args@.len() == args@.len()
                        &&& function_arity_reported(old(self).diagnostics@, final(self).diagnostics@, name@, params@.len(), args@.len(), span)
                    },
                    SymbolType::GenericFunction { param_types, .. } => {
                        &&& r.node->Call_args@.len() == args@.len()
                        &&& generic_call_outcome(*old(self), *final(self), name@, call_key(param_types@, r.node->Call_args@), r)
                        &&& function_arity_reported(old(self).diagnostics@, final(self).diagnostics@, name@, param_types@.len(), args@.len(), span)
                    },
                },
                None => match old(self).ctx.current_type {
                    Some(ct) => match first_method_sig(
                        old(self).ctx.types.infos@,
                        chain_ids(old(self).ctx.types.infos@, ct, old(self).ty_count()),
                        name@,
                    ) {
                        Some((ps, ret)) => {
                            &&& r.ty == ret
                            &&& r.node->Call_args@.len() == args@.len()
                            &&& function_arity_reported(old(self).diagnostics@, final(self).diagnostics@, name@, ps.len(), args@.len(), span)
                        },
                        None => {
                            &&& r.ty == old(self).object_id()
                            &&& one_more(old(self).diagnostics@, final(self).diagnostics@, span)
                            &&& final(self).diagnostics@.last().kind matches SemanticErrorKind::UndefinedFunction { name: n }
                                && n@ == name@
                        },
                    },
                    None => {
                        &&& r.ty == old(self).object_id()
                        &&& one_more(old(self).diagnostics@, final(self).diagnostics@, span)
                        &&& final(self).diagnostics@.last().kind matches SemanticErrorKind::UndefinedFunction { name: n }
                            && n@ == name@
                    },
                },
            },
        decreases old(self).ctx.instantiation_budget, exprs_size(args@) + 1, 1nat,
    {
        let object_type = self.resolve_builtin("Object");
        let symbol_ty: Option<SymbolType> = match self.ctx.lookup(name.as_str()) {
            Some(sym) => Some(sym.ty.duplicate()),
            None => None,
        };
        match symbol_ty {
            Some(SymbolType::Function { params, ret }) => {
                self.analyze_concrete_call(name.as_str(), name.as_str(), args, &params, ret, span)
            },
            Some(SymbolType::GenericFunction { .. }) => self.analyze_generic_call(name.as_str(), args, span),
            Some(SymbolType::Variable(_)) => {
                self.report(SemanticErrorKind::NotAFunction { name: name.clone() }, span);
                proof { lemma_one_more_keeps(old(self).diagnostics@, self.diagnostics@); }
                bare_call(name.as_str(), object_type, span)
            },
            None => {
                let found = match self.ctx.current_type {
                    Some(current_type_id) => self.ctx.types.lookup_method(current_type_id, name.as_str()),
                    None => None,
                };
                match found {
                    Some((params, ret)) => self.analyze_concrete_call(name.as_str(), name.as_str(), args, &params, ret, span),
                    None => {
                        self.report(SemanticErrorKind::UndefinedFunction { name: name.clone() }, span);
                        proof { lemma_one_more_keeps(old(self).diagnostics@, self.diagnostics@); }
                        bare_call(name.as_str(), object_type, span)
                    },
                }
            },
        }
    }

    /// Checks a call against a known signature: the number of arguments
    /// (else `InvalidFunctionArity`), then each argument that has a parameter
    /// must be a subtype of its type (else `FunctionArgumentTypeMismatch` at
    /// the argument). The call has the signature's return type.
    pub fn analyze_concrete_call(
        &mut self,
        call_name: &str,
        display_name: &str,
        args: &Vec<Expr>,
        param_types: &Vec<TypeId>,
        return_type: TypeId,
        span: Span,
    ) -> (r: TypedExpr)
        requires
            old(self).wf(),
            return_type.0 < old(self).ty_count(),
            forall|i: int| 0 <= i < param_types@.len() ==> (#[trigger] param_types@[i]).0 < old(self).ty_count(),
        ensures
            analyzed(*old(self), *final(self), r),
            r.span == span,
            r.ty == return_type,
            r.node is Call,
            r.node->Call_name@ == call_name@,
            r.node->Call_args@.len() == args@.len(),
            function_arity_reported(old(self).diagnostics@, final(self).diagnostics@, display_name@, param_types@.len(), args@.len(), span),
            (args@.len() == 0 && param_types@.len() == 0) ==> final(self).diagnostics@ == old(self).diagnostics@,
            exists|starts: Seq<int>, checks: Seq<int>, tables: Seq<Seq<TypeInfo>>|
                {
                    &&& #[trigger] args_checked(
                        final(self).diagnostics@,
                        starts,
                        checks,
                        tables,
                        arg_types(r.node->Call_args@),
                        param_types@,
                        call_mismatch(display_name@, args@),
                    )
                    &&& starts[0] == old(self).diagnostics@.len() + if args@.len() != param_types@.len() { 1int } else { 0int }
                    &&& starts[args@.len() as int] == final(self).diagnostics@.len()
                    &&& tables_between(old(self).ctx.types.infos@, tables, final(self).ctx.types.infos@)
                },
        decreases old(self).ctx.instantiation_budget, exprs_size(args@) + 1, 0nat,
    {
        if args.len() != param_types.len() {
            self.report(
                SemanticErrorKind::InvalidFunctionArity {
                    name: String::from_str(display_name),
                    expected: param_types.len(),
                    found: args.len(),
                },
                span,
            );
            proof { lemma_one_more_keeps(old(self).diagnostics@, self.diagnostics@); }
        }
        let ghost start = *self;
        let ghost mm = call_mismatch(display_name@, args@);
        let ghost mut starts: Seq<int> = seq![self.diagnostics@.len() as int];
        let ghost mut checks: Seq<int> = Seq::empty();
        let ghost mut tables: Seq<Seq<TypeInfo>> = Seq::empty();
        proof {
            lemma_args_checked_start(self.diagnostics@, self.diagnostics@.len() as int, param_types@, mm);
            assert(arg_types(Seq::<TypedExpr>::empty()) =~= Seq::<TypeId>::empty());
        }
        let mut typed_args: Vec<TypedExpr> = Vec::new();
        let mut i: usize = 0;
        while i < args.len()
            invariant
                self.wf(),
                frame(*old(self), *self),
                keeps_errors(start.diagnostics@, self.diagnostics@),
                mm == call_mismatch(display_name@, args@),
                args_checked(self.diagnostics@, starts, checks, tables, arg_types(typed_args@), param_types@, mm),
                starts[i as int] == self.diagnostics@.len(),
                starts[0] == old(self).diagnostics@.len() + if args@.len() != param_types@.len() { 1int } else { 0int },
                tables_between(old(self).ctx.types.infos@, tables, self.ctx.types.infos@),
                (args@.len() == 0 && param_types@.len() == 0) ==> self.diagnostics@ == old(self).diagnostics@,
                i <= args@.len(),
                typed_args@.len() == i,
                self.ctx.instantiation_budget == old(self).ctx.instantiation_budget,
                return_type.0 < self.ty_count(),
                forall|k: int| 0 <= k < param_types@.len() ==> (#[trigger] param_types@[k]).0 < self.ty_count(),
            decreases args.len() - i,
        {
            proof { lemma_exprs_size_elem(args@, i as int); }
            let ghost ea = self.diagnostics@;
            let ghost ta = self.ctx.types.infos@;
            let ghost prev = typed_args@;
            let arg_type = self.analyze_expr(&args[i]);
            let ghost c = self.diagnostics@.len() as int;
            let ghost t = self.ctx.types.infos@;
            if i < param_types.len() {
                let expected_type = param_types[i];
                if !self.ctx.types.is_subtype_of(arg_type.ty, expected_type) {
                    let ghost mid = self.diagnostics@;
                    let expected = self.type_label(expected_type);
                    let found = self.type_label(arg_type.ty);
                    self.report(
                        SemanticErrorKind::FunctionArgumentTypeMismatch {
                            name: String::from_str(display_name),
                            index: i + 1,
                            expected,
                            found,
                        },
                        args[i].span,
                    );
                    proof {
                        lemma_one_more_keeps(mid, self.diagnostics@);
                        assert(mm(i as int, self.diagnostics@[c]));
                    }
                }
            }
            typed_args.push(arg_type);
            proof {
                assert(arg_checked(self.diagnostics@, c, self.diagnostics@.len() as int, t, arg_type.ty, i as int, param_types@, mm));
                lemma_args_checked_step(ea, self.diagnostics@, starts, checks, tables, arg_types(prev), param_types@, mm, c, t, arg_type.ty);
                assert(arg_types(typed_args@) =~= arg_types(prev).push(arg_type.ty));
                let ghost old_tables = tables;
                starts = starts.push(self.diagnostics@.len() as int);
                checks = checks.push(c);
                tables = tables.push(t);
                assert forall|k: int| 0 <= k < tables.len() implies keeps_types(old(self).ctx.types.infos@, #[trigger] tables[k])
                    && keeps_types(tables[k], self.ctx.types.infos@) by {
                    if k < old_tables.len() {
                        assert(tables[k] == old_tables[k]);
                        lemma_keeps_types_trans(old_tables[k], ta, self.ctx.types.infos@);
                    } else {
                        lemma_keeps_types_trans(old(self).ctx.types.infos@, ta, t);
                        assert(t =~= self.ctx.types.infos@);
                    }
                }
            }
            i = i + 1;
        }
        let ghost typed_final = typed_args@;
        let r = TypedExpr::new(TypedExprKind::Call { name: String::from_str(call_name), args: typed_args }, return_type, span);
        proof {
            assert(r.node->Call_args@ == typed_final);
            assert(args_checked(self.diagnostics@, starts, checks, tables, arg_types(r.node->Call_args@), param_types@, mm));
            assert(starts[args@.len() as int] == self.diagnostics@.len());
        }
        r
    }

    /// The signature of method `method_name` as the parent of `type_id` (or
    /// its closest ancestor that has it) declares it.
    pub fn find_closest_ancestor_method_signature(&self, type_id: TypeId, method_name: &str) -> (r: Option<(Vec<TypeId>, TypeId)>)
        requires
            self.wf(),
            type_id.0 < self.ty_count(),
        ensures
            match self.ctx.types.infos@[type_id.0 as int].parent {
                Some(p) => match r {
                    Some((ps, ret)) => first_method_sig(self.ctx.types.infos@, chain_ids(self.ctx.types.infos@, p, self.ty_count()), method_name@)
                        == Some((ps@, ret)) && ret.0 < self.ty_count() && forall|i: int|
                        0 <= i < ps@.len() ==> (#[trigger] ps@[i]).0 < self.ty_count(),
                    None => first_method_sig(self.ctx.types.infos@, chain_ids(self.ctx.types.infos@, p, self.ty_count()), method_name@)
                        is None,
                },
                None => r is None,
            },
    {
        match self.ctx.types.get_parent(type_id) {
            Some(parent_id) => {
                proof { assert(crate::types::info_valid(self.ctx.types.infos@[type_id.0 as int], self.ty_count())); }
                self.ctx.types.lookup_method(parent_id, method_name)
            },
            None => None,
        }
    }

    /// Types `base(args)` inside a method: it calls the same method as the
    /// closest ancestor declares it. Outside a type method it gives
    /// `InvalidBaseUsage`; with no ancestor method, `UndefinedBaseMethod`;
    /// then arity (`InvalidMethodArity`) and argument types
    /// (`FunctionArgumentTypeMismatch`, at the call) are checked as for any call.
    pub fn analyze_base_call(&mut self, name: &String, args: &Vec<Expr>, span: Span) -> (r: TypedExpr)
        requires
            old(self).wf(),
        ensures
            analyzed(*old(self), *final(self), r),
            r.span == span,
            r.node is Call,
            (old(self).ctx.current_type is None || old(self).ctx.current_method is None) ==> {
                &&& r.ty == old(self).object_id()
                &&& one_more(old(self).diagnostics@, final(self).diagnostics@, span)
                &&& final(self).diagnostics@.last().kind is InvalidBaseUsage
            },
            old(self).ctx.current_type matches Some(ct) ==> old(self).ctx.current_method matches Some(m) ==> match base_signature(
                old(self).ctx.types.infos@,
                ct,
                m@,
            ) {
                None => {
                    &&& r.ty == old(self).object_id()
                    &&& one_more(old(self).diagnostics@, final(self).diagnostics@, span)
                    &&& final(self).diagnostics@.last().kind matches SemanticErrorKind::UndefinedBaseMethod { ty_name, method }
                    &&& ty_name@ == old(self).name_of(ct) && method@ == m@
                },
                Some((ps, ret)) => {
                    &&& r.ty == ret
                    &&& r.node->Call_args@.len() == args@.len()
                    &&& args@.len() != ps.len() ==> {
                        &&& final(self).diagnostics@.len() > old(self).diagnostics@.len()
                        &&& final(self).diagnostics@[old(self).diagnostics@.len() as int].span == span
                        &&& final(self).diagnostics@[old(self).diagnostics@.len() as int].kind matches SemanticErrorKind::InvalidMethodArity {
                            method,
                            expected,
                            found,
                        }
                        &&& method@ == m@ && expected == ps.len() && found == args@.len()
                    }
                    &&& (args@.len() == 0 && ps.len() == 0) ==> final(self).diagnostics@ == old(self).diagnostics@
                    &&& exists|starts: Seq<int>, checks: Seq<int>, tables: Seq<Seq<TypeInfo>>|
                        {
                            &&& #[trigger] args_checked(
                                final(self).diagnostics@,
                                starts,
                                checks,
                                tables,
                                arg_types(r.node->Call_args@),
                                ps,
                                base_mismatch(m@, span),
                            )
                            &&& starts[0] == old(self).diagnostics@.len() + if args@.len() != ps.len() { 1int } else { 0int }
                            &&& starts[args@.len() as int] == final(self).diagnostics@.len()
                            &&& tables_between(old(self).ctx.types.infos@, tables, final(self).ctx.types.infos@)
                        }
                },
            },
        decreases old(self).ctx.instantiation_budget, exprs_size(args@) + 1, 1nat,
    {
        let object_type = self.resolve_builtin("Object");
        let current_type_id = match self.ctx.current_type {
            Some(id) => id,
            None => {
                self.report(SemanticErrorKind::InvalidBaseUsage, span);
                proof { lemma_one_more_keeps(old(self).diagnostics@, self.diagnostics@); }
                return bare_call(name.as_str(), object_type, span);
            },
        };
        let current_method_name = match &self.ctx.current_method {
            Some(m) => m.clone(),
            None => {
                self.report(SemanticErrorKind::InvalidBaseUsage, span);
                proof { lemma_one_more_keeps(old(self).diagnostics@, self.diagnostics@); }
                return bare_call(name.as_str(), object_type, span);
            },
        };
        let (param_types, return_type) = match self.find_closest_ancestor_method_signature(
            current_type_id,
            current_method_name.as_str(),
        ) {
            Some((params, ret)) => (params, ret),
            None => {
                let tn = self.type_label(current_type_id);
                self.report(SemanticErrorKind::UndefinedBaseMethod { ty_name: tn, method: current_method_name }, span);
                proof { lemma_one_more_keeps(old(self).diagnostics@, self.diagnostics@); }
                return bare_call(name.as_str(), object_type, span);
            },
        };
        if args.len() != param_types.len() {
            self.report(
                SemanticErrorKind::InvalidMethodArity {
                    method: current_method_name.clone(),
                    expected: param_types.len(),
                    found: args.len(),
                },
                span,
            );
            proof { lemma_one_more_keeps(old(self).diagnostics@, self.diagnostics@); }
        }
        let ghost arity_error = self.diagnostics@[old(self).diagnostics@.len() as int];
        let ghost mm = base_mismatch(current_method_name@, span);
        let ghost mut starts: Seq<int> = seq![self.diagnostics@.len() as int];
        let ghost mut checks: Seq<int> = Seq::empty();
        let ghost mut tables: Seq<Seq<TypeInfo>> = Seq::empty();
        proof {
            lemma_args_checked_start(self.diagnostics@, self.diagnostics@.len() as int, param_types@, mm);
            assert(arg_types(Seq::<TypedExpr>::empty()) =~= Seq::<TypeId>::empty());
        }
        let mut typed_args: Vec<TypedExpr> = Vec::new();
        let mut i: usize = 0;
        while i < args.len()
            invariant
                self.wf(),
                frame(*old(self), *self),
                mm == base_mismatch(current_method_name@, span),
                args_checked(self.diagnostics@, starts, checks, tables, arg_types(typed_args@), param_types@, mm),
                starts[i as int] == self.diagnostics@.len(),
                starts[0] == old(self).diagnostics@.len() + if args@.len() != param_types@.len() { 1int } else { 0int },
                tables_between(old(self).ctx.types.infos@, tables, self.ctx.types.infos@),
                args@.len() != param_types@.len() ==> {
                    &&& self.diagnostics@.len() > old(self).diagnostics@.len()
                    &&& self.diagnostics@[old(self).diagnostics@.len() as int] == arity_error
                },
                (args@.len() == 0 && param_types@.len() == 0) ==> self.diagnostics@ == old(self).diagnostics@,
                i <= args@.len(),
                typed_args@.len() == i,
                return_type.0 < self.ty_count(),
                forall|k: int| 0 <= k < param_types@.len() ==> (#[trigger] param_types@[k]).0 < self.ty_count(),
            decreases args.len() - i,
        {
            proof { lemma_exprs_size_elem(args@, i as int); }
            let ghost ea = self.diagnostics@;
            let ghost ta = self.ctx.types.infos@;
            let ghost prev = typed_args@;
            let arg_type = self.analyze_expr(&args[i]);
            let ghost c = self.diagnostics@.len() as int;
            let ghost t = self.ctx.types.infos@;
            if i < param_types.len() {
                let expected_type = param_types[i];
                if !self.ctx.types.is_subtype_of(arg_type.ty, expected_type) {
                    let ghost mid = self.diagnostics@;
                    let expected = self.type_label(expected_type);
                    let found = self.type_label(arg_type.ty);
                    self.report(
                        SemanticErrorKind::FunctionArgumentTypeMismatch {
                            name: current_method_name.clone(),
                            index: i + 1,
                            expected,
                            found,
                        },
                        span,
                    );
                    proof {
                        lemma_one_more_keeps(mid, self.diagnostics@);
                        assert(mm(i as int, self.diagnostics@[c]));
                    }
                }
            }
            typed_args.push(arg_type);
            proof {
                assert(arg_checked(self.diagnostics@, c, self.diagnostics@.len() as int, t, arg_type.ty, i as int, param_types@, mm));
                lemma_args_checked_step(ea, self.diagnostics@, starts, checks, tables, arg_types(prev), param_types@, mm, c, t, arg_type.ty);
                assert(arg_types(typed_args@) =~= arg_types(prev).push(arg_type.ty));
                let ghost old_tables = tables;
                starts = starts.push(self.diagnostics@.len() as int);
                checks = checks.push(c);
                tables = tables.push(t);
                assert forall|k: int| 0 <= k < tables.len() implies keeps_types(old(self).ctx.types.infos@, #[trigger] tables[k])
                    && keeps_types(tables[k], self.ctx.types.infos@) by {
                    if k < old_tables.len() {
                        assert(tables[k] == old_tables[k]);
                        lemma_keeps_types_trans(old_tables[k], ta, self.ctx.types.infos@);
                    } else {
                        lemma_keeps_types_trans(old(self).ctx.types.infos@, ta, t);
                        assert(t =~= self.ctx.types.infos@);
                    }
                }
            }
            i = i + 1;
        }
        let ghost typed_final = typed_args@;
        let r = TypedExpr::new(TypedExprKind::Call { name: name.clone(), args: typed_args }, return_type, span);
        proof {
            assert(r.node->Call_args@ == typed_final);
            assert(args_checked(self.diagnostics@, starts, checks, tables, arg_types(r.node->Call_args@), param_types@, mm));
        }
        r
    }
}


/// Mangled names only read entries that a table extension keeps.
pub(crate) proof fn lemma_mangled_stable(a: Seq<crate::types::TypeInfo>, b: Seq<crate::types::TypeInfo>, base: Seq<char>, tys: Seq<TypeId>)
    requires
        keeps_types(a, b),
        forall|k: int| 0 <= k < tys.len() ==> (#[trigger] tys[k]).0 < a.len(),
    ensures
        mangled_name(a, base, tys) == mangled_name(b, base, tys),
    decreases tys.len(),
{
    if tys.len() > 0 {
        let rest = tys.drop_last();
        assert forall|k: int| 0 <= k < rest.len() implies (#[trigger] rest[k]).0 < a.len() by {
            assert(rest[k] == tys[k]);
        }
        lemma_mangled_stable(a, b, base, rest);
        assert(tys.last() == tys[tys.len() - 1]);
        assert(b[tys.last().0 as int] == a[tys.last().0 as int]);
    }
}

impl SemanticAnalyzer {
    /// Types a call of a generic function. The arguments are typed; an
    /// argument with a declared parameter type is checked against it (and
    /// that type goes into the instance key), one whose parameter carries a
    /// protocol is checked against the protocol, any other gives its own type
    /// to the key. The instance for the key is reused when it exists; when it
    /// is being made (the function needs itself) `GenericInferenceFailed` is
    /// added and the call is an `Object`; otherwise it is made now.
    pub fn analyze_generic_call(&mut self, name: &str, args: &Vec<Expr>, span: Span) -> (r: TypedExpr)
        requires
            old(self).wf(),
            old(self).ctx.spec_lookup(name@) is Some,
            old(self).ctx.spec_lookup(name@)->0.ty is GenericFunction,
        ensures
            analyzed(*old(self), *final(self), r),
            r.span == span,
            r.node is Call,
            r.node->Call_args@.len() == args@.len(),
            generic_call_outcome(
                *old(self),
                *final(self),
                name@,
                call_key(old(self).ctx.spec_lookup(name@)->0.ty->GenericFunction_param_types@, r.node->Call_args@),
                r,
            ),
            function_arity_reported(
                old(self).diagnostics@,
                final(self).diagnostics@,
                name@,
                old(self).ctx.spec_lookup(name@)->0.ty->GenericFunction_param_types@.len(),
                args@.len(),
                span,
            ),
            exists|starts: Seq<int>, checks: Seq<int>, tables: Seq<Seq<TypeInfo>>|
                {
                    &&& #[trigger] args_checked(
                        final(self).diagnostics@,
                        starts,
                        checks,
                        tables,
                        arg_types(r.node->Call_args@),
                        generic_param_checks(
                            old(self).ctx.spec_lookup(name@)->0.ty->GenericFunction_param_types@,
                            old(self).ctx.spec_lookup(name@)->0.ty->GenericFunction_param_protocol_constraints@,
                        ),
                        call_mismatch(name@, args@),
                    )
                    &&& starts[0] == old(self).diagnostics@.len() + if args@.len() != old(self).ctx.spec_lookup(
                        name@,
                    )->0.ty->GenericFunction_param_types@.len() {
                        1int
                    } else {
                        0int
                    }
                    &&& tables_between(old(self).ctx.types.infos@, tables, final(self).ctx.types.infos@)
                },
        decreases old(self).ctx.instantiation_budget, exprs_size(args@) + 1, 0nat,
    {
        let (param_types_decl, param_constraints_decl) = match self.ctx.lookup(name) {
            Some(sym) => match &sym.ty {
                SymbolType::GenericFunction { param_types, param_protocol_constraints, .. } => {
                    (copy_opt_ids(param_types), copy_opt_ids(param_protocol_constraints))
                },
                _ => (Vec::new(), Vec::new()),
            },
            None => (Vec::new(), Vec::new()),
        };
        let declared_arity = param_types_decl.len();
        if args.len() != declared_arity {
            self.report(
                SemanticErrorKind::InvalidFunctionArity { name: String::from_str(name), expected: declared_arity, found: args.len() },
                span,
            );
            proof { lemma_one_more_keeps(old(self).diagnostics@, self.diagnostics@); }
        }
        let ghost arity_state = self.diagnostics@;
        let ghost pts = generic_param_checks(param_types_decl@, param_constraints_decl@);
        let ghost mm = call_mismatch(name@, args@);
        let ghost mut starts: Seq<int> = seq![self.diagnostics@.len() as int];
        let ghost mut checks: Seq<int> = Seq::empty();
        let ghost mut tables: Seq<Seq<TypeInfo>> = Seq::empty();
        proof {
            lemma_args_checked_start(self.diagnostics@, self.diagnostics@.len() as int, pts, mm);
            assert(arg_types(Seq::<TypedExpr>::empty()) =~= Seq::<TypeId>::empty());
        }
        let mut typed_args: Vec<TypedExpr> = Vec::new();
        let mut instance_key_types: Vec<TypeId> = Vec::new();
        let mut i: usize = 0;
        while i < args.len()
            invariant
                self.wf(),
                frame(*old(self), *self),
                param_constraints_decl@ == old(self).ctx.spec_lookup(name@)->0.ty->GenericFunction_param_protocol_constraints@,
                pts == generic_param_checks(param_types_decl@, param_constraints_decl@),
                mm == call_mismatch(name@, args@),
                args_checked(self.diagnostics@, starts, checks, tables, arg_types(typed_args@), pts, mm),
                starts[i as int] == self.diagnostics@.len(),
                starts[0] == old(self).diagnostics@.len() + if args@.len() != param_types_decl@.len() { 1int } else { 0int },
                tables_between(old(self).ctx.types.infos@, tables, self.ctx.types.infos@),
                keeps_errors(arity_state, self.diagnostics@),
                i <= args@.len(),
                typed_args@.len() == i,
                instance_key_types@.len() == i,
                forall|k: int| 0 <= k < instance_key_types@.len() ==> (#[trigger] instance_key_types@[k]).0 < self.ty_count(),
                forall|k: int| 0 <= k < param_types_decl@.len() ==> opt_id_below(#[trigger] param_types_decl@[k], self.ty_count()),
                param_types_decl@ == old(self).ctx.spec_lookup(name@)->0.ty->GenericFunction_param_types@,
                forall|k: int| 0 <= k < i ==> (#[trigger] instance_key_types@[k]) == call_key(param_types_decl@, typed_args@)[k],
                forall|k: int| 0 <= k < param_constraints_decl@.len() ==> opt_id_below(#[trigger] param_constraints_decl@[k], self.ty_count()),
            decreases args.len() - i,
        {
            proof { lemma_exprs_size_elem(args@, i as int); }
            let ghost ea = self.diagnostics@;
            let ghost ta = self.ctx.types.infos@;
            let ghost prev = typed_args@;
            let arg_type = self.analyze_expr(&args[i]);
            let ghost c = self.diagnostics@.len() as int;
            let ghost t = self.ctx.types.infos@;
            let declared: Option<TypeId> = if i < param_types_decl.len() { param_types_decl[i] } else { None };
            match declared {
                Some(expected_type) => {
                    if !self.ctx.types.is_subtype_of(arg_type.ty, expected_type) {
                        let ghost mid = self.diagnostics@;
                        let expected = self.type_label(expected_type);
                        let found = self.type_label(arg_type.ty);
                        self.report(
                            SemanticErrorKind::FunctionArgumentTypeMismatch { name: String::from_str(name), index: i + 1, expected, found },
                            args[i].span,
                        );
                        proof {
                            lemma_one_more_keeps(mid, self.diagnostics@);
                            assert(mm(i as int, self.diagnostics@[c]));
                        }
                    }
                    proof { assert(pts[i as int] == expected_type); }
                    instance_key_types.push(expected_type);
                },
                None => {
                    let constraint: Option<TypeId> = if i < param_constraints_decl.len() {
                        param_constraints_decl[i]
                    } else {
                        None
                    };
                    match constraint {
                        Some(protocol_id) => {
                            proof { assert(pts[i as int] == protocol_id); }
                            if !self.ctx.types.is_subtype_of(arg_type.ty, protocol_id) {
                                let ghost mid = self.diagnostics@;
                                let expected = self.type_label(protocol_id);
                                let found = self.type_label(arg_type.ty);
                                self.report(
                                    SemanticErrorKind::FunctionArgumentTypeMismatch { name: String::from_str(name), index: i + 1, expected, found },
                                    args[i].span,
                                );
                                proof {
                                    lemma_one_more_keeps(mid, self.diagnostics@);
                                    assert(mm(i as int, self.diagnostics@[c]));
                                }
                            }
                        },
                        None => {
                            proof {
                                if (i as int) < pts.len() {
                                    assert(pts[i as int] == TypeId(0));
                                }
                            }
                        },
                    }
                    instance_key_types.push(arg_type.ty);
                },
            }
            typed_args.push(arg_type);
            proof {
                assert(arg_checked(self.diagnostics@, c, self.diagnostics@.len() as int, t, arg_type.ty, i as int, pts, mm));
                lemma_args_checked_step(ea, self.diagnostics@, starts, checks, tables, arg_types(prev), pts, mm, c, t, arg_type.ty);
                assert(arg_types(typed_args@) =~= arg_types(prev).push(arg_type.ty));
                let ghost old_tables = tables;
                starts = starts.push(self.diagnostics@.len() as int);
                checks = checks.push(c);
                tables = tables.push(t);
                assert forall|k: int| 0 <= k < tables.len() implies keeps_types(old(self).ctx.types.infos@, #[trigger] tables[k])
                    && keeps_types(tables[k], self.ctx.types.infos@) by {
                    if k < old_tables.len() {
                        assert(tables[k] == old_tables[k]);
                        lemma_keeps_types_trans(old_tables[k], ta, self.ctx.types.infos@);
                    } else {
                        lemma_keeps_types_trans(old(self).ctx.types.infos@, ta, t);
                        assert(t =~= self.ctx.types.infos@);
                    }
                }
            }
            i = i + 1;
        }
        let key: GenericInstanceKey = (String::from_str(name), copy_ids(&instance_key_types));
        let cached: Option<TypeId> = match self.ctx.get_instance(&key) {
            Some(existing) => {
                proof {
                    let k = choose|k: int| crate::context::is_first_key(self.ctx.generic_instances@, key_view(key), k);
                    assert(function_decl_valid(self.ctx.generic_instances@[k].1, self.ty_count()));
                }
                Some(existing.node_return_type())
            },
            None => None,
        };
        let ghost tys = instance_key_types@;
        let ghost loop_end = *self;
        let (mangled, return_type) = match cached {
            Some(ret) => (self.ctx.mangle_instance_name(name, instance_key_types.as_slice()), ret),
            None => {
                if self.ctx.is_in_progress(&key) {
                    let ghost mid = self.diagnostics@;
                    self.report(SemanticErrorKind::GenericInferenceFailed { function: String::from_str(name) }, span);
                    proof { lemma_one_more_keeps(mid, self.diagnostics@); }
                    (String::from_str(name), self.resolve_builtin("Object"))
                } else {
                    let ghost t_pre = self.ctx.types.infos@;
                    match self.instantiate_generic_function(name, &instance_key_types, span) {
                        Some((m, ret)) => {
                            proof { lemma_mangled_stable(t_pre, self.ctx.types.infos@, name@, tys); }
                            (m, ret)
                        },
                        None => (String::from_str(name), self.resolve_builtin("Object")),
                    }
                }
            },
        };
        let ghost targs = typed_args@;
        let r = TypedExpr::new(TypedExprKind::Call { name: mangled, args: typed_args }, return_type, span);
        proof {
            assert(key_view(key) == (name@, tys));
            assert(tys =~= call_key(param_types_decl@, targs));
            assert(keeps_errors(loop_end.diagnostics@, self.diagnostics@));
            assert(keeps_types(loop_end.ctx.types.infos@, self.ctx.types.infos@));
            crate::analyzer::lemma_args_checked_kept(loop_end.diagnostics@, self.diagnostics@, starts, checks, tables, arg_types(targs), pts, mm);
            assert forall|k: int| 0 <= k < tables.len() implies keeps_types(old(self).ctx.types.infos@, #[trigger] tables[k])
                && keeps_types(tables[k], self.ctx.types.infos@) by {
                lemma_keeps_types_trans(tables[k], loop_end.ctx.types.infos@, self.ctx.types.infos@);
            }
            assert(r.node->Call_args@ == targs);
        }
        r
    }

    /// Makes the instance of generic function `name` for the concrete types:
    /// its parameters get those types, its body is analysed, and the return
    /// type is the declared one (the body must be a subtype of it, else
    /// `FunctionReturnTypeMismatch`) or the body's. The instance is recorded
    /// under `name$T1$...`. While it is made, its key is marked in progress.
    /// With no generic function of that name, `UndefinedFunction`; when
    /// instances nest too deeply, `GenericInferenceFailed`.
    pub fn instantiate_generic_function(&mut self, name: &str, concrete_types: &Vec<TypeId>, call_site_span: Span) -> (r: Option<(String, TypeId)>)
        requires
            old(self).wf(),
            forall|k: int| 0 <= k < concrete_types@.len() ==> (#[trigger] concrete_types@[k]).0 < old(self).ty_count(),
        ensures
            frame(*old(self), *final(self)),
            match r {
                Some((m, ret)) => {
                    &&& ret.0 < final(self).ty_count()
                    &&& m@ == mangled_name(old(self).ctx.types.infos@, name@, concrete_types@)
                    &&& entry_of(final(self).ctx.generic_instances@, (name@, concrete_types@)) matches Some(d) && d.node
                        is Function && d.node->Function_return_type == ret && (forall|i: int|
                        #[trigger] crate::context::is_first_generic(old(self).ctx.generic_decls@, name@, i) ==> ret == inferred_return(
                            *old(self),
                            old(self).ctx.generic_decls@[i].1,
                            d.node->Function_body.ty,
                        ) && instance_of_template(old(self).ctx.generic_decls@[i].1, d, concrete_types@, old(self).object_id())
                            && d.node->Function_name@ == m@ && exists|tt: crate::types::TypeTable|
                        #[trigger] keeps_types(old(self).ctx.types.infos@, tt.infos@) && keeps_types(
                            tt.infos@,
                            final(self).ctx.types.infos@,
                        ) && value_checked(
                            final(self).diagnostics@,
                            old(self).diagnostics@.len(),
                            tt,
                            d.node->Function_body.ty,
                            crate::decl::opt_resolve(old(self).ctx.types, old(self).ctx.generic_decls@[i].1.node->Function_return_type),
                            function_return_mismatch(name@, d.node->Function_body.span),
                        ))
                    &&& !keys_contain(final(self).ctx.in_progress_instances@, (name@, concrete_types@))
                },
                None => {
                    &&& final(self).ctx == old(self).ctx
                    &&& one_more(old(self).diagnostics@, final(self).diagnostics@, call_site_span)
                    &&& old(self).ctx.instantiation_budget == 0 ==> (final(self).diagnostics@.last().kind matches SemanticErrorKind::GenericInferenceFailed {
                        function,
                    } && function@ == name@)
                    &&& old(self).ctx.instantiation_budget != 0 ==> (final(self).diagnostics@.last().kind matches SemanticErrorKind::UndefinedFunction {
                        name: n,
                    } && n@ == name@)
                },
            },
            r is None <==> (old(self).ctx.instantiation_budget == 0 || !has_generic_named(old(self).ctx.generic_decls@, name@)),
        decreases old(self).ctx.instantiation_budget, 0nat, 0nat,
    {
        if self.ctx.instantiation_budget == 0 {
            self.report(SemanticErrorKind::GenericInferenceFailed { function: String::from_str(name) }, call_site_span);
            proof { lemma_one_more_keeps(old(self).diagnostics@, self.diagnostics@); }
            return None;
        }
        let function_decl = match self.ctx.get_generic_decl(name) {
            Some(d) => d,
            None => {
                self.report(SemanticErrorKind::UndefinedFunction { name: String::from_str(name) }, call_site_span);
                proof { lemma_one_more_keeps(old(self).diagnostics@, self.diagnostics@); }
                return None;
            },
        };
        let (params, return_type, body) = match &function_decl.node {
            DeclKind::Function { params, return_type, body, .. } => (params, return_type, body),
            _ => {
                return None;
            },
        };
        let decl_name = String::from_str(name);
        let mangled_name = self.ctx.mangle_instance_name(name, concrete_types.as_slice());
        let key: GenericInstanceKey = (decl_name, copy_ids(concrete_types));
        self.ctx.mark_in_progress((String::from_str(name), copy_ids(concrete_types)));
        let saved_budget = self.ctx.instantiation_budget;
        self.ctx.instantiation_budget = saved_budget - 1;
        self.ctx.push_scope();
        let ghost inner_scopes = self.ctx.scopes@;
        let ghost d0 = self.diagnostics@;
        let ghost t0 = self.ctx.types.infos@;
        let mut typed_params: Vec<TypedParam> = Vec::new();
        let mut i: usize = 0;
        while i < params.len()
            invariant
                self.ctx.generic_decls == old(self).ctx.generic_decls,
                self.wf(),
                self.ctx.scopes@.len() == inner_scopes.len(),
                self.ctx.scopes@.drop_last() == inner_scopes.drop_last(),
                inner_scopes.len() >= 2,
                self.ctx.instantiation_budget == saved_budget - 1,
                keeps_errors(d0, self.diagnostics@),
                self.ctx.types.infos@ == t0,
                forall|k: int| 0 <= k < concrete_types@.len() ==> (#[trigger] concrete_types@[k]).0 < self.ty_count(),
                i <= params@.len(),
                typed_params@.len() == i,
                t0 == old(self).ctx.types.infos@,
                forall|q: int|
                    0 <= q < i ==> (#[trigger] typed_params@[q]).node.name@ == params@[q].0@ && typed_params@[q].node.type_id == (if q
                        < concrete_types@.len() {
                        concrete_types@[q]
                    } else {
                        old(self).object_id()
                    }),
            decreases params.len() - i,
        {
            proof { crate::decl::lemma_same_names_same_resolve(self.ctx.types, old(self).ctx.types, "Object"@); }
            let param_type_id = if i < concrete_types.len() { concrete_types[i] } else { self.resolve_builtin("Object") };
            let ok = self.ctx.declare(
                Symbol {
                    name: params[i].0.clone(),
                    kind: SymbolKind::Parameter,
                    ty: SymbolType::Variable(param_type_id),
                    span: function_decl.span,
                },
            );
            if !ok {
                let ghost mid = self.diagnostics@;
                self.report(
                    SemanticErrorKind::DuplicateParameter { function: String::from_str(name), param: params[i].0.clone() },
                    function_decl.span,
                );
                proof { lemma_one_more_keeps(mid, self.diagnostics@); }
            }
            typed_params.push(
                DeclSpanned::new(TypedParamKind { name: params[i].0.clone(), type_id: param_type_id }, function_decl.span),
            );
            i = i + 1;
        }
        let ghost resolve_table = self.ctx.types;
        let declared_return: Option<TypeId> = match return_type {
            Some(t) => self.ctx.types.resolve(t.as_str()),
            None => None,
        };
        self.ctx.current_function_return = declared_return;
        let body_type = self.analyze_expr(body);
        let ghost tt = self.ctx.types;
        self.ctx.current_function_return = None;
        let final_return = match declared_return {
            Some(expected_return) => {
                if !self.ctx.types.is_subtype_of(body_type.ty, expected_return) {
                    let ghost mid = self.diagnostics@;
                    let expected = self.type_label(expected_return);
                    let found = self.type_label(body_type.ty);
                    self.report(
                        SemanticErrorKind::FunctionReturnTypeMismatch { function: String::from_str(name), expected, found },
                        body.span,
                    );
                    proof {
                        lemma_one_more_keeps(mid, self.diagnostics@);
                        let e = self.diagnostics@.len() - 1;
                        assert(function_return_mismatch(name@, body_type.span)(
                            tt.infos@[expected_return.0 as int].name@,
                            tt.infos@[body_type.ty.0 as int].name@,
                        )(self.diagnostics@[e]));
                    }
                }
                expected_return
            },
            None => body_type.ty,
        };
        let ghost after_check = self.diagnostics@;
        proof {
            assert(value_checked(
                after_check,
                old(self).diagnostics@.len(),
                tt,
                body_type.ty,
                declared_return,
                function_return_mismatch(name@, body_type.span),
            ));
        }
        self.ctx.pop_scope();
        self.ctx.unmark_in_progress(&key);
        self.ctx.instantiation_budget = saved_budget;
        let typed_decl = DeclSpanned::new(
            TypedDeclKind::Function { name: mangled_name.clone(), params: typed_params, return_type: final_return, body: body_type },
            function_decl.span,
        );
        let ghost kv = key_view(key);
        let ghost ret_decl = typed_decl;
        self.ctx.insert_instance(key, typed_decl);
        proof {
            assert(self.ctx.scopes@ =~= old(self).ctx.scopes@);
            assert(kv == (name@, concrete_types@));
            assert(entry_of(self.ctx.generic_instances@, kv) == Some(ret_decl));
            assert(resolve_table.infos@ == old(self).ctx.types.infos@);
            assert forall|i: int| #[trigger] crate::context::is_first_generic(old(self).ctx.generic_decls@, name@, i) implies final_return
                == inferred_return(*old(self), old(self).ctx.generic_decls@[i].1, body_type.ty) by {
                assert(function_decl.node->Function_return_type == old(self).ctx.generic_decls@[i].1.node->Function_return_type);
                match function_decl.node->Function_return_type {
                    Some(t) => {
                        crate::decl::lemma_same_names_same_resolve(resolve_table, old(self).ctx.types, t@);
                    },
                    None => {},
                }
                crate::expr::lemma_mirrors_same_tag(function_decl.node->Function_body, old(self).ctx.generic_decls@[i].1.node->Function_body, body_type);
            }
            lemma_value_checked_kept(
                after_check,
                self.diagnostics@,
                old(self).diagnostics@.len(),
                tt,
                body_type.ty,
                declared_return,
                function_return_mismatch(name@, body_type.span),
            );
            assert(keeps_types(old(self).ctx.types.infos@, tt.infos@));
            assert(keeps_types(tt.infos@, self.ctx.types.infos@));
            assert forall|i: int| #[trigger] crate::context::is_first_generic(old(self).ctx.generic_decls@, name@, i) implies declared_return
                == crate::decl::opt_resolve(old(self).ctx.types, old(self).ctx.generic_decls@[i].1.node->Function_return_type) by {
                assert(function_decl.node->Function_return_type == old(self).ctx.generic_decls@[i].1.node->Function_return_type);
                match function_decl.node->Function_return_type {
                    Some(t) => {
                        crate::decl::lemma_same_names_same_resolve(resolve_table, old(self).ctx.types, t@);
                    },
                    None => {},
                }
            }
        }
        Some((mangled_name, final_return))
    }
}

/// A copy of a list of type ids.
pub fn copy_ids(v: &Vec<TypeId>) -> (r: Vec<TypeId>)
    ensures
        r@ == v@,
{
    let mut r: Vec<TypeId> = Vec::new();
    let mut i: usize = 0;
    while i < v.len()
        invariant
            i <= v@.len(),
            r@ == v@.take(i as int),
        decreases v.len() - i,
    {
        r.push(v[i]);
        i = i + 1;
        assert(r@ =~= v@.take(i as int));
    }
    assert(v@.take(i as int) =~= v@);
    r
}

/// A copy of a list of optional type ids.
pub fn copy_opt_ids(v: &Vec<Option<TypeId>>) -> (r: Vec<Option<TypeId>>)
    ensures
        r@ == v@,
{
    let mut r: Vec<Option<TypeId>> = Vec::new();
    let mut i: usize = 0;
    while i < v.len()
        invariant
            i <= v@.len(),
            r@ == v@.take(i as int),
        decreases v.len() - i,
    {
        r.push(v[i]);
        i = i + 1;
        assert(r@ =~= v@.take(i as int));
    }
    assert(v@.take(i as int) =~= v@);
    r
}

} // verus!
