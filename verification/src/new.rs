use vstd::prelude::*;
use crate::analyzer::{
    analyzed, arg_checked, arg_types, args_checked, frame, keeps_errors, keeps_types, lemma_args_checked_start, lemma_args_checked_step,
    lemma_keeps_types_trans, tables_between, SemanticAnalyzer,
};
use crate::ast::{expr_size, exprs_size, lemma_exprs_size_elem, DeclKind, Expr, InheritInfo, TypeFeatures, TypeFeaturesKind};
use crate::call::copy_ids;
use crate::context::{entry_of, has_generic_named, key_view, mangled_name, GenericInstanceKey};
use crate::error::SemanticErrorKind;
use crate::expr::{lemma_one_more_keeps, one_more};
use crate::hir::{
    DeclSpanned, TypedDeclKind, TypedExpr, TypedExprKind, TypedInheritInfo, TypedInheritInfoKind, TypedParam,
    TypedParamKind, TypedTypeFeature, TypedTypeFeatureKind,
};
use crate::members::member_frame;
use crate::span::Span;
use crate::symbols::{opt_id_below, Symbol, SymbolKind, SymbolType};
use crate::types::{params_valid, ConstructorParam, TypeId, TypeInfo};

verus! {

/// The types a table holds before and after, except entry `k`, which may change.
pub open spec fn keeps_types_except(before: Seq<TypeInfo>, after: Seq<TypeInfo>, k: int) -> bool {
    &&& before.len() <= after.len()
    &&& forall|i: int| 0 <= i < before.len() && i != k ==> #[trigger] after[i] == before[i]
}

/// The types constructor parameters ask for: each one's type, `object`
/// when it has none.
pub open spec fn ctor_param_types(cps: Seq<crate::types::ConstructorParam>, object: TypeId) -> Seq<TypeId> {
    Seq::new(
        cps.len(),
        |q: int|
            match cps[q].ty {
                Some(t) => t,
                None => object,
            },
    )
}

/// The error `new T(..)` gives for its argument `k` (of `args`) when it
/// does not fit `T`'s constructor parameter `k` (of `cps`).
pub open spec fn new_mismatch(
    ty_name: Seq<char>,
    cps: Seq<crate::types::ConstructorParam>,
    args: Seq<Expr>,
) -> spec_fn(int, crate::error::SemanticError) -> bool {
    |k: int, e: crate::error::SemanticError|
        e.span == args[k].span && (e.kind matches SemanticErrorKind::ConstructorArgumentTypeMismatch { ty_name: n, param, .. } && n@
            == ty_name && param@ == cps[k].name@)
}

/// The size of the expressions a type member holds.
pub open spec fn feature_size(f: TypeFeatures) -> nat {
    match f.node {
        TypeFeaturesKind::Attribute { default, .. } => match default {
            Some(e) => expr_size(e),
            None => 0,
        },
        TypeFeaturesKind::Method { body, .. } => expr_size(body),
    }
}

/// The size of the arguments an inheritance clause passes.
pub open spec fn inherit_args_size(p: Option<&InheritInfo>) -> nat {
    match p {
        Some(i) => match i.node.args {
            Some(a) => exprs_size(a@),
            None => 0,
        },
        None => 0,
    }
}

/// A copy of a list of constructor parameters.
pub fn copy_constructor_params(v: &Vec<ConstructorParam>) -> (r: Vec<ConstructorParam>)
    ensures
        r@.len() == v@.len(),
        forall|i: int| 0 <= i < v@.len() ==> (#[trigger] r@[i]).name@ == v@[i].name@ && r@[i].ty == v@[i].ty,
{
    let mut r: Vec<ConstructorParam> = Vec::new();
    let mut i: usize = 0;
    while i < v.len()
        invariant
            i <= v@.len(),
            r@.len() == i,
            forall|k: int| 0 <= k < i ==> (#[trigger] r@[k]).name@ == v@[k].name@ && r@[k].ty == v@[k].ty,
        decreases v.len() - i,
    {
        r.push(v[i].duplicate());
        i = i + 1;
    }
    r
}

/// What the parent clause `ii` of an instance of `child` resolves to. An
/// unknown parent: `Object`, with `UnknownParentType` as the one new error.
/// A parent that is not generic: that type, with `InvalidInheritanceArity`
/// as the first new error when the number of arguments differs from its
/// constructor's, and no error at all when there are neither arguments nor
/// constructor parameters. A generic parent: the instance recorded for its
/// name and the child's types (no arguments) or as many types as arguments,
/// or `Object` with a new error (that instance is being made, or it could
/// not be made).
pub open spec fn instantiated_parent_outcome(
    before: SemanticAnalyzer,
    after: SemanticAnalyzer,
    child: Seq<char>,
    ii: InheritInfo,
    decl_span: Span,
    child_types: Seq<TypeId>,
    info: TypedInheritInfo,
) -> bool {
    let name = ii.node.parent_name@;
    let nargs: nat = match ii.node.args {
        Some(a) => a@.len(),
        None => 0,
    };
    match before.ctx.types.spec_resolve(name) {
        None => {
            &&& info.node.parent_type == before.object_id()
            &&& one_more(before.diagnostics@, after.diagnostics@, decl_span)
            &&& after.diagnostics@.last().kind matches SemanticErrorKind::UnknownParentType { child: c, parent: p }
            &&& c@ == child && p@ == name
        },
        Some(pid) => if !before.ctx.types.infos@[pid.0 as int].is_generic_template {
            let expected = before.ctx.types.infos@[pid.0 as int].constructor_params@.len();
            &&& info.node.parent_type == pid
            &&& nargs != expected ==> {
                &&& after.diagnostics@.len() > before.diagnostics@.len()
                &&& after.diagnostics@[before.diagnostics@.len() as int].span == decl_span
                &&& after.diagnostics@[before.diagnostics@.len() as int].kind matches SemanticErrorKind::InvalidInheritanceArity {
                    parent,
                    expected: e,
                    found,
                }
                &&& parent@ == name && e == expected && found == nargs
            }
            &&& (nargs == 0 && expected == 0) ==> after.diagnostics@ == before.diagnostics@
            &&& (ii.node.args is Some && nargs > 0) ==> {
                &&& info.node.args is Some
                &&& exists|starts: Seq<int>, checks: Seq<int>, tables: Seq<Seq<TypeInfo>>|
                    {
                        &&& #[trigger] args_checked(
                            after.diagnostics@,
                            starts,
                            checks,
                            tables,
                            arg_types(info.node.args->0@),
                            ctor_param_types(before.ctx.types.infos@[pid.0 as int].constructor_params@, before.object_id()),
                            crate::type_decl::inherit_mismatch(name, before.ctx.types.infos@[pid.0 as int].constructor_params@, ii.node.args->0@),
                        )
                        &&& starts[0] == before.diagnostics@.len() + if nargs != expected { 1int } else { 0int }
                        &&& starts[nargs as int] == after.diagnostics@.len()
                        &&& tables_between(before.ctx.types.infos@, tables, after.ctx.types.infos@)
                    }
            }
        } else {
            let tys = parent_key(ii, info, child_types);
            ||| (entry_of(after.ctx.generic_type_instances@, (name, tys)) matches Some(inst) && info.node.parent_type == inst.type_id)
            ||| {
                &&& info.node.parent_type == before.object_id()
                &&& after.diagnostics@.len() > before.diagnostics@.len()
                &&& (crate::context::keys_contain(after.ctx.in_progress_types@, (name, tys)) || before.ctx.instantiation_budget == 0
                    || !has_generic_named(after.ctx.generic_type_decls@, name) || after.ctx.types.spec_resolve(name) is None
                    || template_arity_mismatch(after, name, tys.len()))
            }
        },
    }
}

/// The declaration `d` of the instance `id` of template `name` (as `a`
/// knows it) for the concrete types `tys`: a type named `name$T1$...` whose
/// constructor parameters are the template's, by name, with those types.
pub open spec fn type_instance_of(a: SemanticAnalyzer, name: Seq<char>, tys: Seq<TypeId>, id: TypeId, d: crate::hir::TypedDecl) -> bool {
    let cps = a.ctx.types.infos@[(a.ctx.types.spec_resolve(name)->0).0 as int].constructor_params@;
    match d.node {
        TypedDeclKind::Type { name: n, params: Some(ps), type_id, .. } => {
            &&& n@ == mangled_name(a.ctx.types.infos@, name, tys)
            &&& type_id == id
            &&& ps@.len() == tys.len()
            &&& forall|q: int| 0 <= q < tys.len() ==> (#[trigger] ps@[q]).node.name@ == cps[q].name@ && ps@[q].node.type_id == tys[q]
        },
        _ => false,
    }
}

/// The instance key of a generic parent: the child's concrete types when
/// the parent clause passes no arguments, else the types of the typed
/// arguments.
pub open spec fn parent_key(ii: InheritInfo, info: TypedInheritInfo, child_types: Seq<TypeId>) -> Seq<TypeId> {
    match ii.node.args {
        None => child_types,
        Some(_) => match info.node.args {
            Some(ta) => Seq::new(ta@.len(), |k: int| ta@[k].ty),
            None => Seq::empty(),
        },
    }
}

/// Template `name` is known and takes another number of parameters than `n`.
pub open spec fn template_arity_mismatch(a: SemanticAnalyzer, name: Seq<char>, n: nat) -> bool {
    &&& has_generic_named(a.ctx.generic_type_decls@, name)
    &&& a.ctx.types.spec_resolve(name) is Some
    &&& a.ctx.types.infos@[(a.ctx.types.spec_resolve(name)->0).0 as int].constructor_params@.len() != n
}

impl SemanticAnalyzer {
    /// Types `new T(args)`. An unknown type gives `UnknownType` (the
    /// arguments are still typed, the result is an `Object`); a generic
    /// template is instantiated for the argument types; any other type checks
    /// the number of arguments (`InvalidConstructorArity`) and that each is a
    /// subtype of its parameter's type (`ConstructorArgumentTypeMismatch`).
    pub fn analyze_new(&mut self, annotation: &String, args: &Vec<Expr>, span: Span) -> (r: TypedExpr)
        requires
            old(self).wf(),
        ensures
            analyzed(*old(self), *final(self), r),
            r.span == span,
            r.node is New,
            r.node->New_args@.len() == args@.len(),
            match old(self).ctx.types.spec_resolve(annotation@) {
                None => {
                    &&& r.ty == old(self).object_id()
                    &&& final(self).diagnostics@.len() > old(self).diagnostics@.len()
                    &&& final(self).diagnostics@[old(self).diagnostics@.len() as int].span == span
                    &&& final(self).diagnostics@[old(self).diagnostics@.len() as int].kind matches SemanticErrorKind::UnknownType { name }
                    &&& name@ == annotation@
                },
                Some(id) => !old(self).ctx.types.infos@[id.0 as int].is_generic_template ==> {
                    let expected = old(self).ctx.types.infos@[id.0 as int].constructor_params@.len();
                    &&& r.ty == id
                    &&& args@.len() != expected ==> {
                        &&& final(self).diagnostics@.len() > old(self).diagnostics@.len()
                        &&& final(self).diagnostics@[old(self).diagnostics@.len() as int].span == span
                        &&& final(self).diagnostics@[old(self).diagnostics@.len() as int].kind matches SemanticErrorKind::InvalidConstructorArity {
                            ty_name,
                            expected: e,
                            found,
                        }
                        &&& ty_name@ == annotation@ && e == expected && found == args@.len()
                    }
                    &&& (args@.len() == 0 && expected == 0) ==> final(self).diagnostics@ == old(self).diagnostics@
                    &&& exists|starts: Seq<int>, checks: Seq<int>, tables: Seq<Seq<TypeInfo>>|
                        {
                            &&& #[trigger] args_checked(
                                final(self).diagnostics@,
                                starts,
                                checks,
                                tables,
                                arg_types(r.node->New_args@),
                                ctor_param_types(old(self).ctx.types.infos@[id.0 as int].constructor_params@, old(self).object_id()),
                                new_mismatch(annotation@, old(self).ctx.types.infos@[id.0 as int].constructor_params@, args@),
                            )
                            &&& starts[0] == old(self).diagnostics@.len() + if args@.len() != expected { 1int } else { 0int }
                            &&& starts[args@.len() as int] == final(self).diagnostics@.len()
                            &&& tables_between(old(self).ctx.types.infos@, tables, final(self).ctx.types.infos@)
                        }
                },
            },
        decreases old(self).ctx.instantiation_budget, exprs_size(args@) + 1, 1nat,
    {
        let instance_type_id = match self.ctx.types.resolve(annotation.as_str()) {
            Some(id) => id,
            None => {
                self.report(SemanticErrorKind::UnknownType { name: annotation.clone() }, span);
                proof { lemma_one_more_keeps(old(self).diagnostics@, self.diagnostics@); }
                let ghost unknown = self.diagnostics@.last();
                let object_type = self.resolve_builtin("Object");
                let typed_args = self.analyze_args(args);
                proof { assert(self.diagnostics@[old(self).diagnostics@.len() as int] == unknown); }
                return TypedExpr::new(TypedExprKind::New { name: annotation.clone(), args: typed_args }, object_type, span);
            },
        };
        if self.ctx.types.is_generic_template(instance_type_id) {
            return self.analyze_generic_new(annotation.as_str(), args, span);
        }
        proof { assert(crate::types::info_valid(self.ctx.types.infos@[instance_type_id.0 as int], self.ty_count())); }
        let expected_params = copy_constructor_params(self.ctx.types.get_constructor_params(instance_type_id));
        if args.len() != expected_params.len() {
            self.report(
                SemanticErrorKind::InvalidConstructorArity {
                    ty_name: annotation.clone(),
                    expected: expected_params.len(),
                    found: args.len(),
                },
                span,
            );
            proof { lemma_one_more_keeps(old(self).diagnostics@, self.diagnostics@); }
        }
        let ghost arity_error = self.diagnostics@[old(self).diagnostics@.len() as int];
        let object_type = self.resolve_builtin("Object");
        let ghost cps = old(self).ctx.types.infos@[instance_type_id.0 as int].constructor_params@;
        let ghost pts = ctor_param_types(cps, old(self).object_id());
        let ghost mm = new_mismatch(annotation@, cps, args@);
        let ghost mut starts: Seq<int> = seq![self.diagnostics@.len() as int];
        let ghost mut checks: Seq<int> = Seq::empty();
        let ghost mut tables: Seq<Seq<TypeInfo>> = Seq::empty();
        proof {
            lemma_args_checked_start(self.diagnostics@, self.diagnostics@.len() as int, pts, mm);
            assert(arg_types(Seq::<TypedExpr>::empty()) =~= Seq::<TypeId>::empty());
        }
        let mut typed_args: Vec<TypedExpr> = Vec::new();
        let mut i: usize = 0;
        while i < args.len()
            invariant
                self.wf(),
                frame(*old(self), *self),
                cps == old(self).ctx.types.infos@[instance_type_id.0 as int].constructor_params@,
                expected_params@.len() == cps.len(),
                forall|q: int| 0 <= q < cps.len() ==> (#[trigger] expected_params@[q]).name@ == cps[q].name@ && expected_params@[q].ty
                    == cps[q].ty,
                pts == ctor_param_types(cps, old(self).object_id()),
                object_type == old(self).object_id(),
                object_type.0 < self.ty_count(),
                mm == new_mismatch(annotation@, cps, args@),
                args_checked(self.diagnostics@, starts, checks, tables, arg_types(typed_args@), pts, mm),
                starts[i as int] == self.diagnostics@.len(),
                starts[0] == old(self).diagnostics@.len() + if args@.len() != cps.len() { 1int } else { 0int },
                tables_between(old(self).ctx.types.infos@, tables, self.ctx.types.infos@),
                i <= args@.len(),
                typed_args@.len() == i,
                args@.len() != expected_params@.len() ==> {
                    &&& self.diagnostics@.len() > old(self).diagnostics@.len()
                    &&& self.diagnostics@[old(self).diagnostics@.len() as int] == arity_error
                },
                (args@.len() == 0 && expected_params@.len() == 0) ==> self.diagnostics@ == old(self).diagnostics@,
                instance_type_id.0 < self.ty_count(),
                params_valid(expected_params@, self.ty_count()),
            decreases args.len() - i,
        {
            proof { lemma_exprs_size_elem(args@, i as int); }
            let ghost ea = self.diagnostics@;
            let ghost ta = self.ctx.types.infos@;
            let ghost prev = typed_args@;
            let arg_type = self.analyze_expr(&args[i]);
            let ghost c = self.diagnostics@.len() as int;
            let ghost t = self.ctx.types.infos@;
            if i < expected_params.len() {
                let expected_type = match expected_params[i].ty {
                    Some(t) => t,
                    None => object_type,
                };
                if !self.ctx.types.is_subtype_of(arg_type.ty, expected_type) {
                    let ghost mid = self.diagnostics@;
                    let expected = self.type_label(expected_type);
                    let found = self.type_label(arg_type.ty);
                    self.report(
                        SemanticErrorKind::ConstructorArgumentTypeMismatch {
                            ty_name: annotation.clone(),
                            param: expected_params[i].name.clone(),
                            expected,
                            found,
                        },
                        args[i].span,
                    );
                    proof {
                        lemma_one_more_keeps(mid, self.diagnostics@);
                        assert(mm(i as int, self.diagnostics@[c]));
                    }
                }
            }
            typed_args.push(arg_type);
            proof {
                if (i as int) < pts.len() {
                    assert(pts[i as int] == match expected_params@[i as int].ty {
                        Some(tt) => tt,
                        None => object_type,
                    });
                }
                assert(arg_checked(self.diagnostics@, c, self.diagnostics@.len() as int, t, arg_type.ty, i as int, pts, mm));
                lemma_args_checked_step(ea, self.diagnostics@, starts, checks, tables, arg_types(prev), pts, mm, c, t, arg_type.ty);
                assert(arg_types(typed_args@) =~= arg_types(prev).push(arg_type.ty));
                let ghost old_tables = tables;
                starts = starts.push(self.diagnostics@.len() as int);
                checks = checks.push(c);
                tables = tables.push(t);
                assert forall|k: int| 0 <= k < tables.len() implies keeps_types(old(self).ctx.types.infos@, #[trigger] tables[k])
                    && keeps_types(tables[k], self.ctx.types.infos@) by {
                    if k < old_tables.len() {
                        assert(tables[k] == old_tables[k]);
                        lemma_keeps_types_trans(old_tables[k], ta, self.ctx.types.infos@);
                    } else {
                        lemma_keeps_types_trans(old(self).ctx.types.infos@, ta, t);
                        assert(t =~= self.ctx.types.infos@);
                    }
                }
            }
            i = i + 1;
        }
        let ghost typed_final = typed_args@;
        let r = TypedExpr::new(TypedExprKind::New { name: annotation.clone(), args: typed_args }, instance_type_id, span);
        proof {
            assert(r.node->New_args@ == typed_final);
            assert(args_checked(self.diagnostics@, starts, checks, tables, arg_types(r.node->New_args@), pts, mm));
        }
        r
    }

    /// Types `new T(args)` for a generic template `T`: the number of
    /// arguments is checked (`InvalidConstructorArity`), the argument types
    /// form the instance key, and the instance is reused, or made now. When
    /// it is being made (it needs itself), `UnknownType` is added and the
    /// result is an `Object`.
    pub fn analyze_generic_new(&mut self, template_name: &str, args: &Vec<Expr>, span: Span) -> (r: TypedExpr)
        requires
            old(self).wf(),
            old(self).ctx.types.spec_resolve(template_name@) is Some,
        ensures
            analyzed(*old(self), *final(self), r),
            r.span == span,
            r.node is New,
            ({
                let tys = Seq::new(r.node->New_args@.len(), |k: int| r.node->New_args@[k].ty);
                &&& r.node->New_args@.len() == args@.len()
                &&& r.node->New_name@ == mangled_name(final(self).ctx.types.infos@, template_name@, tys)
                &&& (match entry_of(final(self).ctx.generic_type_instances@, (template_name@, tys)) {
                    Some(inst) => r.ty == inst.type_id,
                    None => false,
                } || {
                    &&& r.ty == final(self).object_id()
                    &&& old(self).diagnostics@.len() < final(self).diagnostics@.len()
                    &&& (final(self).diagnostics@.last().kind is UnknownType
                        || final(self).diagnostics@.last().kind is InvalidConstructorArity)
                    &&& (crate::context::keys_contain(final(self).ctx.in_progress_types@, (template_name@, tys))
                        || old(self).ctx.instantiation_budget == 0 || !has_generic_named(final(self).ctx.generic_type_decls@, template_name@)
                        || final(self).ctx.types.spec_resolve(template_name@) is None || template_arity_mismatch(
                        *final(self),
                        template_name@,
                        tys.len(),
                    ))
                })
            }),
        decreases old(self).ctx.instantiation_budget, exprs_size(args@) + 1, 0nat,
    {
        let object_type = self.resolve_builtin("Object");
        let molde_type_id = match self.ctx.types.resolve(template_name) {
            Some(id) => id,
            None => object_type,
        };
        let declared_arity = self.ctx.types.get_constructor_params(molde_type_id).len();
        if args.len() != declared_arity {
            self.report(
                SemanticErrorKind::InvalidConstructorArity {
                    ty_name: String::from_str(template_name),
                    expected: declared_arity,
                    found: args.len(),
                },
                span,
            );
            proof { lemma_one_more_keeps(old(self).diagnostics@, self.diagnostics@); }
        }
        let typed_args = self.analyze_args(args);
        let mut instance_key_types: Vec<TypeId> = Vec::new();
        let mut i: usize = 0;
        while i < typed_args.len()
            invariant
                i <= typed_args@.len(),
                instance_key_types@.len() == i,
                forall|k: int| 0 <= k < typed_args@.len() ==> (#[trigger] typed_args@[k]).ty.0 < self.ty_count(),
                forall|k: int| 0 <= k < i ==> (#[trigger] instance_key_types@[k]) == typed_args@[k].ty,
            decreases typed_args.len() - i,
        {
            instance_key_types.push(typed_args[i].ty);
            i = i + 1;
        }
        let ghost mid = *self;
        let key: GenericInstanceKey = (String::from_str(template_name), copy_ids(&instance_key_types));
        let instance_type_id = match self.ctx.get_type_instance(&key) {
            Some(existing) => {
                proof {
                    let k = choose|k: int| crate::context::is_first_key(self.ctx.generic_type_instances@, key_view(key), k);
                    assert(self.ctx.generic_type_instances@[k].1.type_id.0 < self.ty_count());
                }
                existing
            },
            None => {
                if self.ctx.is_type_in_progress(&key) {
                    self.report(SemanticErrorKind::UnknownType { name: String::from_str(template_name) }, span);
                    proof { lemma_one_more_keeps(mid.diagnostics@, self.diagnostics@); }
                    self.resolve_builtin("Object")
                } else {
                    match self.instantiate_generic_type(template_name, &instance_key_types, span) {
                        Some(id) => id,
                        None => self.resolve_builtin("Object"),
                    }
                }
            },
        };
        let mangled = self.ctx.mangle_instance_name(template_name, instance_key_types.as_slice());
        let ghost tys = instance_key_types@;
        let r = TypedExpr::new(TypedExprKind::New { name: mangled, args: typed_args }, instance_type_id, span);
        proof {
            assert(Seq::new(r.node->New_args@.len(), |k: int| r.node->New_args@[k].ty) =~= tys);
            assert(key_view(key) == (template_name@, tys));
        }
        r
    }

    /// Makes the instance of generic type `name` for the concrete types: a
    /// new class `name$T1$...` whose constructor parameters get those types,
    /// whose parent is resolved for them (see `resolve_instantiated_parent`),
    /// and whose attributes and annotated methods are analysed as for any
    /// type; a method with unannotated parameters is kept to be instantiated
    /// per call (and may not override a parent method:
    /// `GenericMethodOverrideNotAllowed`). The instance is recorded under its
    /// key. An unknown template gives `UnknownType`, a wrong number of types
    /// `InvalidConstructorArity`; instances nested too deeply `UnknownType`.
    pub fn instantiate_generic_type(&mut self, name: &str, concrete_types: &Vec<TypeId>, call_site_span: Span) -> (r: Option<TypeId>)
        requires
            old(self).wf(),
            forall|k: int| 0 <= k < concrete_types@.len() ==> (#[trigger] concrete_types@[k]).0 < old(self).ty_count(),
        ensures
            frame(*old(self), *final(self)),
            match r {
                Some(id) => {
                    &&& id.0 < final(self).ty_count()
                    &&& old(self).ty_count() <= id.0
                    &&& entry_of(final(self).ctx.generic_type_instances@, (name@, concrete_types@)) matches Some(inst) && inst.type_id
                        == id && type_instance_of(*old(self), name@, concrete_types@, id, inst.decl)
                    &&& entry_of(final(self).ctx.generic_type_instances@, (name@, concrete_types@)) matches Some(inst)
                        && final(self).ctx.types.infos@[id.0 as int].parent == match inst.decl.node->Type_parent {
                        Some(p) => Some(p.node.parent_type),
                        None => None,
                    }
                },
                None => {
                    &&& final(self).ctx == old(self).ctx
                    &&& one_more(old(self).diagnostics@, final(self).diagnostics@, call_site_span)
                    &&& (template_arity_mismatch(*old(self), name@, concrete_types@.len()) && old(self).ctx.instantiation_budget != 0)
                        ==> (final(self).diagnostics@.last().kind matches SemanticErrorKind::InvalidConstructorArity {
                        ty_name,
                        expected,
                        found,
                    } && ty_name@ == name@ && found == concrete_types@.len() && expected
                        == old(self).ctx.types.infos@[(old(self).ctx.types.spec_resolve(name@)->0).0 as int].constructor_params@.len())
                    &&& !(template_arity_mismatch(*old(self), name@, concrete_types@.len()) && old(self).ctx.instantiation_budget != 0)
                        ==> (final(self).diagnostics@.last().kind matches SemanticErrorKind::UnknownType { name: n } && n@ == name@)
                },
            },
            r is None <==> (old(self).ctx.instantiation_budget == 0 || !has_generic_named(old(self).ctx.generic_type_decls@, name@)
                || old(self).ctx.types.spec_resolve(name@) is None || template_arity_mismatch(*old(self), name@, concrete_types@.len())),
        decreases old(self).ctx.instantiation_budget, 0nat, 0nat,
    {
        if self.ctx.instantiation_budget == 0 {
            self.report(SemanticErrorKind::UnknownType { name: String::from_str(name) }, call_site_span);
            proof { lemma_one_more_keeps(old(self).diagnostics@, self.diagnostics@); }
            return None;
        }
        let type_decl = match self.ctx.get_generic_type_decl(name) {
            Some(d) => d,
            None => {
                self.report(SemanticErrorKind::UnknownType { name: String::from_str(name) }, call_site_span);
                proof { lemma_one_more_keeps(old(self).diagnostics@, self.diagnostics@); }
                return None;
            },
        };
        let (parent, features) = match &type_decl.node {
            DeclKind::Type { parent, features, .. } => (parent, features),
            _ => {
                return None;
            },
        };
        let molde_type_id = match self.ctx.types.resolve(name) {
            Some(id) => id,
            None => {
                self.report(SemanticErrorKind::UnknownType { name: String::from_str(name) }, call_site_span);
                proof { lemma_one_more_keeps(old(self).diagnostics@, self.diagnostics@); }
                return None;
            },
        };
        proof { assert(crate::types::info_valid(self.ctx.types.infos@[molde_type_id.0 as int], self.ty_count())); }
        let template_params = copy_constructor_params(self.ctx.types.get_constructor_params(molde_type_id));
        if template_params.len() != concrete_types.len() {
            self.report(
                SemanticErrorKind::InvalidConstructorArity {
                    ty_name: String::from_str(name),
                    expected: template_params.len(),
                    found: concrete_types.len(),
                },
                call_site_span,
            );
            proof { lemma_one_more_keeps(old(self).diagnostics@, self.diagnostics@); }
            return None;
        }
        let key: GenericInstanceKey = (String::from_str(name), copy_ids(concrete_types));
        self.ctx.mark_type_in_progress((String::from_str(name), copy_ids(concrete_types)));
        let outer_current_type = self.ctx.current_type;
        let outer_current_method = match &self.ctx.current_method {
            Some(m) => Some(m.clone()),
            None => None,
        };
        let outer_current_function_return = self.ctx.current_function_return;
        let saved_budget = self.ctx.instantiation_budget;
        self.ctx.instantiation_budget = saved_budget - 1;
        let mangled_name = self.ctx.mangle_instance_name(name, concrete_types.as_slice());
        let new_type_id = self.ctx.insert_type_instantiation(mangled_name.clone());
        let mut new_params: Vec<ConstructorParam> = Vec::new();
        let mut typed_params: Vec<TypedParam> = Vec::new();
        let mut i: usize = 0;
        while i < concrete_types.len()
            invariant
                self.ctx.generic_decls == old(self).ctx.generic_decls,
                i <= concrete_types@.len(),
                concrete_types@.len() == template_params@.len(),
                new_params@.len() == i,
                forall|k: int| 0 <= k < concrete_types@.len() ==> (#[trigger] concrete_types@[k]).0 < self.ty_count(),
                params_valid(new_params@, self.ty_count()),
            decreases concrete_types.len() - i,
        {
            new_params.push(ConstructorParam { name: template_params[i].name.clone(), ty: Some(concrete_types[i]) });
            i = i + 1;
        }
        let declared_copy = copy_constructor_params(&new_params);
        proof {
            assert forall|k: int| 0 <= k < declared_copy@.len() implies crate::symbols::opt_id_below(#[trigger] declared_copy@[k].ty, self.ty_count()) by {
                assert(declared_copy@[k].ty == new_params@[k].ty);
            }
        }
        let ghost before_params = self.ctx.types.infos@;
        self.ctx.types.set_declared_constructor_params(new_type_id, Some(declared_copy));
        self.ctx.types.set_effective_constructor_params(new_type_id, new_params);
        self.ctx.current_type = Some(new_type_id);
        self.ctx.push_scope();
        let ghost inner_scopes = self.ctx.scopes@;
        let mut j: usize = 0;
        while j < concrete_types.len()
            invariant
                self.ctx.generic_decls == old(self).ctx.generic_decls,
                self.wf(),
                j <= concrete_types@.len(),
                concrete_types@.len() == template_params@.len(),
                self.ctx.scopes@.len() == inner_scopes.len(),
                self.ctx.scopes@.drop_last() == inner_scopes.drop_last(),
                self.ctx.instantiation_budget == saved_budget - 1,
                keeps_errors(old(self).diagnostics@, self.diagnostics@),
                keeps_types_except(old(self).ctx.types.infos@, self.ctx.types.infos@, new_type_id.0 as int),
                old(self).ty_count() <= new_type_id.0 < self.ty_count(),
                forall|k: int| 0 <= k < concrete_types@.len() ==> (#[trigger] concrete_types@[k]).0 < self.ty_count(),
                typed_params@.len() == j,
                forall|q: int|
                    0 <= q < j ==> (#[trigger] typed_params@[q]).node.name@ == template_params@[q].name@ && typed_params@[q].node.type_id
                        == concrete_types@[q],
            decreases concrete_types.len() - j,
        {
            let ghost s0 = self.ctx.scopes@;
            let _ = self.ctx.declare(
                Symbol {
                    name: template_params[j].name.clone(),
                    kind: SymbolKind::Parameter,
                    ty: SymbolType::Variable(concrete_types[j]),
                    span: type_decl.span,
                },
            );
            proof { assert(self.ctx.scopes@.drop_last() =~= s0.drop_last()); }
            typed_params.push(
                DeclSpanned::new(TypedParamKind { name: template_params[j].name.clone(), type_id: concrete_types[j] }, type_decl.span),
            );
            j = j + 1;
        }
        let parent_ref: Option<&InheritInfo> = match parent {
            Some(p) => Some(p),
            None => None,
        };
        let typed_inherit_info = self.resolve_instantiated_parent(name, parent_ref, type_decl.span, call_site_span, concrete_types);
        self.ctx.current_type = Some(new_type_id);
        let parent_type_id_for_layout: Option<TypeId> = match &typed_inherit_info {
            Some(p) => Some(p.node.parent_type),
            None => None,
        };
        self.ctx.types.set_parent(new_type_id, parent_type_id_for_layout);
        let ghost s1 = self.ctx.scopes@;
        let _ = self.ctx.declare(
            Symbol {
                name: String::from_str("self"),
                kind: SymbolKind::Variable,
                ty: SymbolType::Variable(new_type_id),
                span: type_decl.span,
            },
        );
        proof { assert(self.ctx.scopes@.drop_last() =~= s1.drop_last()); }
        let ghost attr_scopes = self.ctx.scopes@;
        let mut typed_features: Vec<TypedTypeFeature> = Vec::new();
        let mut k: usize = 0;
        while k < features.len()
            invariant
                self.ctx.generic_decls == old(self).ctx.generic_decls,
                self.wf(),
                k <= features@.len(),
                self.ctx.scopes@ == attr_scopes,
                saved_budget == old(self).ctx.instantiation_budget,
                saved_budget > 0,
                attr_scopes.len() == inner_scopes.len(),
                attr_scopes.drop_last() == inner_scopes.drop_last(),
                self.ctx.instantiation_budget == saved_budget - 1,
                keeps_errors(old(self).diagnostics@, self.diagnostics@),
                keeps_types_except(old(self).ctx.types.infos@, self.ctx.types.infos@, new_type_id.0 as int),
                old(self).ty_count() <= new_type_id.0 < self.ty_count(),
                opt_id_below(parent_type_id_for_layout, self.ty_count()),
                self.ctx.types.infos@[new_type_id.0 as int].parent == parent_type_id_for_layout,
            decreases features.len() - k,
        {
            if matches!(features[k].node, TypeFeaturesKind::Attribute { .. }) {
                let f = self.instantiate_attribute_feature(new_type_id, &features[k], name, type_decl.span);
                typed_features.push(f);
            }
            k = k + 1;
        }
        let mut m: usize = 0;
        while m < features.len()
            invariant
                self.ctx.generic_decls == old(self).ctx.generic_decls,
                self.wf(),
                m <= features@.len(),
                self.ctx.scopes@ == attr_scopes,
                saved_budget == old(self).ctx.instantiation_budget,
                saved_budget > 0,
                self.ctx.instantiation_budget == saved_budget - 1,
                keeps_errors(old(self).diagnostics@, self.diagnostics@),
                keeps_types_except(old(self).ctx.types.infos@, self.ctx.types.infos@, new_type_id.0 as int),
                old(self).ty_count() <= new_type_id.0 < self.ty_count(),
                opt_id_below(parent_type_id_for_layout, self.ty_count()),
                self.ctx.types.infos@[new_type_id.0 as int].parent == parent_type_id_for_layout,
            decreases features.len() - m,
        {
            if matches!(features[m].node, TypeFeaturesKind::Method { .. }) {
                match self.instantiate_method_feature(new_type_id, &features[m], parent_type_id_for_layout, &mangled_name, type_decl.span) {
                    Some(f) => typed_features.push(f),
                    None => {},
                }
            }
            m = m + 1;
        }
        self.ctx.pop_scope();
        self.ctx.current_type = outer_current_type;
        self.ctx.current_method = outer_current_method;
        self.ctx.current_function_return = outer_current_function_return;
        self.ctx.unmark_type_in_progress(&key);
        self.ctx.instantiation_budget = saved_budget;
        let typed_decl = DeclSpanned::new(
            TypedDeclKind::Type {
                name: mangled_name,
                params: Some(typed_params),
                parent: typed_inherit_info,
                features: typed_features,
                type_id: new_type_id,
            },
            type_decl.span,
        );
        let ghost kv = key_view(key);
        let ghost td = typed_decl;
        self.ctx.insert_type_instance(key, new_type_id, typed_decl);
        proof {
            assert(self.ctx.scopes@ =~= old(self).ctx.scopes@);
            assert(kv == (name@, concrete_types@));
            assert(type_instance_of(*old(self), name@, concrete_types@, new_type_id, td));
        }
        Some(new_type_id)
    }

    /// One attribute of a type instance: its annotation is resolved first
    /// (`UnknownTypeInAttribute` and `Object` when unknown), then its default
    /// is typed and checked against it (`AttributeTypeMismatch`); with no
    /// annotation the default's type is taken, `Object` with neither. A
    /// protocol annotation gives way to the default's type. The attribute is
    /// added to the instance (`DuplicateAttribute` when the instance already
    /// has one of that name).
    fn instantiate_attribute_feature(&mut self, type_id: TypeId, feature: &TypeFeatures, decl_name: &str, decl_span: Span) -> (r: TypedTypeFeature)
        requires
            old(self).wf(),
            type_id.0 < old(self).ty_count(),
            feature.node is Attribute,
        ensures
            final(self).wf(),
            keeps_errors(old(self).diagnostics@, final(self).diagnostics@),
            keeps_types_except(old(self).ctx.types.infos@, final(self).ctx.types.infos@, type_id.0 as int),
            final(self).ctx.scopes@ == old(self).ctx.scopes@,
            final(self).ctx.instantiation_budget == old(self).ctx.instantiation_budget,
            final(self).ctx.generic_decls == old(self).ctx.generic_decls,
            final(self).ctx.types.infos@[type_id.0 as int].parent == old(self).ctx.types.infos@[type_id.0 as int].parent,
            r.node is Attribute,
            exists|tt: crate::types::TypeTable|
                #[trigger] keeps_types(old(self).ctx.types.infos@, tt.infos@) && keeps_types_except(
                    tt.infos@,
                    final(self).ctx.types.infos@,
                    type_id.0 as int,
                ) && crate::type_decl::attribute_checked(
                    final(self).diagnostics@,
                    old(self).diagnostics@.len(),
                    tt,
                    r.node->Attribute_default,
                    crate::decl::opt_resolve(old(self).ctx.types, feature.node->Attribute_annotation),
                    feature.node->Attribute_name@,
                    decl_span,
                ),
        decreases old(self).ctx.instantiation_budget, feature_size(*feature) + 1, 1nat,
    {
        let (attr_name, annotation, default) = match &feature.node {
            TypeFeaturesKind::Attribute { name, annotation, default } => (name, annotation, default),
            TypeFeaturesKind::Method { name, .. } => (name, &None, &None),
        };
        let object_type = self.resolve_builtin("Object");
        let declared: Option<TypeId> = match annotation {
            Some(t_name) => match self.ctx.types.resolve(t_name.as_str()) {
                Some(id) => Some(id),
                None => {
                    self.report(
                        SemanticErrorKind::UnknownTypeInAttribute { ty_name: t_name.clone(), attribute: attr_name.clone() },
                        decl_span,
                    );
                    proof { lemma_one_more_keeps(old(self).diagnostics@, self.diagnostics@); }
                    Some(object_type)
                },
            },
            None => None,
        };
        let ghost mid = *self;
        let ghost mut tt = self.ctx.types;
        let (expected_attr_type, typed_default): (TypeId, Option<TypedExpr>) = match declared {
            Some(d) => match default {
                Some(init_expr) => {
                    let inferred = self.analyze_expr(init_expr);
                    proof { tt = self.ctx.types; }
                    if !self.ctx.types.is_subtype_of(inferred.ty, d) {
                        let ghost m2 = self.diagnostics@;
                        let expected = self.type_label(d);
                        let found = self.type_label(inferred.ty);
                        self.report(
                            SemanticErrorKind::AttributeTypeMismatch { attribute: attr_name.clone(), expected, found },
                            decl_span,
                        );
                        proof {
                            lemma_one_more_keeps(m2, self.diagnostics@);
                            let e = self.diagnostics@.len() - 1;
                            assert(crate::type_decl::attribute_mismatch(
                                attr_name@,
                                tt.infos@[d.0 as int].name@,
                                tt.infos@[inferred.ty.0 as int].name@,
                                decl_span,
                            )(self.diagnostics@[e]));
                        }
                    }
                    (d, Some(inferred))
                },
                None => (d, None),
            },
            None => match default {
                Some(init_expr) => {
                    let inferred = self.analyze_expr(init_expr);
                    (inferred.ty, Some(inferred))
                },
                None => (object_type, None),
            },
        };
        let ghost after_check = self.diagnostics@;
        proof {
            assert(crate::type_decl::attribute_checked(
                after_check,
                old(self).diagnostics@.len(),
                tt,
                typed_default,
                crate::decl::opt_resolve(old(self).ctx.types, *annotation),
                attr_name@,
                decl_span,
            ));
            assert(keeps_types(old(self).ctx.types.infos@, tt.infos@));
        }
        let final_attr_type = if self.ctx.types.get(expected_attr_type).is_protocol() {
            match &typed_default {
                Some(td) => td.ty,
                None => expected_attr_type,
            }
        } else {
            expected_attr_type
        };
        let ghost t0 = self.ctx.types.infos@;
        let ok = self.ctx.types.insert_attribute(
            type_id,
            Symbol { name: attr_name.clone(), kind: SymbolKind::Attribute, ty: SymbolType::Variable(final_attr_type), span: feature.span },
        );
        if !ok {
            let ghost m3 = self.diagnostics@;
            self.report(
                SemanticErrorKind::DuplicateAttribute { ty_name: String::from_str(decl_name), attribute: attr_name.clone() },
                feature.span,
            );
            proof { lemma_one_more_keeps(m3, self.diagnostics@); }
        }
        proof {
            crate::type_decl::lemma_attribute_checked_kept(
                after_check,
                self.diagnostics@,
                old(self).diagnostics@.len(),
                tt,
                typed_default,
                crate::decl::opt_resolve(old(self).ctx.types, *annotation),
                attr_name@,
                decl_span,
            );
            assert(keeps_types_except(tt.infos@, self.ctx.types.infos@, type_id.0 as int));
        }
        DeclSpanned::new(
            TypedTypeFeatureKind::Attribute { name: attr_name.clone(), type_id: final_attr_type, default: typed_default },
            feature.span,
        )
    }

    /// One method of a type instance. A method with an unannotated parameter
    /// is kept to be instantiated per call (`None`); it may not override a
    /// parent method (`GenericMethodOverrideNotAllowed`). Any other method is
    /// analysed in a scope with `self` and its parameters: override rules
    /// against the parent's method of that name, its body, its return type
    /// (see `method_return_rule`); it is then added to the instance.
    fn instantiate_method_feature(
        &mut self,
        type_id: TypeId,
        feature: &TypeFeatures,
        parent_type: Option<TypeId>,
        mangled_name: &String,
        decl_span: Span,
    ) -> (r: Option<TypedTypeFeature>)
        requires
            old(self).wf(),
            type_id.0 < old(self).ty_count(),
            opt_id_below(parent_type, old(self).ty_count()),
            feature.node is Method,
        ensures
            final(self).wf(),
            keeps_errors(old(self).diagnostics@, final(self).diagnostics@),
            keeps_types_except(old(self).ctx.types.infos@, final(self).ctx.types.infos@, type_id.0 as int),
            final(self).ctx.scopes@ == old(self).ctx.scopes@,
            final(self).ctx.instantiation_budget == old(self).ctx.instantiation_budget,
            final(self).ctx.generic_decls == old(self).ctx.generic_decls,
            final(self).ctx.types.infos@[type_id.0 as int].parent == old(self).ctx.types.infos@[type_id.0 as int].parent,
        decreases old(self).ctx.instantiation_budget, feature_size(*feature) + 1, 1nat,
    {
        let (method_name, method_params, return_type, body) = match &feature.node {
            TypeFeaturesKind::Method { name, params, return_type, body } => (name, params, return_type, body),
            _ => {
                return None;
            },
        };
        let mut has_unannotated_param = false;
        let mut q: usize = 0;
        while q < method_params.len()
            invariant
                q <= method_params@.len(),
            decreases method_params.len() - q,
        {
            if method_params[q].1.is_none() {
                has_unannotated_param = true;
            }
            q = q + 1;
        }
        if has_unannotated_param {
            match parent_type {
                Some(parent_id) => {
                    if self.ctx.types.get_method(parent_id, method_name.as_str()).is_some() {
                        self.report(
                            SemanticErrorKind::GenericMethodOverrideNotAllowed { method: method_name.clone(), ty_name: mangled_name.clone() },
                            feature.span,
                        );
                        proof { lemma_one_more_keeps(old(self).diagnostics@, self.diagnostics@); }
                    }
                },
                None => {},
            }
            self.ctx.register_pending_generic_method(type_id, method_name.clone(), crate::ast::copy_feature(feature));
            return None;
        }
        self.ctx.push_scope();
        let ghost s0 = self.ctx.scopes@;
        let _ = self.ctx.declare(
            Symbol { name: String::from_str("self"), kind: SymbolKind::Variable, ty: SymbolType::Variable(type_id), span: decl_span },
        );
        proof { assert(self.ctx.scopes@.drop_last() =~= s0.drop_last()); }
        let ghost m0 = *self;
        let typed_params = self.declare_method_params(method_name.as_str(), method_params, feature.span);
        let ghost m1 = self.diagnostics@;
        let declared = self.method_declared_return(method_name.as_str(), return_type, feature.span);
        proof {
            if self.diagnostics@.len() > m1.len() {
                lemma_one_more_keeps(m1, self.diagnostics@);
            }
        }
        let parent_method: Option<Symbol> = match parent_type {
            Some(parent_id) => match self.ctx.types.get_method(parent_id, method_name.as_str()) {
                Some(sym) => Some(sym.duplicate()),
                None => None,
            },
            None => None,
        };
        match &parent_method {
            Some(pm) => {
                proof { crate::symbols::lemma_same_symbol_type_valid(pm.ty, pm.ty, self.ty_count()); }
                self.validate_method_override_arity_and_params(method_name.as_str(), method_params, &pm.ty, decl_span);
            },
            None => {},
        }
        self.ctx.current_function_return = declared;
        self.ctx.current_method = Some(method_name.clone());
        let ghost before_body = *self;
        let body_type = self.analyze_expr(body);
        let ghost m2 = self.diagnostics@;
        let expected_ret_id = self.method_return_rule(method_name.as_str(), declared, body_type.ty, body_type.span);
        proof {
            if self.diagnostics@.len() > m2.len() {
                lemma_one_more_keeps(m2, self.diagnostics@);
            }
        }
        let ghost m3 = self.diagnostics@;
        self.override_return_rule(method_name.as_str(), expected_ret_id, &parent_method, decl_span);
        proof {
            if self.diagnostics@.len() > m3.len() {
                lemma_one_more_keeps(m3, self.diagnostics@);
            }
        }
        self.ctx.current_function_return = None;
        self.ctx.current_method = None;
        self.ctx.pop_scope();
        let mut param_types: Vec<TypeId> = Vec::new();
        let mut p: usize = 0;
        while p < typed_params.len()
            invariant
                p <= typed_params@.len(),
                param_types@.len() == p,
                forall|k: int| 0 <= k < typed_params@.len() ==> (#[trigger] typed_params@[k]).node.type_id.0 < self.ty_count(),
                forall|k: int| 0 <= k < p ==> (#[trigger] param_types@[k]).0 < self.ty_count(),
            decreases typed_params.len() - p,
        {
            param_types.push(typed_params[p].node.type_id);
            p = p + 1;
        }
        let _ = self.ctx.types.insert_method(
            type_id,
            Symbol {
                name: method_name.clone(),
                kind: SymbolKind::Function,
                ty: SymbolType::Function { params: param_types, ret: expected_ret_id },
                span: feature.span,
            },
        );
        proof {
            assert(self.ctx.scopes@ =~= old(self).ctx.scopes@);
        }
        Some(
            DeclSpanned::new(
                TypedTypeFeatureKind::Method {
                    name: method_name.clone(),
                    params: typed_params,
                    return_type: expected_ret_id,
                    body: body_type,
                },
                feature.span,
            ),
        )
    }

    /// The parent of a type instance. An unknown parent gives
    /// `UnknownParentType` and `Object`. A parent that is not generic is
    /// checked as for any type (`InvalidInheritanceArity`,
    /// `InheritanceArgumentTypeMismatch`). A generic parent is instantiated:
    /// for the child's concrete types when no arguments are passed, else for
    /// the argument types; when that instance is being made,
    /// `UnknownParentType` and `Object`.
    pub fn resolve_instantiated_parent(
        &mut self,
        child_name: &str,
        parent: Option<&InheritInfo>,
        type_decl_span: Span,
        call_site_span: Span,
        child_concrete_types: &Vec<TypeId>,
    ) -> (r: Option<TypedInheritInfo>)
        requires
            old(self).wf(),
            forall|k: int| 0 <= k < child_concrete_types@.len() ==> (#[trigger] child_concrete_types@[k]).0 < old(self).ty_count(),
        ensures
            frame(*old(self), *final(self)),
            parent is None <==> r is None,
            match r {
                Some(info) => info.node.parent_type.0 < final(self).ty_count(),
                None => true,
            },
            parent matches Some(ii) ==> instantiated_parent_outcome(*old(self), *final(self), child_name@, *ii, type_decl_span, child_concrete_types@, r->0),
        decreases old(self).ctx.instantiation_budget, inherit_args_size(parent) + 1, 0nat,
    {
        let inherit_info = match parent {
            Some(p) => p,
            None => {
                return None;
            },
        };
        let object_type = self.resolve_builtin("Object");
        let parent_name = &inherit_info.node.parent_name;
        let parent_molde_id = match self.ctx.types.resolve(parent_name.as_str()) {
            Some(id) => id,
            None => {
                self.report(
                    SemanticErrorKind::UnknownParentType { child: String::from_str(child_name), parent: parent_name.clone() },
                    type_decl_span,
                );
                proof { lemma_one_more_keeps(old(self).diagnostics@, self.diagnostics@); }
                return Some(
                    DeclSpanned::new(TypedInheritInfoKind { parent_type: object_type, args: None }, inherit_info.span),
                );
            },
        };
        let empty: Vec<Expr> = Vec::new();
        let actual_args: &Vec<Expr> = match &inherit_info.node.args {
            Some(a) => a,
            None => &empty,
        };
        if !self.ctx.types.is_generic_template(parent_molde_id) {
            proof { assert(crate::types::info_valid(self.ctx.types.infos@[parent_molde_id.0 as int], self.ty_count())); }
            let expected_parent_params = copy_constructor_params(self.ctx.types.get_constructor_params(parent_molde_id));
            if actual_args.len() != expected_parent_params.len() {
                self.report(
                    SemanticErrorKind::InvalidInheritanceArity {
                        parent: parent_name.clone(),
                        expected: expected_parent_params.len(),
                        found: actual_args.len(),
                    },
                    type_decl_span,
                );
                proof { lemma_one_more_keeps(old(self).diagnostics@, self.diagnostics@); }
            }
            let ghost arity_error = self.diagnostics@[old(self).diagnostics@.len() as int];
            let ghost cps = old(self).ctx.types.infos@[parent_molde_id.0 as int].constructor_params@;
            let ghost pts = ctor_param_types(cps, old(self).object_id());
            let ghost mm = crate::type_decl::inherit_mismatch(parent_name@, cps, actual_args@);
            let ghost mut starts: Seq<int> = seq![self.diagnostics@.len() as int];
            let ghost mut checks: Seq<int> = Seq::empty();
            let ghost mut tables: Seq<Seq<TypeInfo>> = Seq::empty();
            proof {
                lemma_args_checked_start(self.diagnostics@, self.diagnostics@.len() as int, pts, mm);
                assert(arg_types(Seq::<TypedExpr>::empty()) =~= Seq::<TypeId>::empty());
            }
            let mut typed_args: Vec<TypedExpr> = Vec::new();
            let mut i: usize = 0;
            while i < actual_args.len()
                invariant
                    self.wf(),
                    frame(*old(self), *self),
                    cps == old(self).ctx.types.infos@[parent_molde_id.0 as int].constructor_params@,
                    expected_parent_params@.len() == cps.len(),
                    forall|q: int| 0 <= q < cps.len() ==> (#[trigger] expected_parent_params@[q]).name@ == cps[q].name@
                        && expected_parent_params@[q].ty == cps[q].ty,
                    pts == ctor_param_types(cps, old(self).object_id()),
                    object_type == old(self).object_id(),
                    mm == crate::type_decl::inherit_mismatch(parent_name@, cps, actual_args@),
                    args_checked(self.diagnostics@, starts, checks, tables, arg_types(typed_args@), pts, mm),
                    starts[i as int] == self.diagnostics@.len(),
                    starts[0] == old(self).diagnostics@.len() + if actual_args@.len() != cps.len() { 1int } else { 0int },
                    tables_between(old(self).ctx.types.infos@, tables, self.ctx.types.infos@),
                    typed_args@.len() == i,
                    actual_args@.len() != expected_parent_params@.len() ==> {
                        &&& self.diagnostics@.len() > old(self).diagnostics@.len()
                        &&& self.diagnostics@[old(self).diagnostics@.len() as int] == arity_error
                    },
                    (actual_args@.len() == 0 && expected_parent_params@.len() == 0) ==> self.diagnostics@ == old(self).diagnostics@,
                    i <= actual_args@.len(),
                    exprs_size(actual_args@) <= inherit_args_size(parent),
                    parent_molde_id.0 < self.ty_count(),
                    object_type.0 < self.ty_count(),
                    params_valid(expected_parent_params@, self.ty_count()),
                decreases actual_args.len() - i,
            {
                proof { lemma_exprs_size_elem(actual_args@, i as int); }
                let ghost ea = self.diagnostics@;
                let ghost ta = self.ctx.types.infos@;
                let ghost prev = typed_args@;
                let arg_expr_type = self.analyze_expr(&actual_args[i]);
                let ghost c = self.diagnostics@.len() as int;
                let ghost t = self.ctx.types.infos@;
                if i < expected_parent_params.len() {
                    let expected_type_id = match expected_parent_params[i].ty {
                        Some(t) => t,
                        None => object_type,
                    };
                    if !self.ctx.types.is_subtype_of(arg_expr_type.ty, expected_type_id) {
                        let ghost mid = self.diagnostics@;
                        let expected = self.type_label(expected_type_id);
                        let found = self.type_label(arg_expr_type.ty);
                        self.report(
                            SemanticErrorKind::InheritanceArgumentTypeMismatch {
                                parent: parent_name.clone(),
                                param: expected_parent_params[i].name.clone(),
                                expected,
                                found,
                            },
                            actual_args[i].span,
                        );
                        proof {
                            lemma_one_more_keeps(mid, self.diagnostics@);
                            assert(mm(i as int, self.diagnostics@[c]));
                        }
                    }
                }
                typed_args.push(arg_expr_type);
                proof {
                    if (i as int) < pts.len() {
                        assert(pts[i as int] == match expected_parent_params@[i as int].ty {
                            Some(tt) => tt,
                            None => object_type,
                        });
                    }
                    assert(arg_checked(self.diagnostics@, c, self.diagnostics@.len() as int, t, arg_expr_type.ty, i as int, pts, mm));
                    lemma_args_checked_step(ea, self.diagnostics@, starts, checks, tables, arg_types(prev), pts, mm, c, t, arg_expr_type.ty);
                    assert(arg_types(typed_args@) =~= arg_types(prev).push(arg_expr_type.ty));
                    let ghost old_tables = tables;
                    starts = starts.push(self.diagnostics@.len() as int);
                    checks = checks.push(c);
                    tables = tables.push(t);
                    assert forall|k: int| 0 <= k < tables.len() implies keeps_types(old(self).ctx.types.infos@, #[trigger] tables[k])
                        && keeps_types(tables[k], self.ctx.types.infos@) by {
                        if k < old_tables.len() {
                            assert(tables[k] == old_tables[k]);
                            lemma_keeps_types_trans(old_tables[k], ta, self.ctx.types.infos@);
                        } else {
                            lemma_keeps_types_trans(old(self).ctx.types.infos@, ta, t);
                            assert(t =~= self.ctx.types.infos@);
                        }
                    }
                }
                i = i + 1;
            }
            let ghost typed_final = typed_args@;
            let wrap_typed_args = if typed_args.len() > 0 { Some(typed_args) } else { None };
            let r = DeclSpanned::new(TypedInheritInfoKind { parent_type: parent_molde_id, args: wrap_typed_args }, inherit_info.span);
            proof {
                if typed_final.len() > 0 {
                    assert(r.node.args->0@ == typed_final);
                    assert(args_checked(self.diagnostics@, starts, checks, tables, arg_types(r.node.args->0@), pts, mm));
                }
            }
            return Some(r);
        }
        let (parent_concrete_types, wrap_typed_args): (Vec<TypeId>, Option<Vec<TypedExpr>>) = match &inherit_info.node.args {
            None => (copy_ids(child_concrete_types), None),
            Some(args) => {
                let typed_args = self.analyze_args(args);
                let mut tys: Vec<TypeId> = Vec::new();
                let mut i: usize = 0;
                while i < typed_args.len()
                    invariant
                        i <= typed_args@.len(),
                        tys@.len() == i,
                        forall|k: int| 0 <= k < typed_args@.len() ==> (#[trigger] typed_args@[k]).ty.0 < self.ty_count(),
                        forall|k: int| 0 <= k < i ==> (#[trigger] tys@[k]).0 < self.ty_count(),
                        forall|k: int| 0 <= k < i ==> (#[trigger] tys@[k]) == typed_args@[k].ty,
                    decreases typed_args.len() - i,
                {
                    tys.push(typed_args[i].ty);
                    i = i + 1;
                }
                proof { assert(tys@ =~= Seq::new(typed_args@.len(), |k: int| typed_args@[k].ty)); }
                let w = if typed_args.len() > 0 { Some(typed_args) } else { None };
                (tys, w)
            },
        };
        let ghost mid = *self;
        let parent_key: GenericInstanceKey = (parent_name.clone(), copy_ids(&parent_concrete_types));
        let resolved_parent_type_id = match self.ctx.get_type_instance(&parent_key) {
            Some(existing) => {
                proof {
                    let k = choose|k: int| crate::context::is_first_key(self.ctx.generic_type_instances@, key_view(parent_key), k);
                    assert(self.ctx.generic_type_instances@[k].1.type_id.0 < self.ty_count());
                }
                existing
            },
            None => {
                if self.ctx.is_type_in_progress(&parent_key) {
                    self.report(
                        SemanticErrorKind::UnknownParentType { child: String::from_str(child_name), parent: parent_name.clone() },
                        type_decl_span,
                    );
                    proof { lemma_one_more_keeps(mid.diagnostics@, self.diagnostics@); }
                    object_type
                } else {
                    match self.instantiate_generic_type(parent_name.as_str(), &parent_concrete_types, call_site_span) {
                        Some(id) => id,
                        None => object_type,
                    }
                }
            },
        };
        let info = DeclSpanned::new(TypedInheritInfoKind { parent_type: resolved_parent_type_id, args: wrap_typed_args }, inherit_info.span);
        proof {
            assert(parent_concrete_types@ =~= self::parent_key(*inherit_info, info, child_concrete_types@));
            assert(key_view(parent_key) == (parent_name@, parent_concrete_types@));
        }
        Some(info)
    }
}

} // verus!
