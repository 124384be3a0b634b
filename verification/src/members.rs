use vstd::prelude::*;
use crate::analyzer::{keeps_errors, SemanticAnalyzer};
use crate::ast::Param;
use crate::error::SemanticErrorKind;
use crate::expr::{lemma_one_more_keeps, one_more};
use crate::hir::{DeclSpanned, TypedParam, TypedParamKind};
use crate::span::Span;
use crate::symbols::{Symbol, SymbolKind, SymbolType};
use crate::type_decl::{lemma_reported_kept, reported};
use crate::types::{subtype, TypeId};

verus! {

/// What declaring parameters in the innermost scope keeps: the table, the
/// outer scopes, the errors found before and the budget.
pub open spec fn member_frame(before: SemanticAnalyzer, after: SemanticAnalyzer) -> bool {
    &&& after.wf()
    &&& after.ctx.types == before.ctx.types
    &&& after.ctx.scopes@.len() == before.ctx.scopes@.len()
    &&& after.ctx.scopes@.drop_last() == before.ctx.scopes@.drop_last()
    &&& keeps_errors(before.diagnostics@, after.diagnostics@)
    &&& after.ctx.instantiation_budget == before.ctx.instantiation_budget
    &&& after.ctx.current_type == before.ctx.current_type
    &&& after.ctx.current_method == before.ctx.current_method
    &&& after.ctx.current_function_return == before.ctx.current_function_return
    &&& after.ctx.generic_decls == before.ctx.generic_decls
}

/// The type an overriding method's parameter is compared with: its
/// annotation resolved, `Object` when it has none or names no type.
pub open spec fn override_param_id(a: SemanticAnalyzer, p: Param) -> TypeId {
    match p.1 {
        Some(t) => match a.ctx.types.spec_resolve(t@) {
            Some(id) => id,
            None => a.object_id(),
        },
        None => a.object_id(),
    }
}

/// The positions among the first `n` parameters whose type differs from
/// the parent method's parameter there, in order.
pub open spec fn override_mismatches(a: SemanticAnalyzer, params: Seq<Param>, parent: Seq<TypeId>, n: nat) -> Seq<int>
    decreases n,
{
    if n == 0 {
        Seq::empty()
    } else {
        let prev = override_mismatches(a, params, parent, (n - 1) as nat);
        if override_param_id(a, params[n - 1]) != parent[n - 1] {
            prev.push(n - 1)
        } else {
            prev
        }
    }
}

/// Error `e` is `InvalidOverrideParameterType` for parameter `i`.
pub open spec fn override_param_error(
    a: SemanticAnalyzer,
    e: crate::error::SemanticError,
    method_name: Seq<char>,
    params: Seq<Param>,
    parent: Seq<TypeId>,
    i: int,
    span: Span,
) -> bool {
    &&& e.span == span
    &&& e.kind matches SemanticErrorKind::InvalidOverrideParameterType { method, param_name, found, expected }
    &&& method@ == method_name && param_name@ == params[i].0@
    &&& found@ == a.name_of(override_param_id(a, params[i])) && expected@ == a.name_of(parent[i])
}

/// `UnknownTypeInMethodParameter` for parameter `param` of `method`,
/// annotated `a`, at `span`.
pub open spec fn unknown_param_type(method: Seq<char>, param: Seq<char>, a: Seq<char>, span: Span) -> spec_fn(crate::error::SemanticError) -> bool {
    |e: crate::error::SemanticError| e.span == span && (e.kind matches SemanticErrorKind::UnknownTypeInMethodParameter {
        method: m,
        param: p,
        ty_name,
    } && m@ == method && p@ == param && ty_name@ == a)
}

/// Each parameter of `params` annotated with a name that no type of `a`
/// has is reported among the errors of `errs` from index `from`.
pub open spec fn unknown_params_reported(a: SemanticAnalyzer, errs: Seq<crate::error::SemanticError>, from: nat, method: Seq<char>, params: Seq<Param>, span: Span) -> bool {
    forall|i: int|
        0 <= i < params.len() ==> match (#[trigger] params[i]).1 {
            Some(t) => a.ctx.types.spec_resolve(t@) is None ==> reported(errs, from, unknown_param_type(method, params[i].0@, t@, span)),
            None => true,
        }
}

impl SemanticAnalyzer {
    /// The type of a method parameter: its annotation resolved, `Object` when
    /// it has none. An unknown type gives `UnknownTypeInMethodParameter`, a
    /// protocol `ProtocolNotAllowedAsParameterType`; both give `Object`.
    pub fn method_param_type(&mut self, method_name: &str, param: &Param, span: Span) -> (t: TypeId)
        requires
            old(self).wf(),
        ensures
            final(self).ctx == old(self).ctx,
            t.0 < old(self).ty_count(),
            match param.1 {
                None => t == old(self).object_id() && final(self).diagnostics@ == old(self).diagnostics@,
                Some(a) => match old(self).ctx.types.spec_resolve(a@) {
                    Some(id) => if old(self).ctx.types.infos@[id.0 as int].kind is Protocol {
                        &&& t == old(self).object_id()
                        &&& one_more(old(self).diagnostics@, final(self).diagnostics@, span)
                        &&& final(self).diagnostics@.last().kind matches SemanticErrorKind::ProtocolNotAllowedAsParameterType {
                            ty_name,
                            param_name,
                        } && ty_name@ == a@ && param_name@ == param.0@
                    } else {
                        t == id && final(self).diagnostics@ == old(self).diagnostics@
                    },
                    None => {
                        &&& t == old(self).object_id()
                        &&& one_more(old(self).diagnostics@, final(self).diagnostics@, span)
                        &&& final(self).diagnostics@.last().kind matches SemanticErrorKind::UnknownTypeInMethodParameter {
                            method,
                            param: p,
                            ty_name,
                        } && method@ == method_name@ && p@ == param.0@ && ty_name@ == a@
                    },
                },
            },
    {
        match &param.1 {
            Some(t_name) => match self.ctx.types.resolve(t_name.as_str()) {
                Some(id) => {
                    if self.ctx.types.get(id).is_protocol() {
                        self.report(
                            SemanticErrorKind::ProtocolNotAllowedAsParameterType { ty_name: t_name.clone(), param_name: param.0.clone() },
                            span,
                        );
                        self.resolve_builtin("Object")
                    } else {
                        id
                    }
                },
                None => {
                    self.report(
                        SemanticErrorKind::UnknownTypeInMethodParameter {
                            method: String::from_str(method_name),
                            param: param.0.clone(),
                            ty_name: t_name.clone(),
                        },
                        span,
                    );
                    self.resolve_builtin("Object")
                },
            },
            None => self.resolve_builtin("Object"),
        }
    }

    /// Gives each parameter of a method its type (see `method_param_type`)
    /// and declares it in the innermost scope.
    pub fn declare_method_params(&mut self, method_name: &str, params: &Vec<Param>, span: Span) -> (r: Vec<TypedParam>)
        requires
            old(self).wf(),
        ensures
            member_frame(*old(self), *final(self)),
            r@.len() == params@.len(),
            forall|i: int|
                0 <= i < r@.len() ==> (#[trigger] r@[i]).node.type_id.0 < final(self).ty_count() && r@[i].node.name@
                    == params@[i].0@,
            unknown_params_reported(*old(self), final(self).diagnostics@, old(self).diagnostics@.len(), method_name@, params@, span),
    {
        let mut typed: Vec<TypedParam> = Vec::new();
        let mut i: usize = 0;
        while i < params.len()
            invariant
                member_frame(*old(self), *self),
                i <= params@.len(),
                typed@.len() == i,
                forall|k: int|
                    0 <= k < i ==> (#[trigger] typed@[k]).node.type_id.0 < self.ty_count() && typed@[k].node.name@
                        == params@[k].0@,
                unknown_params_reported(*old(self), self.diagnostics@, old(self).diagnostics@.len(), method_name@, params@.take(i as int), span),
            decreases params.len() - i,
        {
            let ghost d0 = self.diagnostics@;
            let p_type = self.method_param_type(method_name, &params[i], span);
            proof {
                if self.diagnostics@.len() > d0.len() {
                    lemma_one_more_keeps(d0, self.diagnostics@);
                }
                let ps = params@.take(i + 1);
                assert forall|q: int| 0 <= q < ps.len() implies match (#[trigger] ps[q]).1 {
                    Some(t) => old(self).ctx.types.spec_resolve(t@) is None ==> reported(
                        self.diagnostics@,
                        old(self).diagnostics@.len(),
                        unknown_param_type(method_name@, ps[q].0@, t@, span),
                    ),
                    None => true,
                } by {
                    if q < i {
                        assert(ps[q] == params@.take(i as int)[q]);
                        match ps[q].1 {
                            Some(t) => {
                                if old(self).ctx.types.spec_resolve(t@) is None {
                                    lemma_reported_kept(
                                        d0,
                                        self.diagnostics@,
                                        old(self).diagnostics@.len(),
                                        unknown_param_type(method_name@, ps[q].0@, t@, span),
                                    );
                                }
                            },
                            None => {},
                        }
                    } else {
                        match ps[q].1 {
                            Some(t) => {
                                if old(self).ctx.types.spec_resolve(t@) is None {
                                    let e = self.diagnostics@.len() - 1;
                                    assert(unknown_param_type(method_name@, ps[q].0@, t@, span)(self.diagnostics@[e]));
                                }
                            },
                            None => {},
                        }
                    }
                }
            }
            let ghost s0 = self.ctx.scopes@;
            let _ = self.ctx.declare(
                Symbol { name: params[i].0.clone(), kind: SymbolKind::Parameter, ty: SymbolType::Variable(p_type), span },
            );
            proof {
                assert(self.ctx.scopes@.drop_last() =~= s0.drop_last());
            }
            typed.push(DeclSpanned::new(TypedParamKind { name: params[i].0.clone(), type_id: p_type }, span));
            i = i + 1;
        }
        proof { assert(params@.take(i as int) =~= params@); }
        typed
    }

    /// The declared return type of a method: `None` when it declares none;
    /// an unknown type gives `UnknownReturnTypeInMethod` and `Object`.
    pub fn method_declared_return(&mut self, method_name: &str, return_type: &Option<String>, span: Span) -> (r: Option<TypeId>)
        requires
            old(self).wf(),
        ensures
            final(self).ctx == old(self).ctx,
            crate::symbols::opt_id_below(r, old(self).ty_count()),
            match return_type {
                None => r is None && final(self).diagnostics@ == old(self).diagnostics@,
                Some(a) => match old(self).ctx.types.spec_resolve(a@) {
                    Some(id) => r == Some(id) && final(self).diagnostics@ == old(self).diagnostics@,
                    None => {
                        &&& r == Some(old(self).object_id())
                        &&& one_more(old(self).diagnostics@, final(self).diagnostics@, span)
                        &&& final(self).diagnostics@.last().kind matches SemanticErrorKind::UnknownReturnTypeInMethod {
                            method,
                            ty_name,
                        } && method@ == method_name@ && ty_name@ == a@
                    },
                },
            },
    {
        match return_type {
            Some(t_name) => match self.ctx.types.resolve(t_name.as_str()) {
                Some(id) => Some(id),
                None => {
                    self.report(
                        SemanticErrorKind::UnknownReturnTypeInMethod { method: String::from_str(method_name), ty_name: t_name.clone() },
                        span,
                    );
                    Some(self.resolve_builtin("Object"))
                },
            },
            None => None,
        }
    }

    /// The return type a method ends up with, once its body is typed: the
    /// body must be a subtype of the declared type (else
    /// `MethodReturnTypeMismatch` at the body); a declared protocol gives way
    /// to the body's type; with no declared type, the body's type.
    pub fn method_return_rule(&mut self, method_name: &str, declared: Option<TypeId>, body_ty: TypeId, body_span: Span) -> (t: TypeId)
        requires
            old(self).wf(),
            crate::symbols::opt_id_below(declared, old(self).ty_count()),
            body_ty.0 < old(self).ty_count(),
        ensures
            final(self).ctx == old(self).ctx,
            t.0 < old(self).ty_count(),
            match declared {
                None => t == body_ty && final(self).diagnostics@ == old(self).diagnostics@,
                Some(d) => {
                    &&& t == (if old(self).ctx.types.infos@[d.0 as int].kind is Protocol { body_ty } else { d })
                    &&& subtype(old(self).ctx.types.infos@, body_ty, d, old(self).ty_count()) ==> final(self).diagnostics@
                        == old(self).diagnostics@
                    &&& !subtype(old(self).ctx.types.infos@, body_ty, d, old(self).ty_count()) ==> (one_more(
                        old(self).diagnostics@,
                        final(self).diagnostics@,
                        body_span,
                    ) && (final(self).diagnostics@.last().kind matches SemanticErrorKind::MethodReturnTypeMismatch {
                        method,
                        expected,
                        found,
                    } && method@ == method_name@ && expected@ == old(self).name_of(d) && found@ == old(self).name_of(body_ty)))
                },
            },
    {
        match declared {
            Some(d) => {
                if !self.ctx.types.is_subtype_of(body_ty, d) {
                    let expected = self.type_label(d);
                    let found = self.type_label(body_ty);
                    self.report(
                        SemanticErrorKind::MethodReturnTypeMismatch { method: String::from_str(method_name), expected, found },
                        body_span,
                    );
                }
                if self.ctx.types.get(d).is_protocol() {
                    body_ty
                } else {
                    d
                }
            },
            None => body_ty,
        }
    }

    /// An overriding method must return what the parent's method returns,
    /// else `InvalidOverrideReturnType`.
    pub fn override_return_rule(&mut self, method_name: &str, ret: TypeId, parent_method: &Option<Symbol>, span: Span)
        requires
            old(self).wf(),
            ret.0 < old(self).ty_count(),
            match parent_method {
                Some(m) => crate::symbols::symbol_type_valid(m.ty, old(self).ty_count()),
                None => true,
            },
        ensures
            final(self).ctx == old(self).ctx,
            match parent_method {
                Some(m) => match m.ty {
                    SymbolType::Function { ret: pr, .. } => {
                        &&& ret == pr ==> final(self).diagnostics@ == old(self).diagnostics@
                        &&& ret != pr ==> (one_more(old(self).diagnostics@, final(self).diagnostics@, span)
                            && (final(self).diagnostics@.last().kind matches SemanticErrorKind::InvalidOverrideReturnType {
                            method,
                            found,
                            expected,
                        } && method@ == method_name@ && found@ == old(self).name_of(ret) && expected@ == old(self).name_of(pr)))
                    },
                    _ => final(self).diagnostics@ == old(self).diagnostics@,
                },
                None => final(self).diagnostics@ == old(self).diagnostics@,
            },
    {
        match parent_method {
            Some(m) => match &m.ty {
                SymbolType::Function { ret: parent_ret, .. } => {
                    if ret != *parent_ret {
                        let found = self.type_label(ret);
                        let expected = self.type_label(*parent_ret);
                        self.report(
                            SemanticErrorKind::InvalidOverrideReturnType { method: String::from_str(method_name), found, expected },
                            span,
                        );
                    }
                },
                _ => {},
            },
            None => {},
        }
    }

    /// Checks an overriding method's parameters against the parent method's
    /// signature: the same number (else `InvalidOverrideArity`), and each
    /// parameter that has a counterpart of exactly its type (else
    /// `InvalidOverrideParameterType`; an unannotated parameter is an `Object`).
    pub fn validate_method_override_arity_and_params(
        &mut self,
        method_name: &str,
        current_params: &Vec<Param>,
        parent_method_sig: &SymbolType,
        span: Span,
    )
        requires
            old(self).wf(),
            crate::symbols::symbol_type_valid(*parent_method_sig, old(self).ty_count()),
        ensures
            final(self).ctx == old(self).ctx,
            keeps_errors(old(self).diagnostics@, final(self).diagnostics@),
            !(parent_method_sig is Function) ==> final(self).diagnostics@ == old(self).diagnostics@,
            parent_method_sig is Function && current_params@.len() != parent_method_sig->Function_params@.len() ==> {
                &&& final(self).diagnostics@.len() > old(self).diagnostics@.len()
                &&& final(self).diagnostics@[old(self).diagnostics@.len() as int].span == span
                &&& final(self).diagnostics@[old(self).diagnostics@.len() as int].kind matches SemanticErrorKind::InvalidOverrideArity {
                    method,
                    found,
                    expected,
                } && method@ == method_name@ && found == current_params@.len() && expected
                    == parent_method_sig->Function_params@.len()
            },
            parent_method_sig is Function ==> {
                let pps = parent_method_sig->Function_params@;
                let n: nat = if current_params@.len() < pps.len() { current_params@.len() } else { pps.len() };
                let ms = override_mismatches(*old(self), current_params@, pps, n);
                let arity: nat = if current_params@.len() != pps.len() { 1 } else { 0 };
                &&& final(self).diagnostics@.len() == old(self).diagnostics@.len() + arity + ms.len()
                &&& forall|m: int|
                    0 <= m < ms.len() ==> override_param_error(
                        *old(self),
                        #[trigger] final(self).diagnostics@[old(self).diagnostics@.len() + arity + m],
                        method_name@,
                        current_params@,
                        pps,
                        ms[m],
                        span,
                    )
            },
    {
        match parent_method_sig {
            SymbolType::Function { params: parent_params, .. } => {
                if current_params.len() != parent_params.len() {
                    self.report(
                        SemanticErrorKind::InvalidOverrideArity {
                            method: String::from_str(method_name),
                            found: current_params.len(),
                            expected: parent_params.len(),
                        },
                        span,
                    );
                    proof { lemma_one_more_keeps(old(self).diagnostics@, self.diagnostics@); }
                }
                let ghost d1 = self.diagnostics@;
                let ghost pps = parent_params@;
                let mut i: usize = 0;
                while i < current_params.len()
                    invariant_except_break
                        i <= current_params@.len(),
                    invariant
                        self.ctx == old(self).ctx,
                        self.wf(),
                        keeps_errors(d1, self.diagnostics@),
                        keeps_errors(old(self).diagnostics@, d1),
                        d1.len() == old(self).diagnostics@.len() + (if current_params@.len() != pps.len() { 1nat } else { 0nat }),
                        pps == parent_params@,
                        i <= pps.len(),
                        i <= current_params@.len(),
                        self.diagnostics@.len() == d1.len() + override_mismatches(*old(self), current_params@, pps, i as nat).len(),
                        forall|m: int|
                            0 <= m < override_mismatches(*old(self), current_params@, pps, i as nat).len() ==> override_param_error(
                                *old(self),
                                #[trigger] self.diagnostics@[d1.len() + m],
                                method_name@,
                                current_params@,
                                pps,
                                override_mismatches(*old(self), current_params@, pps, i as nat)[m],
                                span,
                            ),
                        forall|k: int| 0 <= k < parent_params@.len() ==> (#[trigger] parent_params@[k]).0 < self.ty_count(),
                    ensures
                        i == (if current_params@.len() < pps.len() { current_params@.len() } else { pps.len() }),
                    decreases current_params.len() - i,
                {
                    if i >= parent_params.len() {
                        break;
                    }
                    let ghost ms0 = override_mismatches(*old(self), current_params@, pps, i as nat);
                    let ghost before_i = self.diagnostics@;
                    let current_p_id = match &current_params[i].1 {
                        Some(t) => match self.ctx.types.resolve(t.as_str()) {
                            Some(id) => id,
                            None => self.resolve_builtin("Object"),
                        },
                        None => self.resolve_builtin("Object"),
                    };
                    if current_p_id != parent_params[i] {
                        let ghost mid = self.diagnostics@;
                        let found = self.type_label(current_p_id);
                        let expected = self.type_label(parent_params[i]);
                        self.report(
                            SemanticErrorKind::InvalidOverrideParameterType {
                                method: String::from_str(method_name),
                                param_name: current_params[i].0.clone(),
                                found,
                                expected,
                            },
                            span,
                        );
                        proof { lemma_one_more_keeps(mid, self.diagnostics@); }
                    }
                    proof {
                        let ms1 = override_mismatches(*old(self), current_params@, pps, (i + 1) as nat);
                        assert(current_p_id == override_param_id(*old(self), current_params@[i as int]));
                        assert forall|m: int| 0 <= m < ms1.len() implies override_param_error(
                            *old(self),
                            #[trigger] self.diagnostics@[d1.len() + m],
                            method_name@,
                            current_params@,
                            pps,
                            ms1[m],
                            span,
                        ) by {
                            if m < ms0.len() {
                                assert(ms1[m] == ms0[m]);
                                assert(self.diagnostics@[d1.len() + m] == before_i[d1.len() + m]);
                            } else {
                                assert(m == ms0.len());
                                assert(ms1[m] == i as int);
                            }
                        }
                    }
                    i = i + 1;
                }
            },
            _ => {},
        }
    }
}

} // verus!
