use vstd::prelude::*;
use crate::analyzer::{
    arg_checked, arg_types, args_checked, keeps_errors, keeps_types, lemma_args_checked_start, lemma_args_checked_step,
    lemma_keeps_types_trans, tables_between, SemanticAnalyzer,
};
use crate::ast::{exprs_size, lemma_exprs_size_elem, Decl, DeclKind, Expr, InheritInfo, Param, TypeFeatures, TypeFeaturesKind};
use crate::error::{SemanticError, SemanticErrorKind};
use crate::expr::{lemma_one_more_keeps, mirrors, one_more};
use crate::hir::{
    DeclSpanned, TypedDecl, TypedDeclKind, TypedExpr, TypedInheritInfo, TypedInheritInfoKind, TypedParam, TypedParamKind,
    TypedTypeFeature, TypedTypeFeatureKind,
};
use crate::new::{copy_constructor_params, ctor_param_types, keeps_types_except};
use crate::span::Span;
use crate::symbols::{opt_id_below, Symbol, SymbolKind, SymbolType};
use crate::types::{first_named, has_named, is_first_named, params_valid, subtype, TypeId, TypeInfo};

verus! {

/// What analysing a declaration keeps: validity, the errors found before,
/// the scopes and the budget; the table may change only at `k`.
pub open spec fn decl_analysis_frame(before: SemanticAnalyzer, after: SemanticAnalyzer, k: int) -> bool {
    &&& after.wf()
    &&& keeps_errors(before.diagnostics@, after.diagnostics@)
    &&& keeps_types_except(before.ctx.types.infos@, after.ctx.types.infos@, k)
    &&& after.ctx.scopes@ == before.ctx.scopes@
    &&& after.ctx.instantiation_budget == before.ctx.instantiation_budget
    &&& after.ctx.generic_decls == before.ctx.generic_decls
}

/// The error a parent clause naming `parent` gives for its argument `k`
/// (of `args`) when it does not fit the parent's constructor parameter `k`
/// (of `cps`).
pub open spec fn inherit_mismatch(
    parent: Seq<char>,
    cps: Seq<crate::types::ConstructorParam>,
    args: Seq<Expr>,
) -> spec_fn(int, SemanticError) -> bool {
    |k: int, e: SemanticError|
        e.span == args[k].span && (e.kind matches SemanticErrorKind::InheritanceArgumentTypeMismatch { parent: p, param, .. } && p@ == parent
            && param@ == cps[k].name@)
}

/// Every member name that type `k` had before it still has after.
pub open spec fn member_names_kept(before: Seq<TypeInfo>, after: Seq<TypeInfo>, k: int) -> bool {
    &&& forall|n: Seq<char>| has_named(before[k].methods@, n) ==> #[trigger] has_named(after[k].methods@, n)
    &&& forall|n: Seq<char>| has_named(before[k].attributes@, n) ==> #[trigger] has_named(after[k].attributes@, n)
}

/// Among the errors added between `before` and `after`: for an unknown
/// parent, `UnknownParentType`; for a known parent given a number of
/// arguments other than its constructor's, `InvalidInheritanceArity`; both
/// at the declaration.
pub open spec fn parent_clause_reported(before: SemanticAnalyzer, after: SemanticAnalyzer, d: Decl) -> bool {
    let old_len = before.diagnostics@.len();
    let errs = after.diagnostics@;
    match d.node->Type_parent {
        Some(ii) => match before.ctx.types.spec_resolve(ii.node.parent_name@) {
            None => exists|j: int|
                old_len <= j < errs.len() && (#[trigger] errs[j]).span == d.span && (errs[j].kind matches SemanticErrorKind::UnknownParentType {
                    child,
                    parent,
                } && child@ == d.node->Type_name@ && parent@ == ii.node.parent_name@),
            Some(pid) => match ii.node.args {
                Some(a) => a@.len() != before.ctx.types.infos@[pid.0 as int].constructor_params@.len() ==> exists|j: int|
                    old_len <= j < errs.len() && (#[trigger] errs[j]).span == d.span && (errs[j].kind matches SemanticErrorKind::InvalidInheritanceArity {
                        parent,
                        expected,
                        found,
                    } && parent@ == ii.node.parent_name@ && expected == before.ctx.types.infos@[pid.0 as int].constructor_params@.len()
                        && found == a@.len()),
                None => true,
            },
        },
        None => true,
    }
}

/// The type a function or constructor parameter gets: its annotation when
/// that names a type other than a protocol, else `Object`.
pub open spec fn param_id(a: SemanticAnalyzer, p: Param) -> TypeId {
    match p.1 {
        Some(x) => match a.ctx.types.spec_resolve(x@) {
            Some(id) => if a.ctx.types.infos@[id.0 as int].kind is Protocol {
                a.object_id()
            } else {
                id
            },
            None => a.object_id(),
        },
        None => a.object_id(),
    }
}

/// The error for a parameter `param` of `owner` annotated with `a`, which
/// names no type: `UnknownTypeInFunctionParameter` for a constructor, else
/// `UnknownTypeInParameter`; at `span`.
pub open spec fn unknown_param_type(owner: Seq<char>, param: Seq<char>, a: Seq<char>, span: Span, constructor: bool) -> spec_fn(SemanticError) -> bool {
    |e: SemanticError| e.span == span && if constructor {
        e.kind matches SemanticErrorKind::UnknownTypeInFunctionParameter { function, param: p, ty_name } && function@ == owner && p@ == param
            && ty_name@ == a
    } else {
        e.kind matches SemanticErrorKind::UnknownTypeInParameter { ty_name, param_name } && ty_name@ == a && param_name@ == param
    }
}

/// `DuplicateConstructorParameter` (constructor) or `DuplicateParameter`
/// for parameter `param` of `owner`, at `span`.
pub open spec fn duplicate_param(owner: Seq<char>, param: Seq<char>, span: Span, constructor: bool) -> spec_fn(SemanticError) -> bool {
    |e: SemanticError| e.span == span && if constructor {
        e.kind matches SemanticErrorKind::DuplicateConstructorParameter { ty_name, param: p } && ty_name@ == owner && p@ == param
    } else {
        e.kind matches SemanticErrorKind::DuplicateParameter { function, param: p } && function@ == owner && p@ == param
    }
}

/// The parameters `typed` of `owner` were declared from `params`: each
/// keeps its name and gets its type (see `param_id`); an annotation that
/// names no type, and a name an earlier parameter has, are reported among the
/// errors of `errs` from index `from`.
pub open spec fn params_declared(
    a: SemanticAnalyzer,
    owner: Seq<char>,
    params: Seq<Param>,
    typed: Seq<TypedParam>,
    errs: Seq<SemanticError>,
    from: nat,
    span: Span,
    constructor: bool,
) -> bool {
    &&& typed.len() == params.len()
    &&& forall|i: int|
        0 <= i < params.len() ==> (#[trigger] typed[i]).node.name@ == params[i].0@ && typed[i].node.type_id == param_id(a, params[i])
    &&& forall|i: int|
        0 <= i < params.len() ==> match (#[trigger] params[i]).1 {
            Some(x) => a.ctx.types.spec_resolve(x@) is None ==> reported(errs, from, unknown_param_type(owner, params[i].0@, x@, span, constructor)),
            None => true,
        }
    &&& forall|i: int, q: int|
        0 <= q < i < params.len() && (#[trigger] params[q]).0@ == (#[trigger] params[i]).0@ ==> reported(
            errs,
            from,
            duplicate_param(owner, params[i].0@, span, constructor),
        )
}

/// `UnknownReturnType` for function `function` declared to return `a`, at `span`.
pub open spec fn unknown_return_type_of(function: Seq<char>, a: Seq<char>, span: Span) -> spec_fn(SemanticError) -> bool {
    |e: SemanticError| e.span == span && (e.kind matches SemanticErrorKind::UnknownReturnType { function: f, ty_name } && f@ == function
        && ty_name@ == a)
}

proof fn lemma_params_declared_kept(
    a: SemanticAnalyzer,
    owner: Seq<char>,
    params: Seq<Param>,
    typed: Seq<TypedParam>,
    e1: Seq<SemanticError>,
    e2: Seq<SemanticError>,
    from: nat,
    span: Span,
    constructor: bool,
)
    requires
        params_declared(a, owner, params, typed, e1, from, span, constructor),
        keeps_errors(e1, e2),
    ensures
        params_declared(a, owner, params, typed, e2, from, span, constructor),
{
    assert forall|i: int| 0 <= i < params.len() implies match (#[trigger] params[i]).1 {
        Some(x) => a.ctx.types.spec_resolve(x@) is None ==> reported(e2, from, unknown_param_type(owner, params[i].0@, x@, span, constructor)),
        None => true,
    } by {
        match params[i].1 {
            Some(x) => {
                if a.ctx.types.spec_resolve(x@) is None {
                    lemma_reported_kept(e1, e2, from, unknown_param_type(owner, params[i].0@, x@, span, constructor));
                }
            },
            None => {},
        }
    }
    assert forall|i: int, q: int|
        0 <= q < i < params.len() && (#[trigger] params[q]).0@ == (#[trigger] params[i]).0@ implies reported(
        e2,
        from,
        duplicate_param(owner, params[i].0@, span, constructor),
    ) by {
        lemma_reported_kept(e1, e2, from, duplicate_param(owner, params[i].0@, span, constructor));
    }
}

/// How many of the first `n` features are attributes.
pub open spec fn attrs_before(fs: Seq<TypeFeatures>, n: int) -> int
    decreases n,
{
    if n <= 0 {
        0
    } else {
        attrs_before(fs, n - 1) + (if fs[n - 1].node is Attribute { 1int } else { 0int })
    }
}

/// `tf` holds the analysed features of `fs`: first each attribute, then each
/// method, both in the order of `fs`, each at the place of its feature.
pub open spec fn features_laid_out(fs: Seq<TypeFeatures>, tf: Seq<TypedTypeFeature>) -> bool {
    &&& tf.len() == fs.len()
    &&& forall|f: int|
        0 <= f < fs.len() && (#[trigger] fs[f]).node is Attribute ==> tf[attrs_before(fs, f)].span == fs[f].span
            && tf[attrs_before(fs, f)].node is Attribute
    &&& forall|f: int|
        0 <= f < fs.len() && (#[trigger] fs[f]).node is Method ==> tf[attrs_before(fs, fs.len() as int) + f - attrs_before(fs, f)].span
            == fs[f].span && tf[attrs_before(fs, fs.len() as int) + f - attrs_before(fs, f)].node is Method
}

pub proof fn lemma_attrs_before_mono(fs: Seq<TypeFeatures>, a: int, b: int)
    requires
        0 <= a <= b,
    ensures
        0 <= attrs_before(fs, a) <= attrs_before(fs, b),
        attrs_before(fs, b) - attrs_before(fs, a) <= b - a,
    decreases b - a,
{
    if a < b {
        lemma_attrs_before_mono(fs, a, b - 1);
    } else {
        lemma_attrs_before_nonneg(fs, a);
    }
}

proof fn lemma_attrs_before_nonneg(fs: Seq<TypeFeatures>, a: int)
    ensures
        0 <= attrs_before(fs, a) <= if a < 0 { 0 } else { a },
    decreases a,
{
    if a > 0 {
        lemma_attrs_before_nonneg(fs, a - 1);
    }
}

/// The attributes among the first `i` features are laid out.
#[verifier::opaque]
pub open spec fn attrs_laid_out(fs: Seq<TypeFeatures>, tf: Seq<TypedTypeFeature>, i: int) -> bool {
    &&& tf.len() == attrs_before(fs, i)
    &&& forall|f: int|
        0 <= f < i && (#[trigger] fs[f]).node is Attribute ==> tf[attrs_before(fs, f)].span == fs[f].span && tf[attrs_before(fs, f)].node is Attribute
}

/// All attributes, then the methods among the first `j` features, are laid out.
#[verifier::opaque]
pub open spec fn methods_laid_out(fs: Seq<TypeFeatures>, tf: Seq<TypedTypeFeature>, j: int) -> bool {
    let na = attrs_before(fs, fs.len() as int);
    &&& tf.len() == na + j - attrs_before(fs, j)
    &&& forall|f: int|
        0 <= f < fs.len() && (#[trigger] fs[f]).node is Attribute ==> tf[attrs_before(fs, f)].span == fs[f].span && tf[attrs_before(fs, f)].node is Attribute
    &&& forall|f: int|
        0 <= f < j && (#[trigger] fs[f]).node is Method ==> tf[na + f - attrs_before(fs, f)].span == fs[f].span && tf[na + f - attrs_before(
            fs,
            f,
        )].node is Method
}

proof fn lemma_attr_layout_step(fs: Seq<TypeFeatures>, tf0: Seq<TypedTypeFeature>, tf1: Seq<TypedTypeFeature>, i: int)
    requires
        0 <= i < fs.len(),
        attrs_laid_out(fs, tf0, i),
        fs[i].node is Attribute ==> tf1.len() == tf0.len() + 1 && tf1.drop_last() == tf0 && tf1.last().span == fs[i].span && tf1.last().node is Attribute,
        !(fs[i].node is Attribute) ==> tf1 == tf0,
    ensures
        attrs_laid_out(fs, tf1, i + 1),
{
    reveal(attrs_laid_out);
    assert(attrs_before(fs, i + 1) == attrs_before(fs, i) + (if fs[i].node is Attribute { 1int } else { 0int }));
    assert forall|f: int|
        0 <= f < i + 1 && (#[trigger] fs[f]).node is Attribute implies tf1[attrs_before(fs, f)].span == fs[f].span && tf1[attrs_before(fs, f)].node is Attribute by {
        if f < i {
            lemma_attrs_before_mono(fs, f + 1, i);
            lemma_attrs_before_mono(fs, 0, f);
            assert(attrs_before(fs, f + 1) == attrs_before(fs, f) + 1);
            if fs[i].node is Attribute {
                assert(tf1[attrs_before(fs, f)] == tf1.drop_last()[attrs_before(fs, f)]);
            }
        }
    }
}

#[verifier::spinoff_prover]
#[verifier::rlimit(60)]
proof fn lemma_method_layout_step(fs: Seq<TypeFeatures>, tf0: Seq<TypedTypeFeature>, tf1: Seq<TypedTypeFeature>, j: int)
    requires
        0 <= j < fs.len(),
        methods_laid_out(fs, tf0, j),
        fs[j].node is Method ==> tf1.len() == tf0.len() + 1 && tf1.drop_last() == tf0 && tf1.last().span == fs[j].span && tf1.last().node is Method,
        !(fs[j].node is Method) ==> tf1 == tf0,
    ensures
        methods_laid_out(fs, tf1, j + 1),
{
    reveal(methods_laid_out);
    let n = fs.len() as int;
    let na = attrs_before(fs, n);
    lemma_attrs_before_mono(fs, 0, j);
    lemma_attrs_before_mono(fs, j, n);
    assert(attrs_before(fs, j + 1) == attrs_before(fs, j) + (if fs[j].node is Attribute { 1int } else { 0int }));
    if !(fs[j].node is Method) {
        assert(fs[j].node is Attribute);
        assert forall|f: int|
            0 <= f < j + 1 && (#[trigger] fs[f]).node is Method implies tf1[na + f - attrs_before(fs, f)].span == fs[f].span
                && tf1[na + f - attrs_before(fs, f)].node is Method by {
            assert(f < j);
        }
    } else {
        assert forall|f: int|
            0 <= f < fs.len() && (#[trigger] fs[f]).node is Attribute implies tf1[attrs_before(fs, f)].span == fs[f].span
                && tf1[attrs_before(fs, f)].node is Attribute by {
            lemma_attrs_before_mono(fs, f + 1, n);
            lemma_attrs_before_mono(fs, 0, f);
            assert(attrs_before(fs, f + 1) == attrs_before(fs, f) + 1);
            assert(tf1[attrs_before(fs, f)] == tf1.drop_last()[attrs_before(fs, f)]);
        }
        assert forall|f: int|
            0 <= f < j + 1 && (#[trigger] fs[f]).node is Method implies tf1[na + f - attrs_before(fs, f)].span == fs[f].span
                && tf1[na + f - attrs_before(fs, f)].node is Method by {
            if f < j {
                lemma_attrs_before_mono(fs, f + 1, j);
                lemma_attrs_before_mono(fs, 0, f);
                assert(attrs_before(fs, f + 1) == attrs_before(fs, f));
                assert(tf1[na + f - attrs_before(fs, f)] == tf1.drop_last()[na + f - attrs_before(fs, f)]);
            }
        }
    }
}

proof fn lemma_layout_start(fs: Seq<TypeFeatures>, tf: Seq<TypedTypeFeature>)
    requires
        attrs_laid_out(fs, tf, fs.len() as int),
    ensures
        methods_laid_out(fs, tf, 0),
{
    reveal(attrs_laid_out);
    reveal(methods_laid_out);
}

proof fn lemma_layout_done(fs: Seq<TypeFeatures>, tf: Seq<TypedTypeFeature>)
    requires
        methods_laid_out(fs, tf, fs.len() as int),
    ensures
        features_laid_out(fs, tf),
{
    reveal(methods_laid_out);
    lemma_attrs_before_mono(fs, 0, fs.len() as int);
}

proof fn lemma_layout_empty(fs: Seq<TypeFeatures>, tf: Seq<TypedTypeFeature>)
    requires
        tf.len() == 0,
    ensures
        attrs_laid_out(fs, tf, 0),
{
    reveal(attrs_laid_out);
}

/// Every type of `before` keeps its name in `after`, which may have more.
pub open spec fn names_kept(before: Seq<TypeInfo>, after: Seq<TypeInfo>) -> bool {
    &&& before.len() <= after.len()
    &&& forall|i: int| 0 <= i < before.len() ==> (#[trigger] after[i]).name == before[i].name
}

/// Some error of `errs` from index `from` on is one that `p` describes.
pub open spec fn reported(errs: Seq<SemanticError>, from: nat, p: spec_fn(SemanticError) -> bool) -> bool {
    exists|e: int| from <= e < errs.len() && #[trigger] p(errs[e])
}

/// A reported error stays reported as errors are added.
pub proof fn lemma_reported_kept(a: Seq<SemanticError>, b: Seq<SemanticError>, from: nat, p: spec_fn(SemanticError) -> bool)
    requires
        reported(a, from, p),
        keeps_errors(a, b),
    ensures
        reported(b, from, p),
{
    let e = choose|e: int| from <= e < a.len() && #[trigger] p(a[e]);
    assert(b[e] == a[e]);
}

/// `UnknownTypeInAttribute` for attribute `name` annotated `t`, at `span`.
pub open spec fn unknown_attribute_type(t: Seq<char>, name: Seq<char>, span: Span) -> spec_fn(SemanticError) -> bool {
    |e: SemanticError| e.span == span && (e.kind matches SemanticErrorKind::UnknownTypeInAttribute { ty_name, attribute } && ty_name@ == t
        && attribute@ == name)
}

/// `AttributeTypeMismatch` for attribute `name` declared of the type named
/// `expected` whose default has the type named `found`, at `span`.
pub open spec fn attribute_mismatch(name: Seq<char>, expected: Seq<char>, found: Seq<char>, span: Span) -> spec_fn(SemanticError) -> bool {
    |e: SemanticError|
        e.span == span && (e.kind matches SemanticErrorKind::AttributeTypeMismatch { attribute, expected: x, found: f }
            && attribute@ == name && x@ == expected && f@ == found)
}

/// An attribute `name` declared of type `declared` whose default has the
/// typed form `default` was checked in the table `tt`: where the default's
/// type is not a subtype of the declared one, `AttributeTypeMismatch` is
/// among `errs` from `from` on.
pub open spec fn attribute_checked(
    errs: Seq<SemanticError>,
    from: nat,
    tt: crate::types::TypeTable,
    default: Option<TypedExpr>,
    declared: Option<TypeId>,
    name: Seq<char>,
    span: Span,
) -> bool {
    match (default, declared) {
        (Some(td), Some(id)) => !subtype(tt.infos@, td.ty, id, tt.infos@.len()) ==> reported(
            errs,
            from,
            attribute_mismatch(name, tt.infos@[id.0 as int].name@, tt.infos@[td.ty.0 as int].name@, span),
        ),
        _ => true,
    }
}

/// An attribute check stays recorded as errors are added.
pub proof fn lemma_attribute_checked_kept(
    a: Seq<SemanticError>,
    b: Seq<SemanticError>,
    from: nat,
    tt: crate::types::TypeTable,
    default: Option<TypedExpr>,
    declared: Option<TypeId>,
    name: Seq<char>,
    span: Span,
)
    requires
        attribute_checked(a, from, tt, default, declared, name, span),
        keeps_errors(a, b),
    ensures
        attribute_checked(b, from, tt, default, declared, name, span),
{
    match (default, declared) {
        (Some(td), Some(id)) => {
            if !subtype(tt.infos@, td.ty, id, tt.infos@.len()) {
                lemma_reported_kept(
                    a,
                    b,
                    from,
                    attribute_mismatch(name, tt.infos@[id.0 as int].name@, tt.infos@[td.ty.0 as int].name@, span),
                );
            }
        },
        _ => {},
    }
}

/// `DuplicateAttribute` for attribute `name` of the type labelled `label`, at `span`.
pub open spec fn duplicate_attribute(label: Seq<char>, name: Seq<char>, span: Span) -> spec_fn(SemanticError) -> bool {
    |e: SemanticError| e.span == span && (e.kind matches SemanticErrorKind::DuplicateAttribute { ty_name, attribute } && ty_name@ == label
        && attribute@ == name)
}

/// The attribute errors of feature `f` of type `k` found between `before`
/// and `after`: an annotation that names no type gives
/// `UnknownTypeInAttribute` (at the declaration), a name the type already
/// had gives `DuplicateAttribute` (at the attribute).
pub open spec fn attribute_reported(
    before: SemanticAnalyzer,
    after: SemanticAnalyzer,
    f: TypeFeatures,
    k: int,
    label: Seq<char>,
    decl_span: Span,
    had: bool,
) -> bool {
    let name = f.node->Attribute_name@;
    let from = before.diagnostics@.len();
    &&& match f.node->Attribute_annotation {
        Some(t) => after.ctx.types.spec_resolve(t@) is None ==> reported(after.diagnostics@, from, unknown_attribute_type(t@, name, decl_span)),
        None => true,
    }
    &&& had ==> reported(after.diagnostics@, from, duplicate_attribute(label, name, f.span))
}

/// `UnknownReturnTypeInMethod` for `method` declared to return `a`, at `span`.
pub open spec fn unknown_return_type(method: Seq<char>, a: Seq<char>, span: Span) -> spec_fn(SemanticError) -> bool {
    |e: SemanticError| e.span == span && (e.kind matches SemanticErrorKind::UnknownReturnTypeInMethod { method: m, ty_name } && m@ == method
        && ty_name@ == a)
}

/// The errors of method `f` found between `before` and `after`: a parameter
/// or a return annotation that names no type of `after` gives
/// `UnknownTypeInMethodParameter` or `UnknownReturnTypeInMethod`, at the method.
pub open spec fn method_reported(before: SemanticAnalyzer, after: SemanticAnalyzer, f: TypeFeatures) -> bool {
    let name = f.node->Method_name@;
    let from = before.diagnostics@.len();
    let params = f.node->Method_params@;
    &&& forall|i: int|
        0 <= i < params.len() ==> match (#[trigger] params[i]).1 {
            Some(t) => after.ctx.types.spec_resolve(t@) is None ==> reported(
                after.diagnostics@,
                from,
                crate::members::unknown_param_type(name, params[i].0@, t@, f.span),
            ),
            None => true,
        }
    &&& match f.node->Method_return_type {
        Some(t) => after.ctx.types.spec_resolve(t@) is None ==> reported(after.diagnostics@, from, unknown_return_type(name, t@, f.span)),
        None => true,
    }
}

proof fn lemma_method_reported_step(before: SemanticAnalyzer, a: SemanticAnalyzer, b: SemanticAnalyzer, f: TypeFeatures)
    requires
        method_reported(before, a, f),
        names_kept(a.ctx.types.infos@, b.ctx.types.infos@),
        keeps_errors(a.diagnostics@, b.diagnostics@),
    ensures
        method_reported(before, b, f),
{
    let name = f.node->Method_name@;
    let from = before.diagnostics@.len();
    let params = f.node->Method_params@;
    assert forall|i: int| 0 <= i < params.len() implies match (#[trigger] params[i]).1 {
        Some(t) => b.ctx.types.spec_resolve(t@) is None ==> reported(
            b.diagnostics@,
            from,
            crate::members::unknown_param_type(name, params[i].0@, t@, f.span),
        ),
        None => true,
    } by {
        match params[i].1 {
            Some(t) => {
                if b.ctx.types.spec_resolve(t@) is None {
                    lemma_unresolved_before(a.ctx.types, b.ctx.types, t@);
                    lemma_reported_kept(a.diagnostics@, b.diagnostics@, from, crate::members::unknown_param_type(name, params[i].0@, t@, f.span));
                }
            },
            None => {},
        }
    }
    match f.node->Method_return_type {
        Some(t) => {
            if b.ctx.types.spec_resolve(t@) is None {
                lemma_unresolved_before(a.ctx.types, b.ctx.types, t@);
                lemma_reported_kept(a.diagnostics@, b.diagnostics@, from, unknown_return_type(name, t@, f.span));
            }
        },
        None => {},
    }
}

proof fn lemma_method_reported_from(a: SemanticAnalyzer, b: SemanticAnalyzer, after: SemanticAnalyzer, f: TypeFeatures)
    requires
        method_reported(b, after, f),
        a.diagnostics@.len() <= b.diagnostics@.len(),
    ensures
        method_reported(a, after, f),
{
    let name = f.node->Method_name@;
    let params = f.node->Method_params@;
    assert forall|i: int| 0 <= i < params.len() implies match (#[trigger] params[i]).1 {
        Some(t) => after.ctx.types.spec_resolve(t@) is None ==> reported(
            after.diagnostics@,
            a.diagnostics@.len(),
            crate::members::unknown_param_type(name, params[i].0@, t@, f.span),
        ),
        None => true,
    } by {
        match params[i].1 {
            Some(t) => {
                if after.ctx.types.spec_resolve(t@) is None {
                    lemma_reported_from(after.diagnostics@, a.diagnostics@.len(), b.diagnostics@.len(), crate::members::unknown_param_type(name, params[i].0@, t@, f.span));
                }
            },
            None => {},
        }
    }
    match f.node->Method_return_type {
        Some(t) => {
            if after.ctx.types.spec_resolve(t@) is None {
                lemma_reported_from(after.diagnostics@, a.diagnostics@.len(), b.diagnostics@.len(), unknown_return_type(name, t@, f.span));
            }
        },
        None => {},
    }
}

/// A report found from index `b` on is found from any `a <= b` on.
pub proof fn lemma_reported_from(errs: Seq<SemanticError>, a: nat, b: nat, p: spec_fn(SemanticError) -> bool)
    requires
        reported(errs, b, p),
        a <= b,
    ensures
        reported(errs, a, p),
{
    let e = choose|e: int| b <= e < errs.len() && #[trigger] p(errs[e]);
}

/// A name no type of `b` has, no type of `a` had, when `b` kept `a`'s names.
pub proof fn lemma_unresolved_before(a: crate::types::TypeTable, b: crate::types::TypeTable, n: Seq<char>)
    requires
        names_kept(a.infos@, b.infos@),
        b.spec_resolve(n) is None,
    ensures
        a.spec_resolve(n) is None,
{
    if a.spec_resolve(n) is Some {
        let i = choose|i: int| 0 <= i < a.infos@.len() && (#[trigger] a.infos@[i]).name@ == n;
        assert(b.infos@[i].name == a.infos@[i].name);
    }
}

/// The errors of the attribute at position `f` of type declaration `d`,
/// found between `before` and `after` (see `attribute_reported`): the type
/// already had an attribute of that name when it had one before `d` was
/// analysed, or an earlier attribute of `d` has that name.
pub open spec fn type_attribute_reported(before: SemanticAnalyzer, after: SemanticAnalyzer, d: Decl, f: int) -> bool {
    let feats = d.node->Type_features@;
    let k = (before.ctx.types.spec_resolve(d.node->Type_name@)->0).0 as int;
    let name = feats[f].node->Attribute_name@;
    let from = before.diagnostics@.len();
    &&& match feats[f].node->Attribute_annotation {
        Some(t) => after.ctx.types.spec_resolve(t@) is None ==> reported(after.diagnostics@, from, unknown_attribute_type(t@, name, d.span)),
        None => true,
    }
    &&& (has_named(before.ctx.types.infos@[k].attributes@, name) || exists|g: int|
        0 <= g < f && (#[trigger] feats[g]).node is Attribute && feats[g].node->Attribute_name@ == name) ==> reported(
        after.diagnostics@,
        from,
        duplicate_attribute(d.node->Type_name@, name, feats[f].span),
    )
}

proof fn lemma_type_attribute_reported_step(before: SemanticAnalyzer, a: SemanticAnalyzer, b: SemanticAnalyzer, d: Decl, f: int)
    requires
        type_attribute_reported(before, a, d, f),
        names_kept(a.ctx.types.infos@, b.ctx.types.infos@),
        keeps_errors(a.diagnostics@, b.diagnostics@),
    ensures
        type_attribute_reported(before, b, d, f),
{
    let feats = d.node->Type_features@;
    let k = (before.ctx.types.spec_resolve(d.node->Type_name@)->0).0 as int;
    let name = feats[f].node->Attribute_name@;
    let from = before.diagnostics@.len();
    match feats[f].node->Attribute_annotation {
        Some(t) => {
            if b.ctx.types.spec_resolve(t@) is None {
                lemma_unresolved_before(a.ctx.types, b.ctx.types, t@);
                lemma_reported_kept(a.diagnostics@, b.diagnostics@, from, unknown_attribute_type(t@, name, d.span));
            }
        },
        None => {},
    }
    if has_named(before.ctx.types.infos@[k].attributes@, name) || exists|g: int|
        0 <= g < f && (#[trigger] feats[g]).node is Attribute && feats[g].node->Attribute_name@ == name {
        lemma_reported_kept(a.diagnostics@, b.diagnostics@, from, duplicate_attribute(d.node->Type_name@, name, feats[f].span));
    }
}

/// What `parent_clause_reported` finds stays found as errors are added.
proof fn lemma_parent_clause_kept(before: SemanticAnalyzer, mid: SemanticAnalyzer, after: SemanticAnalyzer, d: Decl)
    requires
        parent_clause_reported(before, mid, d),
        keeps_errors(mid.diagnostics@, after.diagnostics@),
    ensures
        parent_clause_reported(before, after, d),
{
    let old_len = before.diagnostics@.len();
    let m = mid.diagnostics@;
    let a = after.diagnostics@;
    match d.node->Type_parent {
        Some(ii) => match before.ctx.types.spec_resolve(ii.node.parent_name@) {
            None => {
                let j = choose|j: int|
                    old_len <= j < m.len() && (#[trigger] m[j]).span == d.span && (m[j].kind matches SemanticErrorKind::UnknownParentType {
                        child,
                        parent,
                    } && child@ == d.node->Type_name@ && parent@ == ii.node.parent_name@);
                assert(a[j] == m[j]);
            },
            Some(pid) => match ii.node.args {
                Some(args) => {
                    if args@.len() != before.ctx.types.infos@[pid.0 as int].constructor_params@.len() {
                        let j = choose|j: int|
                            old_len <= j < m.len() && (#[trigger] m[j]).span == d.span && (m[j].kind matches SemanticErrorKind::InvalidInheritanceArity {
                                parent,
                                expected,
                                found,
                            } && parent@ == ii.node.parent_name@ && expected == before.ctx.types.infos@[pid.0 as int].constructor_params@.len()
                                && found == args@.len());
                        assert(a[j] == m[j]);
                    }
                },
                None => {},
            },
        },
        None => {},
    }
}

/// Type `k` of `t` has a member for each feature of `features`.
pub open spec fn has_members(t: Seq<TypeInfo>, k: int, features: Seq<TypeFeatures>) -> bool {
    forall|f: int|
        0 <= f < features.len() ==> match (#[trigger] features[f]).node {
            TypeFeaturesKind::Attribute { name, .. } => has_named(t[k].attributes@, name@),
            TypeFeaturesKind::Method { name, .. } => has_named(t[k].methods@, name@),
        }
}

pub proof fn lemma_push_keeps_names(ss: Seq<Symbol>, x: Symbol)
    ensures
        has_named(ss.push(x), x.name@),
        forall|n: Seq<char>| has_named(ss, n) ==> #[trigger] has_named(ss.push(x), n),
{
    let s2 = ss.push(x);
    assert(s2[ss.len() as int] == x);
    assert forall|n: Seq<char>| has_named(ss, n) implies #[trigger] has_named(s2, n) by {
        let i = choose|i: int| 0 <= i < ss.len() && (#[trigger] ss[i]).name@ == n;
        assert(s2[i] == ss[i]);
    }
}

proof fn lemma_replace_keeps_names(ss: Seq<Symbol>, i: int, x: Symbol)
    requires
        0 <= i < ss.len(),
        ss[i].name@ == x.name@,
    ensures
        has_named(ss.update(i, x), x.name@),
        forall|n: Seq<char>| has_named(ss, n) ==> #[trigger] has_named(ss.update(i, x), n),
{
    let s2 = ss.update(i, x);
    assert(s2[i] == x);
    assert forall|n: Seq<char>| has_named(ss, n) implies #[trigger] has_named(s2, n) by {
        let j = choose|j: int| 0 <= j < ss.len() && (#[trigger] ss[j]).name@ == n;
        if j != i {
            assert(s2[j] == ss[j]);
        } else {
            assert(s2[i].name@ == n);
        }
    }
}

impl SemanticAnalyzer {
    /// The type of a function or constructor parameter: its annotation
    /// resolved (`Object` when it has none). An unknown type gives
    /// `UnknownTypeInParameter` (for a function) or
    /// `UnknownTypeInFunctionParameter` (for a type's constructor), a
    /// protocol `ProtocolNotAllowedAsParameterType`; both give `Object`.
    pub fn param_type(&mut self, owner: &String, param: &Param, constructor: bool, span: Span) -> (t: TypeId)
        requires
            old(self).wf(),
        ensures
            final(self).ctx == old(self).ctx,
            keeps_errors(old(self).diagnostics@, final(self).diagnostics@),
            final(self).diagnostics@.len() <= old(self).diagnostics@.len() + 1,
            t.0 < old(self).ty_count(),
            match param.1 {
                None => t == old(self).object_id() && final(self).diagnostics@ == old(self).diagnostics@,
                Some(a) => match old(self).ctx.types.spec_resolve(a@) {
                    Some(id) => if old(self).ctx.types.infos@[id.0 as int].kind is Protocol {
                        t == old(self).object_id() && final(self).diagnostics@.last().kind is ProtocolNotAllowedAsParameterType
                    } else {
                        t == id && final(self).diagnostics@ == old(self).diagnostics@
                    },
                    None => {
                        &&& t == old(self).object_id()
                        &&& final(self).diagnostics@.len() == old(self).diagnostics@.len() + 1
                        &&& unknown_param_type(owner@, param.0@, a@, span, constructor)(final(self).diagnostics@.last())
                    },
                },
            },
            t == param_id(*old(self), *param),
    {
        match &param.1 {
            Some(annot) => match self.ctx.types.resolve(annot.as_str()) {
                Some(id) => {
                    if self.ctx.types.get(id).is_protocol() {
                        self.report(
                            SemanticErrorKind::ProtocolNotAllowedAsParameterType { ty_name: annot.clone(), param_name: param.0.clone() },
                            span,
                        );
                        proof { lemma_one_more_keeps(old(self).diagnostics@, self.diagnostics@); }
                        self.resolve_builtin("Object")
                    } else {
                        id
                    }
                },
                None => {
                    if constructor {
                        self.report(
                            SemanticErrorKind::UnknownTypeInFunctionParameter {
                                function: owner.clone(),
                                param: param.0.clone(),
                                ty_name: annot.clone(),
                            },
                            span,
                        );
                    } else {
                        self.report(
                            SemanticErrorKind::UnknownTypeInParameter { ty_name: annot.clone(), param_name: param.0.clone() },
                            span,
                        );
                    }
                    proof { lemma_one_more_keeps(old(self).diagnostics@, self.diagnostics@); }
                    self.resolve_builtin("Object")
                },
            },
            None => self.resolve_builtin("Object"),
        }
    }

    /// Declares the parameters of a function or of a type's constructor in
    /// the innermost scope; one whose name is taken there gives
    /// `DuplicateParameter` or `DuplicateConstructorParameter`.
    fn declare_params(&mut self, owner: &String, params: &Vec<Param>, constructor: bool, span: Span) -> (r: Vec<TypedParam>)
        requires
            old(self).wf(),
        ensures
            final(self).wf(),
            final(self).ctx.types == old(self).ctx.types,
            final(self).ctx.scopes@.len() == old(self).ctx.scopes@.len(),
            final(self).ctx.scopes@.drop_last() == old(self).ctx.scopes@.drop_last(),
            final(self).ctx.instantiation_budget == old(self).ctx.instantiation_budget,
            final(self).ctx.generic_decls == old(self).ctx.generic_decls,
            keeps_errors(old(self).diagnostics@, final(self).diagnostics@),
            r@.len() == params@.len(),
            forall|i: int| 0 <= i < r@.len() ==> (#[trigger] r@[i]).node.type_id.0 < final(self).ty_count(),
            params_declared(*old(self), owner@, params@, r@, final(self).diagnostics@, old(self).diagnostics@.len(), span, constructor),
    {
        let mut typed: Vec<TypedParam> = Vec::new();
        let mut i: usize = 0;
        while i < params.len()
            invariant
                self.wf(),
                self.ctx.types == old(self).ctx.types,
                self.ctx.scopes@.len() == old(self).ctx.scopes@.len(),
                self.ctx.scopes@.drop_last() == old(self).ctx.scopes@.drop_last(),
                self.ctx.instantiation_budget == old(self).ctx.instantiation_budget,
                self.ctx.generic_decls == old(self).ctx.generic_decls,
                keeps_errors(old(self).diagnostics@, self.diagnostics@),
                i <= params@.len(),
                typed@.len() == i,
                forall|k: int| 0 <= k < i ==> (#[trigger] typed@[k]).node.type_id.0 < self.ty_count(),
                forall|k: int| 0 <= k < i ==> has_named(self.ctx.scopes@.last().symbols@, (#[trigger] params@[k]).0@),
                params_declared(
                    *old(self),
                    owner@,
                    params@.take(i as int),
                    typed@,
                    self.diagnostics@,
                    old(self).diagnostics@.len(),
                    span,
                    constructor,
                ),
            decreases params.len() - i,
        {
            let ghost d0 = self.diagnostics@;
            let t = self.param_type(owner, &params[i], constructor, span);
            let ghost d1 = self.diagnostics@;
            let ghost s0 = self.ctx.scopes@;
            let ok = self.ctx.declare(
                Symbol { name: params[i].0.clone(), kind: SymbolKind::Parameter, ty: SymbolType::Variable(t), span },
            );
            proof { assert(self.ctx.scopes@.drop_last() =~= s0.drop_last()); }
            if !ok {
                let ghost mid = self.diagnostics@;
                if constructor {
                    self.report(
                        SemanticErrorKind::DuplicateConstructorParameter { ty_name: owner.clone(), param: params[i].0.clone() },
                        span,
                    );
                } else {
                    self.report(SemanticErrorKind::DuplicateParameter { function: owner.clone(), param: params[i].0.clone() }, span);
                }
                proof {
                    lemma_one_more_keeps(mid, self.diagnostics@);
                    let e = self.diagnostics@.len() - 1;
                    assert(duplicate_param(owner@, params@[i as int].0@, span, constructor)(self.diagnostics@[e]));
                }
            }
            let ghost typed0 = typed@;
            typed.push(DeclSpanned::new(TypedParamKind { name: params[i].0.clone(), type_id: t }, span));
            proof {
                let ps = params@.take(i + 1);
                let ls0 = s0.last().symbols@;
                let ls1 = self.ctx.scopes@.last().symbols@;
                assert(ps[i as int] == params@[i as int]);
                assert forall|k: int| 0 <= k < i + 1 implies has_named(ls1, (#[trigger] params@[k]).0@) by {
                    if ok {
                        if k < i {
                            let w = choose|w: int| 0 <= w < ls0.len() && (#[trigger] ls0[w]).name@ == params@[k].0@;
                            assert(ls1[w] == ls0[w]);
                        } else {
                            assert(ls1[ls1.len() - 1].name@ == params@[k].0@);
                        }
                    }
                }
                assert forall|q: int| 0 <= q < i + 1 implies (#[trigger] typed@[q]).node.name@ == ps[q].0@ && typed@[q].node.type_id
                    == param_id(*old(self), ps[q]) by {
                    if q < i {
                        assert(typed@[q] == typed0[q]);
                        assert(ps[q] == params@.take(i as int)[q]);
                    }
                }
                assert forall|q: int| 0 <= q < ps.len() implies match (#[trigger] ps[q]).1 {
                    Some(x) => old(self).ctx.types.spec_resolve(x@) is None ==> reported(
                        self.diagnostics@,
                        old(self).diagnostics@.len(),
                        unknown_param_type(owner@, ps[q].0@, x@, span, constructor),
                    ),
                    None => true,
                } by {
                    match ps[q].1 {
                        Some(x) => {
                            if old(self).ctx.types.spec_resolve(x@) is None {
                                if q < i {
                                    assert(ps[q] == params@.take(i as int)[q]);
                                    lemma_reported_kept(d0, self.diagnostics@, old(self).diagnostics@.len(), unknown_param_type(owner@, ps[q].0@, x@, span, constructor));
                                } else {
                                    let e = d1.len() - 1;
                                    assert(self.diagnostics@[e] == d1[e]);
                                    assert(unknown_param_type(owner@, ps[q].0@, x@, span, constructor)(self.diagnostics@[e]));
                                }
                            }
                        },
                        None => {},
                    }
                }
                assert forall|j: int, q: int|
                    0 <= q < j < ps.len() && (#[trigger] ps[q]).0@ == (#[trigger] ps[j]).0@ implies reported(
                    self.diagnostics@,
                    old(self).diagnostics@.len(),
                    duplicate_param(owner@, ps[j].0@, span, constructor),
                ) by {
                    if j < i {
                        assert(ps[q] == params@.take(i as int)[q]);
                        assert(ps[j] == params@.take(i as int)[j]);
                        lemma_reported_kept(d0, self.diagnostics@, old(self).diagnostics@.len(), duplicate_param(owner@, ps[j].0@, span, constructor));
                    } else {
                        assert(has_named(ls0, params@[q].0@));
                        assert(!ok);
                        let e = self.diagnostics@.len() - 1;
                        assert(duplicate_param(owner@, ps[j].0@, span, constructor)(self.diagnostics@[e]));
                    }
                }
            }
            i = i + 1;
        }
        proof { assert(params@.take(i as int) =~= params@); }
        typed
    }

    /// Analyses a function with a known signature: its parameters are
    /// declared (see `param_type`) in a scope of their own, its body typed,
    /// and the body must be a subtype of the declared return type (else
    /// `FunctionReturnTypeMismatch` at the body); an unknown return type gives
    /// `UnknownReturnType`, and `Object` is expected.
    pub fn analyze_function(&mut self, function_decl: &Decl) -> (r: TypedDecl)
        requires
            old(self).wf(),
            function_decl.node is Function,
        ensures
            decl_analysis_frame(*old(self), *final(self), -1),
            r.node is Function,
            r.span == function_decl.span,
            r.node->Function_name@ == function_decl.node->Function_name@,
            r.node->Function_params@.len() == function_decl.node->Function_params@.len(),
            r.node->Function_body.span == function_decl.node->Function_body.span,
            r.node->Function_return_type.0 < final(self).ty_count(),
            !subtype(final(self).ctx.types.infos@, r.node->Function_body.ty, r.node->Function_return_type, final(self).ty_count())
                ==> {
                &&& final(self).diagnostics@.len() > old(self).diagnostics@.len()
                &&& final(self).diagnostics@.last().span == function_decl.node->Function_body.span
                &&& final(self).diagnostics@.last().kind matches SemanticErrorKind::FunctionReturnTypeMismatch { function, expected, found }
                &&& function@ == function_decl.node->Function_name@
                &&& expected@ == final(self).name_of(r.node->Function_return_type)
                &&& found@ == final(self).name_of(r.node->Function_body.ty)
            },
            r.node->Function_return_type == match function_decl.node->Function_return_type {
                Some(a) => match old(self).ctx.types.spec_resolve(a@) {
                    Some(id) => id,
                    None => old(self).object_id(),
                },
                None => old(self).object_id(),
            },
            final(self).ctx.current_function_return is None,
            mirrors(function_decl.node->Function_body, r.node->Function_body),
            params_declared(
                *old(self),
                function_decl.node->Function_name@,
                function_decl.node->Function_params@,
                r.node->Function_params@,
                final(self).diagnostics@,
                old(self).diagnostics@.len(),
                function_decl.span,
                false,
            ),
            match function_decl.node->Function_return_type {
                Some(a) => old(self).ctx.types.spec_resolve(a@) is None ==> reported(
                    final(self).diagnostics@,
                    old(self).diagnostics@.len(),
                    unknown_return_type_of(function_decl.node->Function_name@, a@, function_decl.span),
                ),
                None => true,
            },
    {
        let (name, params, return_type, body) = match &function_decl.node {
            DeclKind::Function { name, params, return_type, body } => (name, params, return_type, body),
            _ => {
                let t = self.resolve_builtin("Object");
                return DeclSpanned::new(
                    TypedDeclKind::Function {
                        name: String::new(),
                        params: Vec::new(),
                        return_type: t,
                        body: TypedExpr::new(crate::hir::TypedExprKind::Block(Vec::new()), t, function_decl.span),
                    },
                    function_decl.span,
                );
            },
        };
        self.ctx.push_scope();
        let typed_params = self.declare_params(name, params, false, function_decl.span);
        let ghost after_params = self.diagnostics@;
        let expected_return = match return_type {
            Some(annot) => match self.ctx.types.resolve(annot.as_str()) {
                Some(id) => id,
                None => {
                    let ghost mid = self.diagnostics@;
                    self.report(SemanticErrorKind::UnknownReturnType { function: name.clone(), ty_name: annot.clone() }, function_decl.span);
                    proof {
                        lemma_one_more_keeps(mid, self.diagnostics@);
                        let e = self.diagnostics@.len() - 1;
                        assert(unknown_return_type_of(name@, annot@, function_decl.span)(self.diagnostics@[e]));
                    }
                    self.resolve_builtin("Object")
                },
            },
            None => self.resolve_builtin("Object"),
        };
        self.ctx.current_function_return = Some(expected_return);
        let ghost after_return = self.diagnostics@;
        let body_type = self.analyze_expr(body);
        if !self.ctx.types.is_subtype_of(body_type.ty, expected_return) {
            let ghost mid = self.diagnostics@;
            let expected = self.type_label(expected_return);
            let found = self.type_label(body_type.ty);
            self.report(SemanticErrorKind::FunctionReturnTypeMismatch { function: name.clone(), expected, found }, body.span);
            proof { lemma_one_more_keeps(mid, self.diagnostics@); }
        }
        self.ctx.current_function_return = None;
        self.ctx.pop_scope();
        proof {
            assert(self.ctx.scopes@ =~= old(self).ctx.scopes@);
        }
        proof {
            lemma_params_declared_kept(*old(self), name@, params@, typed_params@, after_params, self.diagnostics@, old(self).diagnostics@.len(), function_decl.span, false);
            match return_type {
                Some(a) => {
                    if old(self).ctx.types.spec_resolve(a@) is None {
                        lemma_reported_kept(after_return, self.diagnostics@, old(self).diagnostics@.len(), unknown_return_type_of(name@, a@, function_decl.span));
                    }
                },
                None => {},
            }
        }
        DeclSpanned::new(
            TypedDeclKind::Function { name: name.clone(), params: typed_params, return_type: expected_return, body: body_type },
            function_decl.span,
        )
    }
}


impl SemanticAnalyzer {
    /// The parent clause of a (non generic) type: an unknown parent gives
    /// `UnknownParentType` and `Object`; when arguments are passed, their
    /// number (`InvalidInheritanceArity`) and types
    /// (`InheritanceArgumentTypeMismatch`, at the argument) are checked
    /// against the parent's constructor.
    pub fn analyze_type_inherit(&mut self, child: &String, inherit_info: &InheritInfo, decl_span: Span) -> (r: TypedInheritInfo)
        requires
            old(self).wf(),
        ensures
            decl_analysis_frame(*old(self), *final(self), -1),
            r.node.parent_type.0 < final(self).ty_count(),
            r.node.parent_type == match old(self).ctx.types.spec_resolve(inherit_info.node.parent_name@) {
                Some(id) => id,
                None => old(self).object_id(),
            },
            old(self).ctx.types.spec_resolve(inherit_info.node.parent_name@) is None ==> {
                &&& one_more(old(self).diagnostics@, final(self).diagnostics@, decl_span)
                &&& final(self).diagnostics@.last().kind matches SemanticErrorKind::UnknownParentType { child: c, parent: p }
                &&& c@ == child@ && p@ == inherit_info.node.parent_name@
                &&& r.node.args is None
            },
            (old(self).ctx.types.spec_resolve(inherit_info.node.parent_name@) is Some && inherit_info.node.args is None) ==> {
                &&& final(self).diagnostics@ == old(self).diagnostics@
                &&& r.node.args is None
            },
            old(self).ctx.types.spec_resolve(inherit_info.node.parent_name@) matches Some(pid) ==> match inherit_info.node.args {
                Some(a) => {
                    &&& (a@.len() == 0 ==> r.node.args is None)
                    &&& (a@.len() > 0 ==> (r.node.args matches Some(ta) && ta@.len() == a@.len()))
                    &&& a@.len() > 0 ==> exists|starts: Seq<int>, checks: Seq<int>, tables: Seq<Seq<TypeInfo>>|
                        {
                            &&& #[trigger] args_checked(
                                final(self).diagnostics@,
                                starts,
                                checks,
                                tables,
                                arg_types(r.node.args->0@),
                                ctor_param_types(old(self).ctx.types.infos@[pid.0 as int].constructor_params@, old(self).object_id()),
                                inherit_mismatch(
                                    inherit_info.node.parent_name@,
                                    old(self).ctx.types.infos@[pid.0 as int].constructor_params@,
                                    a@,
                                ),
                            )
                            &&& starts[0] == old(self).diagnostics@.len() + if a@.len() != old(self).ctx.types.infos@[
                                pid.0 as int
                            ].constructor_params@.len() {
                                1int
                            } else {
                                0int
                            }
                            &&& starts[a@.len() as int] == final(self).diagnostics@.len()
                            &&& tables_between(old(self).ctx.types.infos@, tables, final(self).ctx.types.infos@)
                        }
                    &&& a@.len() != old(self).ctx.types.infos@[pid.0 as int].constructor_params@.len() ==> {
                        &&& final(self).diagnostics@.len() > old(self).diagnostics@.len()
                        &&& final(self).diagnostics@[old(self).diagnostics@.len() as int].span == decl_span
                        &&& final(self).diagnostics@[old(self).diagnostics@.len() as int].kind matches SemanticErrorKind::InvalidInheritanceArity {
                            parent,
                            expected,
                            found,
                        }
                        &&& parent@ == inherit_info.node.parent_name@
                        &&& expected == old(self).ctx.types.infos@[pid.0 as int].constructor_params@.len()
                        &&& found == a@.len()
                    }
                },
                None => true,
            },
    {
        let object_type = self.resolve_builtin("Object");
        let parent_type_id = match self.ctx.types.resolve(inherit_info.node.parent_name.as_str()) {
            Some(id) => id,
            None => {
                self.report(
                    SemanticErrorKind::UnknownParentType { child: child.clone(), parent: inherit_info.node.parent_name.clone() },
                    decl_span,
                );
                proof { lemma_one_more_keeps(old(self).diagnostics@, self.diagnostics@); }
                return DeclSpanned::new(TypedInheritInfoKind { parent_type: object_type, args: None }, inherit_info.span);
            },
        };
        let mut typed_args: Vec<TypedExpr> = Vec::new();
        match &inherit_info.node.args {
            Some(actual_args) => {
                proof { assert(crate::types::info_valid(self.ctx.types.infos@[parent_type_id.0 as int], self.ty_count())); }
                let expected_parent_params = copy_constructor_params(self.ctx.types.get_constructor_params(parent_type_id));
                if actual_args.len() != expected_parent_params.len() {
                    self.report(
                        SemanticErrorKind::InvalidInheritanceArity {
                            parent: inherit_info.node.parent_name.clone(),
                            expected: expected_parent_params.len(),
                            found: actual_args.len(),
                        },
                        decl_span,
                    );
                    proof { lemma_one_more_keeps(old(self).diagnostics@, self.diagnostics@); }
                }
                let ghost arity_error = self.diagnostics@[old(self).diagnostics@.len() as int];
                let ghost cps = old(self).ctx.types.infos@[parent_type_id.0 as int].constructor_params@;
                let ghost pts = ctor_param_types(cps, old(self).object_id());
                let ghost mm = inherit_mismatch(inherit_info.node.parent_name@, cps, actual_args@);
                let ghost mut starts: Seq<int> = seq![self.diagnostics@.len() as int];
                let ghost mut checks: Seq<int> = Seq::empty();
                let ghost mut tables: Seq<Seq<TypeInfo>> = Seq::empty();
                proof {
                    lemma_args_checked_start(self.diagnostics@, self.diagnostics@.len() as int, pts, mm);
                    assert(arg_types(Seq::<TypedExpr>::empty()) =~= Seq::<TypeId>::empty());
                }
                let mut i: usize = 0;
                while i < actual_args.len()
                    invariant
                        decl_analysis_frame(*old(self), *self, -1),
                        cps == old(self).ctx.types.infos@[parent_type_id.0 as int].constructor_params@,
                        expected_parent_params@.len() == cps.len(),
                        forall|q: int| 0 <= q < cps.len() ==> (#[trigger] expected_parent_params@[q]).name@ == cps[q].name@
                            && expected_parent_params@[q].ty == cps[q].ty,
                        pts == ctor_param_types(cps, old(self).object_id()),
                        object_type == old(self).object_id(),
                        mm == inherit_mismatch(inherit_info.node.parent_name@, cps, actual_args@),
                        args_checked(self.diagnostics@, starts, checks, tables, arg_types(typed_args@), pts, mm),
                        starts[i as int] == self.diagnostics@.len(),
                        starts[0] == old(self).diagnostics@.len() + if actual_args@.len() != cps.len() { 1int } else { 0int },
                        tables_between(old(self).ctx.types.infos@, tables, self.ctx.types.infos@),
                        i <= actual_args@.len(),
                        parent_type_id.0 < self.ty_count(),
                        object_type.0 < self.ty_count(),
                        params_valid(expected_parent_params@, self.ty_count()),
                        typed_args@.len() == i,
                        actual_args@.len() != expected_parent_params@.len() ==> {
                            &&& self.diagnostics@.len() > old(self).diagnostics@.len()
                            &&& self.diagnostics@[old(self).diagnostics@.len() as int] == arity_error
                        },
                    decreases actual_args.len() - i,
                {
                    let ghost ea = self.diagnostics@;
                    let ghost ta = self.ctx.types.infos@;
                    let ghost prev = typed_args@;
                    let arg_expr_type = self.analyze_expr(&actual_args[i]);
                    let ghost c = self.diagnostics@.len() as int;
                    let ghost t = self.ctx.types.infos@;
                    if i < expected_parent_params.len() {
                        let expected_type_id = match expected_parent_params[i].ty {
                            Some(t) => t,
                            None => object_type,
                        };
                        if !self.ctx.types.is_subtype_of(arg_expr_type.ty, expected_type_id) {
                            let ghost mid = self.diagnostics@;
                            let expected = self.type_label(expected_type_id);
                            let found = self.type_label(arg_expr_type.ty);
                            self.report(
                                SemanticErrorKind::InheritanceArgumentTypeMismatch {
                                    parent: inherit_info.node.parent_name.clone(),
                                    param: expected_parent_params[i].name.clone(),
                                    expected,
                                    found,
                                },
                                actual_args[i].span,
                            );
                            proof {
                                lemma_one_more_keeps(mid, self.diagnostics@);
                                assert(mm(i as int, self.diagnostics@[c]));
                            }
                        }
                    }
                    typed_args.push(arg_expr_type);
                    proof {
                        if (i as int) < pts.len() {
                            assert(pts[i as int] == match expected_parent_params@[i as int].ty {
                                Some(tt) => tt,
                                None => object_type,
                            });
                        }
                        assert(arg_checked(self.diagnostics@, c, self.diagnostics@.len() as int, t, arg_expr_type.ty, i as int, pts, mm));
                        lemma_args_checked_step(ea, self.diagnostics@, starts, checks, tables, arg_types(prev), pts, mm, c, t, arg_expr_type.ty);
                        assert(arg_types(typed_args@) =~= arg_types(prev).push(arg_expr_type.ty));
                        let ghost old_tables = tables;
                        starts = starts.push(self.diagnostics@.len() as int);
                        checks = checks.push(c);
                        tables = tables.push(t);
                        assert(keeps_types(old(self).ctx.types.infos@, ta)) by {
                            assert forall|q: int| 0 <= q < old(self).ctx.types.infos@.len() implies #[trigger] ta[q] == old(self).ctx.types.infos@[q] by {}
                        }
                        assert forall|k: int| 0 <= k < tables.len() implies keeps_types(old(self).ctx.types.infos@, #[trigger] tables[k])
                            && keeps_types(tables[k], self.ctx.types.infos@) by {
                            if k < old_tables.len() {
                                assert(tables[k] == old_tables[k]);
                                lemma_keeps_types_trans(old_tables[k], ta, self.ctx.types.infos@);
                            } else {
                                lemma_keeps_types_trans(old(self).ctx.types.infos@, ta, t);
                                assert(t =~= self.ctx.types.infos@);
                            }
                        }
                    }
                    i = i + 1;
                }
                proof {
                    assert(starts[actual_args@.len() as int] == self.diagnostics@.len());
                    assert(args_checked(self.diagnostics@, starts, checks, tables, arg_types(typed_args@), pts, mm));
                }
            },
            None => {},
        }
        let ghost typed_final = typed_args@;
        let wrap_typed_args = if typed_args.len() > 0 { Some(typed_args) } else { None };
        let r = DeclSpanned::new(TypedInheritInfoKind { parent_type: parent_type_id, args: wrap_typed_args }, inherit_info.span);
        proof {
            if typed_final.len() > 0 {
                assert(r.node.args->0@ == typed_final);
            }
        }
        r
    }

    /// One attribute of a (non generic) type: its default is typed first;
    /// its type is the annotation (`UnknownTypeInAttribute` and `Object`
    /// when unknown), else the default's type, else `Object`; the default
    /// must be a subtype of it (`AttributeTypeMismatch`); a protocol gives
    /// way to the default's type. The attribute is added to the type
    /// (`DuplicateAttribute` when it already has one of that name).
    pub fn analyze_type_attribute(&mut self, type_id: TypeId, feature: &TypeFeatures, type_label: &String, decl_span: Span) -> (r: TypedTypeFeature)
        requires
            old(self).wf(),
            type_id.0 < old(self).ty_count(),
            feature.node is Attribute,
        ensures
            decl_analysis_frame(*old(self), *final(self), type_id.0 as int),
            r.span == feature.span,
            r.node is Attribute,
            r.node->Attribute_type_id.0 < final(self).ty_count(),
            member_names_kept(old(self).ctx.types.infos@, final(self).ctx.types.infos@, type_id.0 as int),
            has_named(final(self).ctx.types.infos@[type_id.0 as int].attributes@, feature.node->Attribute_name@),
            names_kept(old(self).ctx.types.infos@, final(self).ctx.types.infos@),
            attribute_reported(
                *old(self),
                *final(self),
                *feature,
                type_id.0 as int,
                type_label@,
                decl_span,
                has_named(old(self).ctx.types.infos@[type_id.0 as int].attributes@, feature.node->Attribute_name@),
            ),
            exists|tt: crate::types::TypeTable|
                #[trigger] keeps_types(old(self).ctx.types.infos@, tt.infos@) && keeps_types_except(
                    tt.infos@,
                    final(self).ctx.types.infos@,
                    type_id.0 as int,
                ) && attribute_checked(
                    final(self).diagnostics@,
                    old(self).diagnostics@.len(),
                    tt,
                    r.node->Attribute_default,
                    crate::decl::opt_resolve(tt, feature.node->Attribute_annotation),
                    feature.node->Attribute_name@,
                    decl_span,
                ),
    {
        let (attr_name, annotation, default) = match &feature.node {
            TypeFeaturesKind::Attribute { name, annotation, default } => (name, annotation, default),
            TypeFeaturesKind::Method { name, .. } => (name, &None, &None),
        };
        let typed_default: Option<TypedExpr> = match default {
            Some(init_expr) => Some(self.analyze_expr(init_expr)),
            None => None,
        };
        let object_type = self.resolve_builtin("Object");
        let ghost m0 = self.diagnostics@;
        let ghost t_resolve = self.ctx.types;
        let expected_attr_type = match annotation {
            Some(t_name) => match self.ctx.types.resolve(t_name.as_str()) {
                Some(id) => id,
                None => {
                    self.report(
                        SemanticErrorKind::UnknownTypeInAttribute { ty_name: t_name.clone(), attribute: attr_name.clone() },
                        decl_span,
                    );
                    proof { lemma_one_more_keeps(m0, self.diagnostics@); }
                    object_type
                },
            },
            None => match &typed_default {
                Some(td) => td.ty,
                None => object_type,
            },
        };
        match &typed_default {
            Some(default_val) => {
                if !self.ctx.types.is_subtype_of(default_val.ty, expected_attr_type) {
                    let ghost mid = self.diagnostics@;
                    let expected = self.type_label(expected_attr_type);
                    let found = self.type_label(default_val.ty);
                    self.report(SemanticErrorKind::AttributeTypeMismatch { attribute: attr_name.clone(), expected, found }, decl_span);
                    proof {
                        lemma_one_more_keeps(mid, self.diagnostics@);
                        match annotation {
                            Some(a) => if t_resolve.spec_resolve(a@) is Some {
                                let e = self.diagnostics@.len() - 1;
                                assert(attribute_mismatch(
                                    attr_name@,
                                    a@,
                                    t_resolve.infos@[default_val.ty.0 as int].name@,
                                    decl_span,
                                )(self.diagnostics@[e]));
                                assert(attribute_checked(
                                    self.diagnostics@,
                                    old(self).diagnostics@.len(),
                                    t_resolve,
                                    typed_default,
                                    crate::decl::opt_resolve(t_resolve, *annotation),
                                    attr_name@,
                                    decl_span,
                                ));
                            },
                            None => {},
                        }
                    }
                }
            },
            None => {},
        }
        let ghost after_check = self.diagnostics@;
        let final_attr_type = if self.ctx.types.get(expected_attr_type).is_protocol() {
            match &typed_default {
                Some(td) => td.ty,
                None => expected_attr_type,
            }
        } else {
            expected_attr_type
        };
        let ghost pre_insert = self.ctx.types.infos@;
        let ok = self.ctx.types.insert_attribute(
            type_id,
            Symbol { name: attr_name.clone(), kind: SymbolKind::Attribute, ty: SymbolType::Variable(final_attr_type), span: feature.span },
        );
        proof {
            let k = type_id.0 as int;
            assert(pre_insert[k] == old(self).ctx.types.infos@[k]);
            if ok {
                let last = self.ctx.types.infos@[k].attributes@.last();
                lemma_push_keeps_names(pre_insert[k].attributes@, last);
                assert(self.ctx.types.infos@[k].methods == pre_insert[k].methods);
            }
        }
        let ghost after_insert = self.diagnostics@;
        if !ok {
            let ghost mid = self.diagnostics@;
            self.report(SemanticErrorKind::DuplicateAttribute { ty_name: type_label.clone(), attribute: attr_name.clone() }, feature.span);
            proof {
                lemma_one_more_keeps(mid, self.diagnostics@);
                let e = self.diagnostics@.len() - 1;
                assert(duplicate_attribute(type_label@, attr_name@, feature.span)(self.diagnostics@[e]));
            }
        }
        proof {
            let k = type_id.0 as int;
            let f = self.ctx.types.infos@;
            assert forall|i: int| 0 <= i < pre_insert.len() implies (#[trigger] f[i]).name == pre_insert[i].name by {
                if ok && i == k {
                } else {
                    assert(f[i] == pre_insert[i]);
                }
            }
            assert(names_kept(old(self).ctx.types.infos@, f)) by {
                assert forall|i: int| 0 <= i < old(self).ctx.types.infos@.len() implies (#[trigger] f[i]).name == old(self).ctx.types.infos@[i].name by {
                    assert(pre_insert[i] == old(self).ctx.types.infos@[i]);
                }
            }
            let ghost pair = (typed_default, *annotation);
            match pair {
                (Some(td), Some(a)) => {
                    if t_resolve.spec_resolve(a@) is Some && !subtype(
                        t_resolve.infos@,
                        td.ty,
                        t_resolve.spec_resolve(a@)->0,
                        t_resolve.infos@.len(),
                    ) {
                        lemma_reported_kept(
                            after_check,
                            self.diagnostics@,
                            old(self).diagnostics@.len(),
                            attribute_mismatch(attr_name@, a@, t_resolve.infos@[td.ty.0 as int].name@, decl_span),
                        );
                    }
                },
                _ => {},
            }
            assert(keeps_types_except(t_resolve.infos@, f, k));
            assert(keeps_types(old(self).ctx.types.infos@, t_resolve.infos@));
            match annotation {
                Some(t) => {
                    if self.ctx.types.spec_resolve(t@) is None {
                        assert(t_resolve.spec_resolve(t@) is None) by {
                            if t_resolve.spec_resolve(t@) is Some {
                                let i = choose|i: int| 0 <= i < t_resolve.infos@.len() && (#[trigger] t_resolve.infos@[i]).name@ == t@;
                                assert(f[i].name == pre_insert[i].name);
                            }
                        }
                        let e = m0.len() as int;
                        assert(unknown_attribute_type(t@, attr_name@, decl_span)(self.diagnostics@[e]));
                    }
                },
                None => {},
            }
        }
        DeclSpanned::new(
            TypedTypeFeatureKind::Attribute { name: attr_name.clone(), type_id: final_attr_type, default: typed_default },
            feature.span,
        )
    }

    /// One method of a (non generic) type, analysed in a scope with `self`
    /// and its parameters (see `declare_method_params`): against the parent's
    /// method of that name, the override rules
    /// (`validate_method_override_arity_and_params`, `override_return_rule`),
    /// then its body and its return type (see `method_return_rule`). The
    /// method's signature replaces the one the type had.
    pub fn analyze_type_method(&mut self, type_id: TypeId, feature: &TypeFeatures, parent: &Option<InheritInfo>, decl_span: Span) -> (r: TypedTypeFeature)
        requires
            old(self).wf(),
            type_id.0 < old(self).ty_count(),
            feature.node is Method,
        ensures
            decl_analysis_frame(*old(self), *final(self), type_id.0 as int),
            r.span == feature.span,
            r.node is Method,
            r.node->Method_return_type.0 < final(self).ty_count(),
            member_names_kept(old(self).ctx.types.infos@, final(self).ctx.types.infos@, type_id.0 as int),
            has_named(final(self).ctx.types.infos@[type_id.0 as int].methods@, feature.node->Method_name@),
            names_kept(old(self).ctx.types.infos@, final(self).ctx.types.infos@),
            method_reported(*old(self), *final(self), *feature),
    {
        let (method_name, method_params, return_type, body) = match &feature.node {
            TypeFeaturesKind::Method { name, params, return_type, body } => (name, params, return_type, body),
            TypeFeaturesKind::Attribute { name, .. } => {
                let t = self.resolve_builtin("Object");
                return DeclSpanned::new(
                    TypedTypeFeatureKind::Method {
                        name: name.clone(),
                        params: Vec::new(),
                        return_type: t,
                        body: TypedExpr::new(crate::hir::TypedExprKind::Block(Vec::new()), t, feature.span),
                    },
                    feature.span,
                );
            },
        };
        self.ctx.push_scope();
        let ghost s0 = self.ctx.scopes@;
        let _ = self.ctx.declare(
            Symbol { name: String::from_str("self"), kind: SymbolKind::Variable, ty: SymbolType::Variable(type_id), span: decl_span },
        );
        proof { assert(self.ctx.scopes@.drop_last() =~= s0.drop_last()); }
        let typed_params = self.declare_method_params(method_name.as_str(), method_params, feature.span);
        let ghost m1 = self.diagnostics@;
        let declared = self.method_declared_return(method_name.as_str(), return_type, feature.span);
        proof {
            if self.diagnostics@.len() > m1.len() {
                lemma_one_more_keeps(m1, self.diagnostics@);
            }
            assert(self.ctx.types == old(self).ctx.types);
            match return_type {
                Some(t) => {
                    if old(self).ctx.types.spec_resolve(t@) is None {
                        let e = self.diagnostics@.len() - 1;
                        assert(unknown_return_type(method_name@, t@, feature.span)(self.diagnostics@[e]));
                        assert(reported(self.diagnostics@, old(self).diagnostics@.len(), unknown_return_type(method_name@, t@, feature.span)));
                    }
                },
                None => {},
            }
            assert forall|i: int| 0 <= i < method_params@.len() implies match (#[trigger] method_params@[i]).1 {
                Some(t) => old(self).ctx.types.spec_resolve(t@) is None ==> reported(
                    self.diagnostics@,
                    old(self).diagnostics@.len(),
                    crate::members::unknown_param_type(method_name@, method_params@[i].0@, t@, feature.span),
                ),
                None => true,
            } by {
                match method_params@[i].1 {
                    Some(t) => {
                        if old(self).ctx.types.spec_resolve(t@) is None {
                            lemma_reported_kept(m1, self.diagnostics@, old(self).diagnostics@.len(), crate::members::unknown_param_type(method_name@, method_params@[i].0@, t@, feature.span));
                        }
                    },
                    None => {},
                }
            }
        }
        let ghost after_sig = *self;
        let parent_method: Option<Symbol> = match parent {
            Some(parent_info) => match self.ctx.types.resolve(parent_info.node.parent_name.as_str()) {
                Some(parent_id) => match self.ctx.types.get_method(parent_id, method_name.as_str()) {
                    Some(sym) => Some(sym.duplicate()),
                    None => None,
                },
                None => None,
            },
            None => None,
        };
        match &parent_method {
            Some(pm) => {
                self.validate_method_override_arity_and_params(method_name.as_str(), method_params, &pm.ty, decl_span);
            },
            None => {},
        }
        self.ctx.current_function_return = declared;
        self.ctx.current_method = Some(method_name.clone());
        let body_type = self.analyze_expr(body);
        let ghost m2 = self.diagnostics@;
        let expected_ret_id = self.method_return_rule(method_name.as_str(), declared, body_type.ty, body.span);
        proof {
            if self.diagnostics@.len() > m2.len() {
                lemma_one_more_keeps(m2, self.diagnostics@);
            }
        }
        let ghost m3 = self.diagnostics@;
        self.override_return_rule(method_name.as_str(), expected_ret_id, &parent_method, decl_span);
        proof {
            if self.diagnostics@.len() > m3.len() {
                lemma_one_more_keeps(m3, self.diagnostics@);
            }
        }
        self.ctx.current_function_return = None;
        self.ctx.current_method = None;
        self.ctx.pop_scope();
        let mut param_types: Vec<TypeId> = Vec::new();
        let mut p: usize = 0;
        while p < typed_params.len()
            invariant
                p <= typed_params@.len(),
                forall|k: int| 0 <= k < typed_params@.len() ==> (#[trigger] typed_params@[k]).node.type_id.0 < self.ty_count(),
                forall|k: int| 0 <= k < param_types@.len() ==> (#[trigger] param_types@[k]).0 < self.ty_count(),
            decreases typed_params.len() - p,
        {
            param_types.push(typed_params[p].node.type_id);
            p = p + 1;
        }
        let ghost pre_insert = self.ctx.types.infos@;
        let fresh = self.ctx.types.insert_method(
            type_id,
            Symbol {
                name: method_name.clone(),
                kind: SymbolKind::Function,
                ty: SymbolType::Function { params: param_types, ret: expected_ret_id },
                span: feature.span,
            },
        );
        proof {
            assert(self.ctx.scopes@ =~= old(self).ctx.scopes@);
            let k = type_id.0 as int;
            assert(pre_insert[k] == old(self).ctx.types.infos@[k]);
            let ms0 = pre_insert[k].methods@;
            let ms1 = self.ctx.types.infos@[k].methods@;
            assert(self.ctx.types.infos@[k].attributes == pre_insert[k].attributes);
            if fresh {
                lemma_push_keeps_names(ms0, ms1.last());
                assert(ms1 =~= ms0.push(ms1.last()));
            } else {
                let w = choose|w: int| 0 <= w < ms0.len() && (#[trigger] ms0[w]).name@ == method_name@;
                crate::context::lemma_has_first(ms0, method_name@, w);
                let f = first_named(ms0, method_name@);
                assert(is_first_named(ms0, method_name@, f));
                lemma_replace_keeps_names(ms0, f, ms1[f]);
                assert(ms1 =~= ms0.update(f, ms1[f]));
            }
            let fin = self.ctx.types.infos@;
            assert forall|i: int| 0 <= i < old(self).ctx.types.infos@.len() implies (#[trigger] fin[i]).name == old(self).ctx.types.infos@[i].name by {
                if i != k {
                    assert(pre_insert[i] == old(self).ctx.types.infos@[i]);
                }
            }
            assert(keeps_errors(after_sig.diagnostics@, self.diagnostics@));
            let name = method_name@;
            let from = old(self).diagnostics@.len();
            assert forall|i: int| 0 <= i < method_params@.len() implies match (#[trigger] method_params@[i]).1 {
                Some(t) => self.ctx.types.spec_resolve(t@) is None ==> reported(
                    self.diagnostics@,
                    from,
                    crate::members::unknown_param_type(name, method_params@[i].0@, t@, feature.span),
                ),
                None => true,
            } by {
                match method_params@[i].1 {
                    Some(t) => {
                        if self.ctx.types.spec_resolve(t@) is None {
                            lemma_unresolved_before(old(self).ctx.types, self.ctx.types, t@);
                            lemma_reported_kept(after_sig.diagnostics@, self.diagnostics@, from, crate::members::unknown_param_type(name, method_params@[i].0@, t@, feature.span));
                        }
                    },
                    None => {},
                }
            }
            match return_type {
                Some(t) => {
                    if self.ctx.types.spec_resolve(t@) is None {
                        lemma_unresolved_before(old(self).ctx.types, self.ctx.types, t@);
                        lemma_reported_kept(after_sig.diagnostics@, self.diagnostics@, from, unknown_return_type(name, t@, feature.span));
                    }
                },
                None => {},
            }
        }
        DeclSpanned::new(
            TypedTypeFeatureKind::Method { name: method_name.clone(), params: typed_params, return_type: expected_ret_id, body: body_type },
            feature.span,
        )
    }

    /// Analyses a (non generic) type declaration: its constructor parameters
    /// (see `param_type`) and parent clause (see `analyze_type_inherit`) in a
    /// scope that also has `self`, where the attributes are then analysed in
    /// order (see `analyze_type_attribute`); then each method (see
    /// `analyze_type_method`).
    #[verifier::rlimit(60)]
    pub fn analyze_type(&mut self, type_decl: &Decl) -> (r: TypedDecl)
        requires
            old(self).wf(),
            type_decl.node is Type,
            old(self).ctx.types.spec_resolve(type_decl.node->Type_name@) is Some,
        ensures
            decl_analysis_frame(*old(self), *final(self), (old(self).ctx.types.spec_resolve(type_decl.node->Type_name@)->0).0 as int),
            r.node is Type,
            r.span == type_decl.span,
            r.node->Type_type_id == old(self).ctx.types.spec_resolve(type_decl.node->Type_name@)->0,
            final(self).ctx.current_type is None,
            has_members(final(self).ctx.types.infos@, r.node->Type_type_id.0 as int, type_decl.node->Type_features@),
            parent_clause_reported(*old(self), *final(self), *type_decl),
            forall|f: int|
                0 <= f < type_decl.node->Type_features@.len() && (#[trigger] type_decl.node->Type_features@[f]).node is Attribute
                    ==> type_attribute_reported(*old(self), *final(self), *type_decl, f),
            forall|f: int|
                0 <= f < type_decl.node->Type_features@.len() && (#[trigger] type_decl.node->Type_features@[f]).node is Method
                    ==> method_reported(*old(self), *final(self), type_decl.node->Type_features@[f]),
            features_laid_out(type_decl.node->Type_features@, r.node->Type_features@),
    {
        let (name, params, parent, features) = match &type_decl.node {
            DeclKind::Type { name, params, parent, features } => (name, params, parent, features),
            _ => {
                let t = self.resolve_builtin("Object");
                return DeclSpanned::new(
                    TypedDeclKind::Type { name: String::new(), params: None, parent: None, features: Vec::new(), type_id: t },
                    type_decl.span,
                );
            },
        };
        let current_type_id = match self.ctx.types.resolve(name.as_str()) {
            Some(id) => id,
            None => self.resolve_builtin("Object"),
        };
        let ghost k = current_type_id.0 as int;
        self.ctx.current_type = Some(current_type_id);
        self.ctx.push_scope();
        let ghost inner = self.ctx.scopes@;
        let typed_params: Option<Vec<TypedParam>> = match params {
            Some(param_list) => Some(self.declare_params(name, param_list, true, type_decl.span)),
            None => None,
        };
        let ghost before_parent = self.diagnostics@;
        let typed_inherit_info: Option<TypedInheritInfo> = match parent {
            Some(inherit_info) => Some(self.analyze_type_inherit(name, inherit_info, type_decl.span)),
            None => None,
        };
        let ghost after_parent = *self;
        proof {
            assert(parent_clause_reported(*old(self), *self, *type_decl)) by {
                match parent {
                    Some(ii) => {
                        let w = before_parent.len() as int;
                        if old(self).ctx.types.spec_resolve(ii.node.parent_name@) is None {
                            assert(self.diagnostics@[w] == self.diagnostics@.last());
                        }
                        assert(0 <= w);
                    },
                    None => {},
                }
            }
        }
        let ghost s1 = self.ctx.scopes@;
        let _ = self.ctx.declare(
            Symbol {
                name: String::from_str("self"),
                kind: SymbolKind::Variable,
                ty: SymbolType::Variable(current_type_id),
                span: type_decl.span,
            },
        );
        proof { assert(self.ctx.scopes@.drop_last() =~= s1.drop_last()); }
        let ghost attr_scopes = self.ctx.scopes@;
        let mut typed_features: Vec<TypedTypeFeature> = Vec::new();
        proof { lemma_layout_empty(features@, typed_features@); }
        let mut i: usize = 0;
        while i < features.len()
            invariant
                self.wf(),
                i <= features@.len(),
                self.ctx.scopes@ == attr_scopes,
                self.ctx.generic_decls == old(self).ctx.generic_decls,
                attr_scopes.len() == old(self).ctx.scopes@.len() + 1,
                attr_scopes.drop_last() == old(self).ctx.scopes@,
                self.ctx.instantiation_budget == old(self).ctx.instantiation_budget,
                keeps_errors(old(self).diagnostics@, self.diagnostics@),
                keeps_errors(after_parent.diagnostics@, self.diagnostics@),
                keeps_types_except(old(self).ctx.types.infos@, self.ctx.types.infos@, k),
                k == current_type_id.0 as int,
                current_type_id.0 < self.ty_count(),
                attrs_laid_out(features@, typed_features@, i as int),
                forall|f: int|
                    0 <= f < i && (#[trigger] features@[f]).node is Attribute ==> has_named(
                        self.ctx.types.infos@[k].attributes@,
                        features@[f].node->Attribute_name@,
                    ),
                forall|n: Seq<char>| has_named(old(self).ctx.types.infos@[k].attributes@, n) ==> #[trigger] has_named(self.ctx.types.infos@[k].attributes@, n),
                forall|f: int| 0 <= f < i && (#[trigger] features@[f]).node is Attribute ==> type_attribute_reported(*old(self), *self, *type_decl, f),
                features@ == type_decl.node->Type_features@,
                k == (old(self).ctx.types.spec_resolve(type_decl.node->Type_name@)->0).0 as int,
                name@ == type_decl.node->Type_name@,
            decreases features.len() - i,
        {
            let ghost tf0 = typed_features@;
            if matches!(features[i].node, TypeFeaturesKind::Attribute { .. }) {
                let ghost t0 = self.ctx.types.infos@;
                let ghost before_i = *self;
                let f = self.analyze_type_attribute(current_type_id, &features[i], name, type_decl.span);
                typed_features.push(f);
                proof { assert(typed_features@.drop_last() =~= tf0); }
                proof {
                    let feat = features@[i as int];
                    let an = feat.node->Attribute_name@;
                    assert forall|n: Seq<char>| has_named(old(self).ctx.types.infos@[k].attributes@, n) implies #[trigger] has_named(
                        self.ctx.types.infos@[k].attributes@,
                        n,
                    ) by {
                        assert(has_named(before_i.ctx.types.infos@[k].attributes@, n));
                    }
                    assert forall|f: int| 0 <= f < i + 1 && (#[trigger] features@[f]).node is Attribute implies type_attribute_reported(
                        *old(self),
                        *self,
                        *type_decl,
                        f,
                    ) by {
                        if f < i {
                            lemma_type_attribute_reported_step(*old(self), before_i, *self, *type_decl, f);
                        } else {
                            match feat.node->Attribute_annotation {
                                Some(t) => {
                                    if self.ctx.types.spec_resolve(t@) is None {
                                        lemma_reported_from(
                                            self.diagnostics@,
                                            old(self).diagnostics@.len(),
                                            before_i.diagnostics@.len(),
                                            unknown_attribute_type(t@, an, type_decl.span),
                                        );
                                    }
                                },
                                None => {},
                            }
                            if has_named(old(self).ctx.types.infos@[k].attributes@, an) || exists|g: int|
                                0 <= g < f && (#[trigger] features@[g]).node is Attribute && features@[g].node->Attribute_name@ == an {
                                if !has_named(old(self).ctx.types.infos@[k].attributes@, an) {
                                    let g = choose|g: int|
                                        0 <= g < f && (#[trigger] features@[g]).node is Attribute && features@[g].node->Attribute_name@ == an;
                                    assert(has_named(before_i.ctx.types.infos@[k].attributes@, features@[g].node->Attribute_name@));
                                }
                                assert(has_named(before_i.ctx.types.infos@[k].attributes@, an));
                                lemma_reported_from(
                                    self.diagnostics@,
                                    old(self).diagnostics@.len(),
                                    before_i.diagnostics@.len(),
                                    duplicate_attribute(type_decl.node->Type_name@, an, feat.span),
                                );
                            }
                        }
                    }
                    assert forall|f: int|
                        0 <= f < i + 1 && (#[trigger] features@[f]).node is Attribute implies has_named(
                            self.ctx.types.infos@[k].attributes@,
                            features@[f].node->Attribute_name@,
                        ) by {
                        if f < i {
                            assert(has_named(t0[k].attributes@, features@[f].node->Attribute_name@));
                        }
                    }
                }
            }
            proof { lemma_attr_layout_step(features@, tf0, typed_features@, i as int); }
            i = i + 1;
        }
        self.ctx.pop_scope();
        proof {
            assert(self.ctx.scopes@ =~= old(self).ctx.scopes@);
        }
        proof { lemma_layout_start(features@, typed_features@); }
        let mut j: usize = 0;
        while j < features.len()
            invariant
                self.wf(),
                j <= features@.len(),
                self.ctx.scopes@ == old(self).ctx.scopes@,
                self.ctx.generic_decls == old(self).ctx.generic_decls,
                self.ctx.instantiation_budget == old(self).ctx.instantiation_budget,
                keeps_errors(old(self).diagnostics@, self.diagnostics@),
                keeps_errors(after_parent.diagnostics@, self.diagnostics@),
                keeps_types_except(old(self).ctx.types.infos@, self.ctx.types.infos@, k),
                k == current_type_id.0 as int,
                current_type_id.0 < self.ty_count(),
                methods_laid_out(features@, typed_features@, j as int),
                forall|f: int|
                    0 <= f < features@.len() && (#[trigger] features@[f]).node is Attribute ==> has_named(
                        self.ctx.types.infos@[k].attributes@,
                        features@[f].node->Attribute_name@,
                    ),
                forall|f: int|
                    0 <= f < j && (#[trigger] features@[f]).node is Method ==> has_named(
                        self.ctx.types.infos@[k].methods@,
                        features@[f].node->Method_name@,
                    ),
                forall|f: int|
                    0 <= f < features@.len() && (#[trigger] features@[f]).node is Attribute ==> type_attribute_reported(
                        *old(self),
                        *self,
                        *type_decl,
                        f,
                    ),
                forall|f: int| 0 <= f < j && (#[trigger] features@[f]).node is Method ==> method_reported(*old(self), *self, features@[f]),
            decreases features.len() - j,
        {
            let ghost tf0 = typed_features@;
            if matches!(features[j].node, TypeFeaturesKind::Method { .. }) {
                let ghost t0 = self.ctx.types.infos@;
                let ghost before_j = *self;
                let f = self.analyze_type_method(current_type_id, &features[j], parent, type_decl.span);
                typed_features.push(f);
                proof { assert(typed_features@.drop_last() =~= tf0); }
                proof {
                    assert forall|f: int|
                        0 <= f < features@.len() && (#[trigger] features@[f]).node is Attribute implies type_attribute_reported(
                        *old(self),
                        *self,
                        *type_decl,
                        f,
                    ) by {
                        lemma_type_attribute_reported_step(*old(self), before_j, *self, *type_decl, f);
                    }
                    assert forall|f: int| 0 <= f < j + 1 && (#[trigger] features@[f]).node is Method implies method_reported(
                        *old(self),
                        *self,
                        features@[f],
                    ) by {
                        if f < j {
                            lemma_method_reported_step(*old(self), before_j, *self, features@[f]);
                        } else {
                            lemma_method_reported_from(*old(self), before_j, *self, features@[f]);
                        }
                    }
                    assert forall|f: int|
                        0 <= f < features@.len() && (#[trigger] features@[f]).node is Attribute implies has_named(
                            self.ctx.types.infos@[k].attributes@,
                            features@[f].node->Attribute_name@,
                        ) by {
                        assert(has_named(t0[k].attributes@, features@[f].node->Attribute_name@));
                    }
                    assert forall|f: int|
                        0 <= f < j + 1 && (#[trigger] features@[f]).node is Method implies has_named(
                            self.ctx.types.infos@[k].methods@,
                            features@[f].node->Method_name@,
                        ) by {
                        if f < j {
                            assert(has_named(t0[k].methods@, features@[f].node->Method_name@));
                        }
                    }
                }
            }
            proof { lemma_method_layout_step(features@, tf0, typed_features@, j as int); }
            j = j + 1;
        }
        proof {
            assert forall|f: int| 0 <= f < features@.len() implies match (#[trigger] features@[f]).node {
                TypeFeaturesKind::Attribute { name, .. } => has_named(self.ctx.types.infos@[k].attributes@, name@),
                TypeFeaturesKind::Method { name, .. } => has_named(self.ctx.types.infos@[k].methods@, name@),
            } by {
                if features@[f].node is Attribute {
                } else {
                }
            }
        }
        proof { lemma_layout_done(features@, typed_features@); }
        self.ctx.current_type = None;
        proof { lemma_parent_clause_kept(*old(self), after_parent, *self, *type_decl); }
        DeclSpanned::new(
            TypedDeclKind::Type {
                name: name.clone(),
                params: typed_params,
                parent: typed_inherit_info,
                features: typed_features,
                type_id: current_type_id,
            },
            type_decl.span,
        )
    }
}

} // verus!
