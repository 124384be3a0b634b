use vstd::prelude::*;
use crate::context::{function_decl_valid, SemanticContext};
use crate::error::{copy_errors, SemanticError, SemanticErrorKind};
use crate::ast::{Decl, Program, ProgramKind};
use crate::builtin::install_builtins;
use crate::hir::{TypedDecl, TypedExpr, TypedProgram, TypedProgramKind};
use crate::hir_copy::{copy_typed_decl, copy_typed_decls, decl_copied};
use crate::span::Span;
use crate::types::{TypeId, TypeInfo};

verus! {

/// The semantic analyzer: the context it works in and the errors found so far.
pub struct SemanticAnalyzer {
    pub ctx: SemanticContext,
    pub diagnostics: Vec<SemanticError>,
}

/// `after` starts with all of `before`.
pub open spec fn keeps_errors(before: Seq<SemanticError>, after: Seq<SemanticError>) -> bool {
    &&& before.len() <= after.len()
    &&& forall|i: int| 0 <= i < before.len() ==> #[trigger] after[i] == before[i]
}

/// `after` holds every entry of `before` unchanged, and maybe more after them.
pub open spec fn keeps_types(before: Seq<TypeInfo>, after: Seq<TypeInfo>) -> bool {
    &&& before.len() <= after.len()
    &&& forall|i: int| 0 <= i < before.len() ==> #[trigger] after[i] == before[i]
}

/// What analysing an expression keeps: the errors found before, the types
/// known before, the scopes and the instantiation budget.
pub open spec fn frame(before: SemanticAnalyzer, after: SemanticAnalyzer) -> bool {
    &&& after.wf()
    &&& keeps_errors(before.diagnostics@, after.diagnostics@)
    &&& keeps_types(before.ctx.types.infos@, after.ctx.types.infos@)
    &&& after.ctx.scopes@ == before.ctx.scopes@
    &&& after.ctx.instantiation_budget == before.ctx.instantiation_budget
    &&& after.ctx.generic_decls == before.ctx.generic_decls
}

/// `frame`, and the typed expression has a type of the table.
pub open spec fn analyzed(before: SemanticAnalyzer, after: SemanticAnalyzer, r: TypedExpr) -> bool {
    &&& frame(before, after)
    &&& r.ty.0 < after.ctx.types.infos@.len()
}

/// The errors `after` has beyond those of `before` are exactly `added`.
pub open spec fn adds(before: Seq<SemanticError>, after: Seq<SemanticError>, added: Seq<SemanticError>) -> bool {
    after == before + added
}

/// The expected and found type names that an argument-mismatch error carries.
pub open spec fn mismatch_names(e: SemanticError) -> Option<(Seq<char>, Seq<char>)> {
    match e.kind {
        SemanticErrorKind::FunctionArgumentTypeMismatch { expected, found, .. } => Some((expected@, found@)),
        SemanticErrorKind::MethodArgumentTypeMismatch { expected, found, .. } => Some((expected@, found@)),
        SemanticErrorKind::InheritanceArgumentTypeMismatch { expected, found, .. } => Some((expected@, found@)),
        SemanticErrorKind::ConstructorArgumentTypeMismatch { expected, found, .. } => Some((expected@, found@)),
        _ => None,
    }
}

/// The types of a list of typed expressions.
pub open spec fn arg_types(v: Seq<TypedExpr>) -> Seq<TypeId> {
    Seq::new(v.len(), |k: int| v[k].ty)
}

/// Argument `k`, of type `ty`, checked against parameter `k` (if there is
/// one) in table `t`: when it is not a subtype of the parameter's type,
/// exactly one error is added at position `c` (so the next argument's
/// errors start at `c + 1`), the one `mismatch` describes for `k`, naming
/// both types; when it is a subtype (or has no parameter) none is added.
pub open spec fn arg_checked(
    errs: Seq<SemanticError>,
    c: int,
    next: int,
    t: Seq<TypeInfo>,
    ty: TypeId,
    k: int,
    param_tys: Seq<TypeId>,
    mismatch: spec_fn(int, SemanticError) -> bool,
) -> bool {
    if k < param_tys.len() && !crate::types::subtype(t, ty, param_tys[k], t.len()) {
        &&& next == c + 1
        &&& mismatch(k, errs[c])
        &&& mismatch_names(errs[c]) == Some((t[param_tys[k].0 as int].name@, t[ty.0 as int].name@))
    } else {
        next == c
    }
}

/// The arguments of a call, of types `arg_tys`, were analysed and checked
/// one after another: the errors of argument `k`'s own analysis are those of
/// `errs` from `starts[k]` to `checks[k]`; then it is checked in the table
/// `tables[k]` of that moment (see `arg_checked`), and the next argument's
/// errors start at `starts[k + 1]`.
pub open spec fn args_checked(
    errs: Seq<SemanticError>,
    starts: Seq<int>,
    checks: Seq<int>,
    tables: Seq<Seq<TypeInfo>>,
    arg_tys: Seq<TypeId>,
    param_tys: Seq<TypeId>,
    mismatch: spec_fn(int, SemanticError) -> bool,
) -> bool {
    &&& starts.len() == arg_tys.len() + 1
    &&& checks.len() == arg_tys.len()
    &&& tables.len() == arg_tys.len()
    &&& starts[arg_tys.len() as int] <= errs.len()
    &&& 0 <= starts[0]
    &&& forall|k: int| 0 <= k < arg_tys.len() ==> #[trigger] starts_around(starts, checks, k)
    &&& forall|k: int|
        0 <= k < arg_tys.len() ==> arg_checked(errs, #[trigger] checks[k], starts[k + 1], tables[k], arg_tys[k], k, param_tys, mismatch)
}

/// A value of type `ty` was checked in the table `tt` against the type
/// `declared`, where there is one: when `ty` is not a subtype of it, an
/// error that `mismatch` describes for the two types' names (expected, then
/// found) is among `errs` from `from` on.
pub open spec fn value_checked(
    errs: Seq<SemanticError>,
    from: nat,
    tt: crate::types::TypeTable,
    ty: TypeId,
    declared: Option<TypeId>,
    mismatch: spec_fn(Seq<char>, Seq<char>) -> spec_fn(SemanticError) -> bool,
) -> bool {
    match declared {
        Some(id) => !crate::types::subtype(tt.infos@, ty, id, tt.infos@.len()) ==> crate::type_decl::reported(
            errs,
            from,
            mismatch(tt.infos@[id.0 as int].name@, tt.infos@[ty.0 as int].name@),
        ),
        None => true,
    }
}

/// A value check stays recorded as errors are added.
pub proof fn lemma_value_checked_kept(
    a: Seq<SemanticError>,
    b: Seq<SemanticError>,
    from: nat,
    tt: crate::types::TypeTable,
    ty: TypeId,
    declared: Option<TypeId>,
    mismatch: spec_fn(Seq<char>, Seq<char>) -> spec_fn(SemanticError) -> bool,
)
    requires
        value_checked(a, from, tt, ty, declared, mismatch),
        keeps_errors(a, b),
    ensures
        value_checked(b, from, tt, ty, declared, mismatch),
{
    match declared {
        Some(id) => {
            if !crate::types::subtype(tt.infos@, ty, id, tt.infos@.len()) {
                crate::type_decl::lemma_reported_kept(
                    a,
                    b,
                    from,
                    mismatch(tt.infos@[id.0 as int].name@, tt.infos@[ty.0 as int].name@),
                );
            }
        },
        None => {},
    }
}

/// Argument `k`'s errors start no earlier than those before it.
pub open spec fn starts_around(starts: Seq<int>, checks: Seq<int>, k: int) -> bool {
    0 <= starts[k] && starts[k] <= checks[k] && checks[k] <= starts[k + 1]
}

/// Each of `tables` lies between `a` and `b`: it keeps `a`, and `b` keeps it.
pub open spec fn tables_between(a: Seq<TypeInfo>, tables: Seq<Seq<TypeInfo>>, b: Seq<TypeInfo>) -> bool {
    forall|k: int| 0 <= k < tables.len() ==> keeps_types(a, #[trigger] tables[k]) && keeps_types(tables[k], b)
}

/// A table between two equal tables is that table: when a call leaves the
/// type table as it was, every argument was checked against that table.
pub proof fn lemma_tables_between_fixed(a: Seq<TypeInfo>, tables: Seq<Seq<TypeInfo>>, k: int)
    requires
        tables_between(a, tables, a),
        0 <= k < tables.len(),
    ensures
        tables[k] == a,
{
    assert(keeps_types(a, tables[k]) && keeps_types(tables[k], a));
    assert(tables[k] =~= a);
}

/// Types are kept from `a` to `c` when kept from `a` to `b` and `b` to `c`.
pub proof fn lemma_keeps_types_trans(a: Seq<TypeInfo>, b: Seq<TypeInfo>, c: Seq<TypeInfo>)
    requires
        keeps_types(a, b),
        keeps_types(b, c),
    ensures
        keeps_types(a, c),
{
    assert forall|i: int| 0 <= i < a.len() implies #[trigger] c[i] == a[i] by {
        assert(b[i] == a[i]);
    }
}

/// The checks so far stay as they were when errors are added after them.
pub proof fn lemma_args_checked_kept(
    errs_a: Seq<SemanticError>,
    errs_b: Seq<SemanticError>,
    starts: Seq<int>,
    checks: Seq<int>,
    tables: Seq<Seq<TypeInfo>>,
    arg_tys: Seq<TypeId>,
    param_tys: Seq<TypeId>,
    mismatch: spec_fn(int, SemanticError) -> bool,
)
    requires
        args_checked(errs_a, starts, checks, tables, arg_tys, param_tys, mismatch),
        keeps_errors(errs_a, errs_b),
    ensures
        args_checked(errs_b, starts, checks, tables, arg_tys, param_tys, mismatch),
{
    let n = arg_tys.len() as int;
    assert forall|k: int| 0 <= k < n implies arg_checked(
        errs_b,
        #[trigger] checks[k],
        starts[k + 1],
        tables[k],
        arg_tys[k],
        k,
        param_tys,
        mismatch,
    ) by {
        assert(arg_checked(errs_a, checks[k], starts[k + 1], tables[k], arg_tys[k], k, param_tys, mismatch));
        assert(starts_around(starts, checks, k));
        lemma_starts_below(starts, checks, arg_tys.len(), k + 1);
        if checks[k] < errs_a.len() {
            assert(errs_b[checks[k]] == errs_a[checks[k]]);
        }
    }
}

/// The starts are increasing up to the last one.
proof fn lemma_starts_below(starts: Seq<int>, checks: Seq<int>, n: nat, j: int)
    requires
        starts.len() == n + 1,
        checks.len() == n,
        forall|k: int| 0 <= k < n ==> #[trigger] starts_around(starts, checks, k),
        0 <= j <= n,
    ensures
        starts[j] <= starts[n as int],
    decreases n - j,
{
    if j < n {
        assert(starts_around(starts, checks, j));
        lemma_starts_below(starts, checks, n, j + 1);
    }
}

/// The checks with no argument yet.
pub proof fn lemma_args_checked_start(errs: Seq<SemanticError>, from: int, param_tys: Seq<TypeId>, mismatch: spec_fn(int, SemanticError) -> bool)
    requires
        0 <= from <= errs.len(),
    ensures
        args_checked(errs, seq![from], Seq::empty(), Seq::empty(), Seq::empty(), param_tys, mismatch),
{
}

/// One more argument analysed (its errors end at `c`) and checked in table `t`.
pub proof fn lemma_args_checked_step(
    errs_a: Seq<SemanticError>,
    errs_b: Seq<SemanticError>,
    starts: Seq<int>,
    checks: Seq<int>,
    tables: Seq<Seq<TypeInfo>>,
    arg_tys: Seq<TypeId>,
    param_tys: Seq<TypeId>,
    mismatch: spec_fn(int, SemanticError) -> bool,
    c: int,
    t: Seq<TypeInfo>,
    ty: TypeId,
)
    requires
        args_checked(errs_a, starts, checks, tables, arg_tys, param_tys, mismatch),
        starts[arg_tys.len() as int] <= c,
        keeps_errors(errs_a, errs_b),
        c <= errs_b.len(),
        arg_checked(errs_b, c, errs_b.len() as int, t, ty, arg_tys.len() as int, param_tys, mismatch),
    ensures
        args_checked(
            errs_b,
            starts.push(errs_b.len() as int),
            checks.push(c),
            tables.push(t),
            arg_tys.push(ty),
            param_tys,
            mismatch,
        ),
{
    lemma_args_checked_kept(errs_a, errs_b, starts, checks, tables, arg_tys, param_tys, mismatch);
    let n = arg_tys.len() as int;
    let s2 = starts.push(errs_b.len() as int);
    let c2 = checks.push(c);
    let t2 = tables.push(t);
    let a2 = arg_tys.push(ty);
    assert forall|k: int| 0 <= k < n + 1 implies #[trigger] starts_around(s2, c2, k) by {
        if k < n {
            assert(starts_around(starts, checks, k));
        } else {
            if n > 0 {
                assert(starts_around(starts, checks, n - 1));
            }
        }
    }
    assert forall|k: int| 0 <= k < n + 1 implies arg_checked(errs_b, #[trigger] c2[k], s2[k + 1], t2[k], a2[k], k, param_tys, mismatch) by {
        if k < n {
            assert(arg_checked(errs_b, checks[k], starts[k + 1], tables[k], arg_tys[k], k, param_tys, mismatch));
        }
    }
}

impl SemanticAnalyzer {
    pub open spec fn wf(&self) -> bool {
        self.ctx.wf()
    }

    /// The number of known types.
    pub open spec fn ty_count(&self) -> nat {
        self.ctx.types.infos@.len()
    }

    /// The name of a type.
    pub open spec fn name_of(&self, id: TypeId) -> Seq<char> {
        self.ctx.types.infos@[id.0 as int].name@
    }

    /// The type a name resolves to, `Object` when it resolves to none.
    pub open spec fn builtin(&self, name: Seq<char>) -> TypeId {
        match self.ctx.types.spec_resolve(name) {
            Some(id) => id,
            None => self.ctx.types.spec_resolve("Object"@)->0,
        }
    }

    pub open spec fn object_id(&self) -> TypeId {
        self.builtin("Object"@)
    }

    pub open spec fn number_id(&self) -> TypeId {
        self.builtin("Number"@)
    }

    pub open spec fn string_id(&self) -> TypeId {
        self.builtin("String"@)
    }

    pub open spec fn boolean_id(&self) -> TypeId {
        self.builtin("Boolean"@)
    }

    /// A fresh analyzer: the builtin types, one empty scope, no error.
    pub fn new() -> (a: SemanticAnalyzer)
        ensures
            a.wf(),
            a.diagnostics@.len() == 0,
            a.ctx.scopes@.len() == 1,
            a.ctx.scopes@[0].symbols@.len() == 0,
            a.ctx.types.infos@.len() == 4,
            a.ctx.generic_instances@.len() == 0,
            a.ctx.generic_type_instances@.len() == 0,
            a.ctx.generic_method_instances@.len() == 0,
            a.ctx.current_type is None,
            a.ctx.current_method is None,
    {
        SemanticAnalyzer { ctx: SemanticContext::new(), diagnostics: Vec::new() }
    }

    /// Whether any error has been found.
    pub fn has_errors(&self) -> (r: bool)
        ensures
            r == (self.diagnostics@.len() > 0),
    {
        self.diagnostics.len() > 0
    }

    /// Records an error.
    pub(crate) fn report(&mut self, kind: SemanticErrorKind, span: Span)
        ensures
            final(self).ctx == old(self).ctx,
            final(self).diagnostics@ == old(self).diagnostics@.push(SemanticError { kind, span }),
    {
        self.diagnostics.push(SemanticError::new(kind, span));
    }

    /// The name of a type, as a string.
    pub(crate) fn type_label(&self, id: TypeId) -> (s: String)
        requires
            id.0 < self.ctx.types.infos@.len(),
        ensures
            s@ == self.name_of(id),
    {
        self.ctx.types.get(id).name.clone()
    }

    /// The type with this name, or `Object` when there is none.
    pub fn resolve_builtin(&self, name: &str) -> (r: TypeId)
        requires
            self.wf(),
        ensures
            r == self.builtin(name@),
            r.0 < self.ty_count(),
    {
        proof { self.ctx.types.lemma_builtins_resolve(); }
        match self.ctx.types.resolve(name) {
            Some(id) => id,
            None => self.ctx.types.resolve("Object").unwrap(),
        }
    }
}


/// The declarations of a program (none when it has no declaration part).
pub open spec fn program_decls(program: Program) -> Seq<Decl> {
    match program.node.decls {
        Some(v) => v@,
        None => Seq::empty(),
    }
}

impl SemanticAnalyzer {
    /// Copies of the instances made so far, each list in the order its
    /// instances were made; the context keeps them.
    fn copy_instances(&self) -> (r: (Vec<TypedDecl>, Vec<TypedDecl>, Vec<TypedDecl>))
        ensures
            r.0@.len() == self.ctx.generic_instances@.len(),
            forall|k: int| 0 <= k < r.0@.len() ==> decl_copied(self.ctx.generic_instances@[k].1, #[trigger] r.0@[k]),
            r.1@.len() == self.ctx.generic_type_instances@.len(),
            forall|k: int| 0 <= k < r.1@.len() ==> decl_copied(self.ctx.generic_type_instances@[k].1.decl, #[trigger] r.1@[k]),
            r.2@.len() == self.ctx.generic_method_instances@.len(),
            forall|k: int| 0 <= k < r.2@.len() ==> decl_copied(self.ctx.generic_method_instances@[k].1, #[trigger] r.2@[k]),
    {
        let functions = copy_typed_decls(&self.ctx.generic_instances);
        let methods = copy_typed_decls(&self.ctx.generic_method_instances);
        let mut types: Vec<TypedDecl> = Vec::new();
        let mut i: usize = 0;
        while i < self.ctx.generic_type_instances.len()
            invariant
                i <= self.ctx.generic_type_instances@.len(),
                types@.len() == i,
                forall|k: int| 0 <= k < i ==> decl_copied(self.ctx.generic_type_instances@[k].1.decl, #[trigger] types@[k]),
            decreases self.ctx.generic_type_instances.len() - i,
        {
            types.push(copy_typed_decl(&self.ctx.generic_type_instances[i].1.decl));
            i = i + 1;
        }
        (functions, types, methods)
    }

    /// Analyses a whole program: the builtins are installed, the
    /// declarations collected and analysed, then the entry expression; the
    /// instances of generic functions, types and methods made on the way are
    /// handed over (as copies; the context keeps them) with the typed
    /// program, in the order they were made. The result is an error exactly
    /// when some error was found, and then holds all of them.
    pub fn analyze_program(&mut self, program: Program) -> (r: Result<TypedProgram, Vec<SemanticError>>)
        requires
            old(self).wf(),
        ensures
            final(self).wf(),
            keeps_errors(old(self).diagnostics@, final(self).diagnostics@),
            match r {
                Ok(p) => {
                    &&& final(self).diagnostics@.len() == 0
                    &&& p.span == program.span
                    &&& p.node.body.span == program.node.body.span
                    &&& crate::expr::mirrors(program.node.body, p.node.body)
                    &&& p.node.decls matches Some(v) ==> exists|idx: Seq<int>| crate::decl::analysed_in_order(program_decls(program), v@, idx)
                    &&& crate::decl::functions_analysed(
                        program_decls(program),
                        match p.node.decls {
                            Some(v) => v@,
                            None => Seq::empty(),
                        },
                        *final(self),
                        true,
                    )
                    &&& p.node.monomorphized_functions@.len() == final(self).ctx.generic_instances@.len()
                    &&& forall|k: int|
                        0 <= k < p.node.monomorphized_functions@.len() ==> decl_copied(
                            final(self).ctx.generic_instances@[k].1,
                            #[trigger] p.node.monomorphized_functions@[k],
                        )
                    &&& p.node.monomorphized_types@.len() == final(self).ctx.generic_type_instances@.len()
                    &&& forall|k: int|
                        0 <= k < p.node.monomorphized_types@.len() ==> decl_copied(
                            final(self).ctx.generic_type_instances@[k].1.decl,
                            #[trigger] p.node.monomorphized_types@[k],
                        )
                    &&& p.node.monomorphized_methods@.len() == final(self).ctx.generic_method_instances@.len()
                    &&& forall|k: int|
                        0 <= k < p.node.monomorphized_methods@.len() ==> decl_copied(
                            final(self).ctx.generic_method_instances@[k].1,
                            #[trigger] p.node.monomorphized_methods@[k],
                        )
                    &&& forall|k: int|
                        0 <= k < p.node.monomorphized_functions@.len() ==> function_decl_valid(
                            #[trigger] p.node.monomorphized_functions@[k],
                            final(self).ty_count(),
                        )
                    &&& forall|k: int|
                        0 <= k < p.node.monomorphized_methods@.len() ==> function_decl_valid(
                            #[trigger] p.node.monomorphized_methods@[k],
                            final(self).ty_count(),
                        )
                },
                Err(e) => final(self).diagnostics@.len() > 0 && e@ == final(self).diagnostics@,
            },
    {
        let Program { node: ProgramKind { decls, body }, span } = program;
        let decls_vec: Vec<Decl> = match decls {
            Some(v) => v,
            None => Vec::new(),
        };
        proof { self.ctx.types.lemma_builtins_resolve(); }
        let ghost d0 = self.diagnostics@;
        install_builtins(&mut self.ctx);
        self.collect_declarations(decls_vec.as_slice());
        let ghost collected = *self;
        let typed_decls = self.analyze_declarations(decls_vec.as_slice());
        let ghost after_decls = *self;
        let typed_entry = self.analyze_expr(&body);
        let (monomorphized_functions, monomorphized_types, monomorphized_methods) = self.copy_instances();
        proof {
            assert(decls_vec@ == program_decls(program));
            assert forall|k: int| 0 <= k < monomorphized_functions@.len() implies function_decl_valid(
                #[trigger] monomorphized_functions@[k],
                self.ty_count(),
            ) by {
                assert(function_decl_valid(self.ctx.generic_instances@[k].1, self.ty_count()));
                assert(decl_copied(self.ctx.generic_instances@[k].1, monomorphized_functions@[k]));
            }
            assert forall|k: int| 0 <= k < monomorphized_methods@.len() implies function_decl_valid(
                #[trigger] monomorphized_methods@[k],
                self.ty_count(),
            ) by {
                assert(function_decl_valid(self.ctx.generic_method_instances@[k].1, self.ty_count()));
                assert(decl_copied(self.ctx.generic_method_instances@[k].1, monomorphized_methods@[k]));
            }
        }
        if self.has_errors() {
            return Err(copy_errors(&self.diagnostics));
        }
        proof {
            let typed_seq = if typed_decls is Some {
                typed_decls->0@
            } else {
                Seq::<TypedDecl>::empty()
            };
            assert(crate::decl::protocol_parents_known(collected.ctx.types.infos@, decls_vec@));
            crate::decl::lemma_functions_analysed_same(decls_vec@, typed_seq, after_decls, *self, true);
        }
        Ok(
            TypedProgram {
                node: TypedProgramKind {
                    decls: typed_decls,
                    body: typed_entry,
                    monomorphized_functions,
                    monomorphized_types,
                    monomorphized_methods,
                },
                span,
            },
        )
    }
}

} // verus!
