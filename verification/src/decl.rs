use vstd::prelude::*;
use crate::analyzer::{keeps_errors, keeps_types, SemanticAnalyzer};
use crate::ast::{Decl, DeclKind, Param, TypeFeaturesKind};
use crate::hir::{TypedDecl, TypedDeclKind};
use crate::context::lookup_in;
use crate::error::{SemanticError, SemanticErrorKind};
use crate::expr::{lemma_one_more_keeps, one_more};
use crate::new::copy_constructor_params;
use crate::span::Span;
use crate::symbols::{opt_id_below, symbol_type_valid, Symbol, SymbolKind, SymbolType};
use crate::types::{chain_ids, contains_id, has_named, info_valid, params_valid, protocol_parents, ConstructorParam, TypeId, TypeInfo};

verus! {

/// What the declaration passes keep: validity, the errors found before, the
/// number of scopes and the instantiation budget.
pub open spec fn decl_frame(before: SemanticAnalyzer, after: SemanticAnalyzer) -> bool {
    &&& after.wf()
    &&& keeps_errors(before.diagnostics@, after.diagnostics@)
    &&& after.ctx.scopes@.len() == before.ctx.scopes@.len()
    &&& after.ctx.instantiation_budget == before.ctx.instantiation_budget
    &&& before.ty_count() <= after.ty_count()
}

/// The name a declaration introduces.
pub open spec fn decl_name(d: Decl) -> Seq<char> {
    match d.node {
        DeclKind::Function { name, .. } => name@,
        DeclKind::Type { name, .. } => name@,
        DeclKind::Protocol { name, .. } => name@,
    }
}

/// The table resolves `name`.
pub open spec fn t_resolves(t: crate::types::TypeTable, name: Seq<char>) -> bool {
    t.spec_resolve(name) is Some
}

/// Every protocol `id` reaches through extension (itself included)
/// declares no method whose name `ms` lacks.
pub open spec fn reachable_methods_gathered(t: Seq<TypeInfo>, id: TypeId, ms: Seq<Symbol>) -> bool {
    forall|x: TypeId, k: nat, nm: Seq<char>|
        #[trigger] crate::types::reach_set(t, id, k).contains(x) && #[trigger] has_named(t[x.0 as int].methods@, nm) ==> has_named(ms, nm)
}

/// Every method of `ms` is named as a method of `id` or of a protocol it
/// reaches through extension: nothing else is gathered.
pub open spec fn only_reachable_methods(t: Seq<TypeInfo>, id: TypeId, ms: Seq<Symbol>) -> bool {
    forall|w: int| 0 <= w < ms.len() ==> method_name_reached(t, id, (#[trigger] ms[w]).name@)
}

/// Some protocol that `id` reaches declares a method named `nm`.
pub open spec fn method_name_reached(t: Seq<TypeInfo>, id: TypeId, nm: Seq<char>) -> bool {
    exists|x: TypeId, k: nat| #[trigger] crate::types::reach_set(t, id, k).contains(x) && has_named(t[x.0 as int].methods@, nm)
}

proof fn lemma_only_reachable_same_names(t: Seq<TypeInfo>, id: TypeId, a: Seq<Symbol>, b: Seq<Symbol>)
    requires
        only_reachable_methods(t, id, a),
        a.len() == b.len(),
        forall|w: int| 0 <= w < b.len() ==> (#[trigger] b[w]).name@ == a[w].name@,
    ensures
        only_reachable_methods(t, id, b),
{
    assert forall|w: int| 0 <= w < b.len() implies method_name_reached(t, id, (#[trigger] b[w]).name@) by {
        assert(method_name_reached(t, id, a[w].name@));
    }
}

/// Among the errors of `errs` from index `from` is a
/// `ProtocolMethodCollision` for a method named `nm`.
pub open spec fn collision_reported(errs: Seq<SemanticError>, from: nat, nm: Seq<char>) -> bool {
    exists|e: int|
        from <= e < errs.len() && ((#[trigger] errs[e]).kind matches SemanticErrorKind::ProtocolMethodCollision { method_name, .. }
            && method_name@ == nm)
}

/// Whenever two different protocols that `id` reaches declare a method of
/// the same name, a collision is reported for that name.
pub open spec fn collisions_reported(t: Seq<TypeInfo>, id: TypeId, errs: Seq<SemanticError>, from: nat) -> bool {
    forall|x: TypeId, y: TypeId, nm: Seq<char>|
        reached(t, id, x) && reached(t, id, y) && x != y && #[trigger] has_named(t[x.0 as int].methods@, nm) && #[trigger] has_named(
            t[y.0 as int].methods@,
            nm,
        ) ==> collision_reported(errs, from, nm)
}

proof fn lemma_collision_kept(a: Seq<SemanticError>, b: Seq<SemanticError>, from: nat, nm: Seq<char>)
    requires
        collision_reported(a, from, nm),
        keeps_errors(a, b),
    ensures
        collision_reported(b, from, nm),
{
    let e = choose|e: int|
        from <= e < a.len() && ((#[trigger] a[e]).kind matches SemanticErrorKind::ProtocolMethodCollision { method_name, .. }
            && method_name@ == nm);
    assert(b[e] == a[e]);
}

proof fn lemma_collisions_kept(t: Seq<TypeInfo>, id: TypeId, a: Seq<SemanticError>, b: Seq<SemanticError>, from: nat)
    requires
        collisions_reported(t, id, a, from),
        keeps_errors(a, b),
    ensures
        collisions_reported(t, id, b, from),
{
    assert forall|x: TypeId, y: TypeId, nm: Seq<char>|
        reached(t, id, x) && reached(t, id, y) && x != y && #[trigger] has_named(t[x.0 as int].methods@, nm) && #[trigger] has_named(
            t[y.0 as int].methods@,
            nm,
        ) implies collision_reported(b, from, nm) by {
        lemma_collision_kept(a, b, from, nm);
    }
}

proof fn lemma_collisions_from(t: Seq<TypeInfo>, id: TypeId, errs: Seq<SemanticError>, a: nat, b: nat)
    requires
        a <= b,
        collisions_reported(t, id, errs, b),
    ensures
        collisions_reported(t, id, errs, a),
{
    assert forall|x: TypeId, y: TypeId, nm: Seq<char>|
        reached(t, id, x) && reached(t, id, y) && x != y && #[trigger] has_named(t[x.0 as int].methods@, nm) && #[trigger] has_named(
            t[y.0 as int].methods@,
            nm,
        ) implies collision_reported(errs, a, nm) by {
        assert(collision_reported(errs, b, nm));
    }
}

/// `x` is reached from `id` within some number of steps.
pub open spec fn reached(t: Seq<TypeInfo>, id: TypeId, x: TypeId) -> bool {
    exists|k: nat| #[trigger] crate::types::reach_set(t, id, k).contains(x)
}

/// The extended protocols of each of the first `upto` entries of `queue`
/// are in `queue`.
pub open spec fn parents_queued(t: Seq<TypeInfo>, queue: Seq<TypeId>, upto: int) -> bool {
    forall|q: int, j: int|
        0 <= q < upto && 0 <= j < protocol_parents(t[queue[q].0 as int]).len() ==> queue.contains(
            #[trigger] protocol_parents(t[queue[q].0 as int])[j],
        )
}

/// The method names of each of the first `upto` entries of `queue` are in `ms`.
pub open spec fn methods_gathered(t: Seq<TypeInfo>, queue: Seq<TypeId>, upto: int, ms: Seq<Symbol>) -> bool {
    forall|q: int, nm: Seq<char>| 0 <= q < upto && #[trigger] has_named(t[queue[q].0 as int].methods@, nm) ==> has_named(ms, nm)
}

proof fn lemma_parents_queued_grow(t: Seq<TypeInfo>, a: Seq<TypeId>, b: Seq<TypeId>, upto: int)
    requires
        parents_queued(t, a, upto),
        upto <= a.len() <= b.len(),
        forall|k: int| 0 <= k < a.len() ==> #[trigger] b[k] == a[k],
        forall|y: TypeId| a.contains(y) ==> #[trigger] b.contains(y),
    ensures
        parents_queued(t, b, upto),
{
    assert forall|q: int, j: int|
        0 <= q < upto && 0 <= j < protocol_parents(t[b[q].0 as int]).len() implies b.contains(
        #[trigger] protocol_parents(t[b[q].0 as int])[j],
    ) by {
        assert(b[q] == a[q]);
        assert(a.contains(protocol_parents(t[a[q].0 as int])[j]));
    }
}

proof fn lemma_methods_gathered_grow(t: Seq<TypeInfo>, a: Seq<TypeId>, b: Seq<TypeId>, upto: int, ms: Seq<Symbol>)
    requires
        methods_gathered(t, a, upto, ms),
        upto <= a.len() <= b.len(),
        forall|k: int| 0 <= k < a.len() ==> #[trigger] b[k] == a[k],
    ensures
        methods_gathered(t, b, upto, ms),
{
    assert forall|q: int, nm: Seq<char>| 0 <= q < upto && #[trigger] has_named(t[b[q].0 as int].methods@, nm) implies has_named(ms, nm) by {
        assert(b[q] == a[q]);
    }
}

/// A queue that holds `id` and, with each entry, the protocols it extends,
/// holds every protocol `id` reaches.
proof fn lemma_reach_in_queue(t: Seq<TypeInfo>, id: TypeId, queue: Seq<TypeId>, k: nat)
    requires
        t.len() <= usize::MAX,
        queue.contains(id),
        parents_queued(t, queue, queue.len() as int),
    ensures
        forall|x: TypeId| #[trigger] crate::types::reach_set(t, id, k).contains(x) ==> queue.contains(x),
    decreases k,
{
    if k == 0 {
        assert forall|x: TypeId| #[trigger] crate::types::reach_set(t, id, k).contains(x) implies queue.contains(x) by {
            assert(x == id);
        }
    } else {
        let k0 = (k - 1) as nat;
        lemma_reach_in_queue(t, id, queue, k0);
        assert forall|x: TypeId| #[trigger] crate::types::reach_set(t, id, k).contains(x) implies queue.contains(x) by {
            crate::types::lemma_reach_step(t, id, x, k0);
            assert((k0 + 1) as nat == k);
            if !crate::types::reach_set(t, id, k0).contains(x) {
                let u = choose|u: int|
                    0 <= u < t.len() && #[trigger] crate::types::reach_set(t, id, k0).contains(TypeId(u as usize))
                        && protocol_parents(t[u]).contains(x);
                assert(queue.contains(TypeId(u as usize)));
                let q = choose|q: int| 0 <= q < queue.len() && queue[q] == TypeId(u as usize);
                let j = choose|j: int| 0 <= j < protocol_parents(t[u]).len() && protocol_parents(t[u])[j] == x;
                assert(queue[q].0 as int == u);
                assert(queue.contains(protocol_parents(t[queue[q].0 as int])[j]));
            }
        }
    }
}

/// The constructor parameters a type effectively takes: those it declares,
/// else those of its closest ancestor that declares some, else none.
pub open spec fn effective_params(t: Seq<TypeInfo>, chain: Seq<TypeId>) -> Seq<ConstructorParam>
    decreases chain.len(),
{
    if chain.len() == 0 {
        Seq::empty()
    } else {
        match t[chain[0].0 as int].declared_constructor_params {
            Some(ps) => ps@,
            None => effective_params(t, chain.drop_first()),
        }
    }
}

/// Two lists of constructor parameters with the same names and types.
pub open spec fn same_params(a: Seq<ConstructorParam>, b: Seq<ConstructorParam>) -> bool {
    &&& a.len() == b.len()
    &&& forall|i: int| 0 <= i < a.len() ==> (#[trigger] a[i]).name@ == b[i].name@ && a[i].ty == b[i].ty
}

proof fn lemma_resolve_persists(before: Seq<TypeInfo>, after: Seq<TypeInfo>, name: Seq<char>)
    requires
        keeps_types(before, after),
        exists|i: int| 0 <= i < before.len() && (#[trigger] before[i]).name@ == name,
    ensures
        exists|i: int| 0 <= i < after.len() && (#[trigger] after[i]).name@ == name,
{
    let i = choose|i: int| 0 <= i < before.len() && (#[trigger] before[i]).name@ == name;
    assert(after[i] == before[i]);
}

/// The name of declaration `j` was taken before it: for a function, by a
/// symbol of the innermost scope of `ctx` or an earlier function of
/// `decls`; for a type or protocol, by a type of `ctx` or an earlier type or
/// protocol of `decls`.
pub open spec fn name_taken(ctx: crate::context::SemanticContext, decls: Seq<Decl>, j: int) -> bool {
    let n = decl_name(decls[j]);
    if decls[j].node is Function {
        has_named(ctx.scopes@.last().symbols@, n) || exists|q: int|
            0 <= q < j && (#[trigger] decls[q]).node is Function && decl_name(decls[q]) == n
    } else {
        resolvable(ctx.types.infos@, n) || exists|q: int|
            0 <= q < j && !((#[trigger] decls[q]).node is Function) && decl_name(decls[q]) == n
    }
}

/// The provisional signature of a function whose parameters and result are
/// not known yet: `Object` for each of its `n` parameters and for its result.
pub open spec fn provisional(sym: Option<Symbol>, n: nat, object: TypeId) -> bool {
    sym matches Some(s) && s.ty matches SymbolType::Function { params, ret } && params@.len() == n && ret == object && forall|q: int|
        0 <= q < params@.len() ==> #[trigger] params@[q] == object
}

/// Among the errors of `errs` from index `from` is the duplicate error of
/// declaration `d` (`DuplicateFunction` or `DuplicateType`), at `d`.
pub open spec fn duplicate_reported(errs: Seq<SemanticError>, from: nat, d: Decl) -> bool {
    exists|e: int|
        from <= e < errs.len() && (#[trigger] errs[e]).span == d.span && (if d.node is Function {
            errs[e].kind matches SemanticErrorKind::DuplicateFunction { name } && name@ == decl_name(d)
        } else {
            errs[e].kind matches SemanticErrorKind::DuplicateType { name } && name@ == decl_name(d)
        })
}

/// The error a declaration whose name is taken gets: `DuplicateFunction`
/// for a function, `DuplicateType` for a type or protocol, at the declaration.
pub open spec fn duplicate_error(d: Decl) -> SemanticError {
    SemanticError {
        kind: match d.node {
            DeclKind::Function { name, .. } => SemanticErrorKind::DuplicateFunction { name },
            DeclKind::Type { name, .. } => SemanticErrorKind::DuplicateType { name },
            DeclKind::Protocol { name, .. } => SemanticErrorKind::DuplicateType { name },
        },
        span: d.span,
    }
}

/// The errors the first `n` declarations get when collected: one
/// `duplicate_error` for each whose name is taken, in order.
pub open spec fn duplicate_errors(ctx: crate::context::SemanticContext, decls: Seq<Decl>, n: int) -> Seq<SemanticError>
    decreases n,
{
    if n <= 0 {
        Seq::empty()
    } else {
        duplicate_errors(ctx, decls, n - 1) + if name_taken(ctx, decls, n - 1) {
            seq![duplicate_error(decls[n - 1])]
        } else {
            Seq::empty()
        }
    }
}

proof fn lemma_duplicate_reported_kept(a: Seq<SemanticError>, b: Seq<SemanticError>, from: nat, d: Decl)
    requires
        duplicate_reported(a, from, d),
        keeps_errors(a, b),
    ensures
        duplicate_reported(b, from, d),
{
    let e = choose|e: int|
        from <= e < a.len() && (#[trigger] a[e]).span == d.span && (if d.node is Function {
            a[e].kind matches SemanticErrorKind::DuplicateFunction { name } && name@ == decl_name(d)
        } else {
            a[e].kind matches SemanticErrorKind::DuplicateType { name } && name@ == decl_name(d)
        });
    assert(b[e] == a[e]);
}

impl SemanticAnalyzer {
    /// The first pass: every function is declared (with `Object` for each
    /// parameter and the result, until its signature is known) and every
    /// type and protocol gets an entry. A name already taken gives
    /// `DuplicateFunction` or `DuplicateType`. Afterwards every declared name
    /// can be found.
    pub fn collect_declarations(&mut self, decls: &[Decl])
        requires
            old(self).wf(),
        ensures
            decl_frame(*old(self), *final(self)),
            keeps_types(old(self).ctx.types.infos@, final(self).ctx.types.infos@),
            forall|j: int|
                0 <= j < decls@.len() ==> ((#[trigger] decls@[j]).node is Function ==> final(self).ctx.spec_lookup(
                    decl_name(decls@[j]),
                ) is Some),
            forall|j: int|
                0 <= j < decls@.len() ==> (!((#[trigger] decls@[j]).node is Function) ==> final(self).ctx.types.spec_resolve(
                    decl_name(decls@[j]),
                ) is Some),
            forall|k: int|
                old(self).diagnostics@.len() <= k < final(self).diagnostics@.len() ==> ((#[trigger] final(self).diagnostics@[k]).kind is DuplicateFunction
                    || final(self).diagnostics@[k].kind is DuplicateType),
            forall|j: int|
                0 <= j < decls@.len() && name_taken(old(self).ctx, decls@, j) ==> duplicate_reported(
                    final(self).diagnostics@,
                    old(self).diagnostics@.len(),
                    #[trigger] decls@[j],
                ),
            forall|j: int|
                0 <= j < decls@.len() && (#[trigger] decls@[j]).node is Function && !name_taken(old(self).ctx, decls@, j) ==> provisional(
                    final(self).ctx.spec_lookup(decl_name(decls@[j])),
                    decls@[j].node->Function_params@.len(),
                    old(self).object_id(),
                ),
            final(self).diagnostics@ == old(self).diagnostics@ + duplicate_errors(old(self).ctx, decls@, decls@.len() as int),
            forall|k: int|
                old(self).ty_count() <= k < final(self).ty_count() ==> (#[trigger] final(self).ctx.types.infos@[k]).parent is None,
            forall|j: int|
                0 <= j < decls@.len() && !((#[trigger] decls@[j]).node is Function) && !name_taken(old(self).ctx, decls@, j) ==> exists|k: int|
                    old(self).ty_count() <= k < final(self).ty_count() && (#[trigger] final(self).ctx.types.infos@[k]).name@ == decl_name(decls@[j])
                        && (final(self).ctx.types.infos@[k].kind is Protocol) == (decls@[j].node is Protocol),
    {
        let object_type = self.resolve_builtin("Object");
        let mut i: usize = 0;
        while i < decls.len()
            invariant
                self.wf(),
                i <= decls@.len(),
                keeps_errors(old(self).diagnostics@, self.diagnostics@),
                keeps_types(old(self).ctx.types.infos@, self.ctx.types.infos@),
                self.ctx.scopes@.len() == old(self).ctx.scopes@.len(),
                self.ctx.instantiation_budget == old(self).ctx.instantiation_budget,
                object_type.0 < self.ty_count(),
                forall|j: int|
                    0 <= j < i ==> ((#[trigger] decls@[j]).node is Function ==> self.ctx.spec_lookup(decl_name(decls@[j])) is Some),
                forall|j: int|
                    0 <= j < i ==> (!((#[trigger] decls@[j]).node is Function) ==> self.ctx.types.spec_resolve(
                        decl_name(decls@[j]),
                    ) is Some),
                forall|k: int|
                    old(self).diagnostics@.len() <= k < self.diagnostics@.len() ==> ((#[trigger] self.diagnostics@[k]).kind is DuplicateFunction
                        || self.diagnostics@[k].kind is DuplicateType),
                self.ctx.scopes@.len() >= 1,
                forall|n: Seq<char>| has_named(old(self).ctx.scopes@.last().symbols@, n) ==> #[trigger] has_named(self.ctx.scopes@.last().symbols@, n),
                forall|j: int| 0 <= j < i && (#[trigger] decls@[j]).node is Function ==> has_named(self.ctx.scopes@.last().symbols@, decl_name(decls@[j])),
                forall|j: int|
                    0 <= j < i && name_taken(old(self).ctx, decls@, j) ==> duplicate_reported(
                        self.diagnostics@,
                        old(self).diagnostics@.len(),
                        #[trigger] decls@[j],
                    ),
                object_type == old(self).object_id(),
                forall|n: Seq<char>|
                    #[trigger] has_named(self.ctx.scopes@.last().symbols@, n) ==> has_named(old(self).ctx.scopes@.last().symbols@, n)
                        || exists|q: int| 0 <= q < i && (#[trigger] decls@[q]).node is Function && decl_name(decls@[q]) == n,
                forall|j: int|
                    0 <= j < i && (#[trigger] decls@[j]).node is Function && !name_taken(old(self).ctx, decls@, j) ==> provisional(
                        self.ctx.spec_lookup(decl_name(decls@[j])),
                        decls@[j].node->Function_params@.len(),
                        old(self).object_id(),
                    ),
                self.diagnostics@ == old(self).diagnostics@ + duplicate_errors(old(self).ctx, decls@, i as int),
                forall|k: int| old(self).ty_count() <= k < self.ty_count() ==> (#[trigger] self.ctx.types.infos@[k]).parent is None,
                forall|k: int|
                    old(self).ty_count() <= k < self.ty_count() ==> exists|q: int|
                        0 <= q < i && !((#[trigger] decls@[q]).node is Function) && decl_name(decls@[q]) == (#[trigger] self.ctx.types.infos@[k]).name@,
                forall|j: int|
                    0 <= j < i && !((#[trigger] decls@[j]).node is Function) && !name_taken(old(self).ctx, decls@, j) ==> exists|k: int|
                        old(self).ty_count() <= k < self.ty_count() && (#[trigger] self.ctx.types.infos@[k]).name@ == decl_name(decls@[j])
                            && (self.ctx.types.infos@[k].kind is Protocol) == (decls@[j].node is Protocol),
            decreases decls.len() - i,
        {
            let decl = &decls[i];
            let ghost before = *self;
            match &decl.node {
                DeclKind::Function { name, params, .. } => {
                    let mut dummy_params: Vec<TypeId> = Vec::new();
                    let mut k: usize = 0;
                    while k < params.len()
                        invariant
                            k <= params@.len(),
                            dummy_params@.len() == k,
                            forall|q: int| 0 <= q < dummy_params@.len() ==> (#[trigger] dummy_params@[q]) == object_type,
                        decreases params.len() - k,
                    {
                        dummy_params.push(object_type);
                        k = k + 1;
                    }
                    let ghost provisional_ty = SymbolType::Function { params: dummy_params, ret: object_type };
                    let ok = self.ctx.declare(
                        Symbol {
                            name: name.clone(),
                            kind: SymbolKind::Function,
                            ty: SymbolType::Function { params: dummy_params, ret: object_type },
                            span: decl.span,
                        },
                    );
                    if !ok {
                        self.report(SemanticErrorKind::DuplicateFunction { name: name.clone() }, decl.span);
                        proof {
                            lemma_one_more_keeps(before.diagnostics@, self.diagnostics@);
                            let ss = self.ctx.scopes@.last().symbols@;
                            assert(crate::types::has_named(ss, name@));
                            assert(lookup_in(self.ctx.scopes@, name@) is Some);
                        }
                    }
                    proof {
                        assert forall|j: int|
                            0 <= j < i + 1 implies ((#[trigger] decls@[j]).node is Function ==> self.ctx.spec_lookup(
                            decl_name(decls@[j]),
                        ) is Some) by {
                            if j < i && decls@[j].node is Function && decl_name(decls@[j]) != name@ {
                                assert(self.ctx.spec_lookup(decl_name(decls@[j])) == before.ctx.spec_lookup(decl_name(decls@[j])));
                            }
                        }
                        let ls0 = before.ctx.scopes@.last().symbols@;
                        let ls1 = self.ctx.scopes@.last().symbols@;
                        assert forall|n: Seq<char>| has_named(ls0, n) implies #[trigger] has_named(ls1, n) by {
                            if ok {
                                let q = choose|q: int| 0 <= q < ls0.len() && (#[trigger] ls0[q]).name@ == n;
                                assert(ls1[q] == ls0[q]);
                            }
                        }
                        assert(has_named(ls1, name@)) by {
                            if ok {
                                assert(ls1[ls1.len() - 1].name@ == name@);
                            }
                        }
                        assert forall|j: int| 0 <= j < i + 1 && (#[trigger] decls@[j]).node is Function implies has_named(
                            ls1,
                            decl_name(decls@[j]),
                        ) by {
                            if j < i {
                                assert(has_named(ls0, decl_name(decls@[j])));
                            }
                        }
                        assert forall|n: Seq<char>|
                            #[trigger] has_named(ls1, n) implies has_named(old(self).ctx.scopes@.last().symbols@, n) || exists|q: int|
                                0 <= q < i + 1 && (#[trigger] decls@[q]).node is Function && decl_name(decls@[q]) == n by {
                            if n == name@ {
                                assert(decls@[i as int].node is Function && decl_name(decls@[i as int]) == n);
                            } else if ok {
                                let w = choose|w: int| 0 <= w < ls1.len() && (#[trigger] ls1[w]).name@ == n;
                                assert(w < ls0.len());
                                assert(ls0[w] == ls1[w]);
                                assert(has_named(ls0, n));
                            } else {
                                assert(has_named(ls0, n));
                            }
                        }
                        if !name_taken(old(self).ctx, decls@, i as int) {
                            if has_named(ls0, name@) {
                                if !has_named(old(self).ctx.scopes@.last().symbols@, name@) {
                                    let q = choose|q: int| 0 <= q < i && (#[trigger] decls@[q]).node is Function && decl_name(decls@[q]) == name@;
                                }
                            }
                            assert(ok);
                            assert(provisional(self.ctx.spec_lookup(name@), params@.len(), old(self).object_id()));
                        }
                        assert forall|j: int|
                            0 <= j < i + 1 && (#[trigger] decls@[j]).node is Function && !name_taken(old(self).ctx, decls@, j) implies provisional(
                            self.ctx.spec_lookup(decl_name(decls@[j])),
                            decls@[j].node->Function_params@.len(),
                            old(self).object_id(),
                        ) by {
                            if j < i {
                                if decl_name(decls@[j]) != name@ {
                                    assert(self.ctx.spec_lookup(decl_name(decls@[j])) == before.ctx.spec_lookup(decl_name(decls@[j])));
                                } else {
                                    assert(name_taken(old(self).ctx, decls@, i as int)) by {
                                        assert(decls@[j].node is Function && decl_name(decls@[j]) == name@);
                                    }
                                    assert(!ok);
                                }
                            }
                        }
                        if name_taken(old(self).ctx, decls@, i as int) {
                            if has_named(old(self).ctx.scopes@.last().symbols@, name@) {
                                assert(has_named(ls0, name@));
                            } else {
                                let q = choose|q: int| 0 <= q < i && (#[trigger] decls@[q]).node is Function && decl_name(decls@[q]) == name@;
                                assert(has_named(ls0, decl_name(decls@[q])));
                            }
                            assert(!ok);
                            let e = self.diagnostics@.len() - 1;
                            assert(self.diagnostics@[e].span == decls@[i as int].span);
                        }
                        assert forall|j: int|
                            0 <= j < i + 1 && name_taken(old(self).ctx, decls@, j) implies duplicate_reported(
                            self.diagnostics@,
                            old(self).diagnostics@.len(),
                            #[trigger] decls@[j],
                        ) by {
                            if j < i {
                                lemma_duplicate_reported_kept(before.diagnostics@, self.diagnostics@, old(self).diagnostics@.len(), decls@[j]);
                            }
                        }
                    }
                },
                DeclKind::Type { name, .. } => {
                    let ghost mid = *self;
                    let ok = self.ctx.insert_named_type(name.clone(), false).is_some();
                    if !ok {
                        self.report(SemanticErrorKind::DuplicateType { name: name.clone() }, decl.span);
                        proof { lemma_one_more_keeps(before.diagnostics@, self.diagnostics@); }
                    }
                    proof {
                        self.lemma_collect_type_step(before, decls, i as int, name@);
                        self.lemma_collect_type_duplicate(*old(self), before, decls, i as int, ok);
                        if !ok {
                            assert(self.diagnostics@.last() == duplicate_error(decls@[i as int]));
                            assert(self.diagnostics@ == before.diagnostics@.push(duplicate_error(decls@[i as int])));
                        }
                        Self::lemma_collect_type_entry(*old(self), before, *self, decls@, i as int, ok);
                    }
                },
                DeclKind::Protocol { name, .. } => {
                    let ghost mid = *self;
                    let ok = self.ctx.insert_named_type(name.clone(), true).is_some();
                    if !ok {
                        self.report(SemanticErrorKind::DuplicateType { name: name.clone() }, decl.span);
                        proof { lemma_one_more_keeps(before.diagnostics@, self.diagnostics@); }
                    }
                    proof {
                        self.lemma_collect_type_step(before, decls, i as int, name@);
                        self.lemma_collect_type_duplicate(*old(self), before, decls, i as int, ok);
                        if !ok {
                            assert(self.diagnostics@.last() == duplicate_error(decls@[i as int]));
                            assert(self.diagnostics@ == before.diagnostics@.push(duplicate_error(decls@[i as int])));
                        }
                        Self::lemma_collect_type_entry(*old(self), before, *self, decls@, i as int, ok);
                    }
                },
            }
            i = i + 1;
        }
    }

    /// One type or protocol declaration collected: the duplicate errors,
    /// the entries added and the names they come from, one step further.
    proof fn lemma_collect_type_entry(
        start: SemanticAnalyzer,
        before: SemanticAnalyzer,
        after: SemanticAnalyzer,
        decls: Seq<Decl>,
        i: int,
        ok: bool,
    )
        requires
            0 <= i < decls.len(),
            !(decls[i].node is Function),
            keeps_types(start.ctx.types.infos@, before.ctx.types.infos@),
            forall|j: int|
                0 <= j < i ==> (!((#[trigger] decls[j]).node is Function) ==> before.ctx.types.spec_resolve(decl_name(decls[j])) is Some),
            before.diagnostics@ == start.diagnostics@ + duplicate_errors(start.ctx, decls, i),
            forall|k: int| start.ty_count() <= k < before.ty_count() ==> (#[trigger] before.ctx.types.infos@[k]).parent is None,
            forall|k: int|
                start.ty_count() <= k < before.ty_count() ==> exists|q: int|
                    0 <= q < i && !((#[trigger] decls[q]).node is Function) && decl_name(decls[q]) == (#[trigger] before.ctx.types.infos@[k]).name@,
            forall|j: int|
                0 <= j < i && !((#[trigger] decls[j]).node is Function) && !name_taken(start.ctx, decls, j) ==> exists|k: int|
                    start.ty_count() <= k < before.ty_count() && (#[trigger] before.ctx.types.infos@[k]).name@ == decl_name(decls[j])
                        && (before.ctx.types.infos@[k].kind is Protocol) == (decls[j].node is Protocol),
            ok <==> before.ctx.types.spec_resolve(decl_name(decls[i])) is None,
            !ok ==> after.ctx.types.infos@ == before.ctx.types.infos@,
            ok ==> after.ty_count() == before.ty_count() + 1,
            ok ==> after.ctx.types.infos@[before.ty_count() as int].name@ == decl_name(decls[i]),
            ok ==> (after.ctx.types.infos@[before.ty_count() as int].kind is Protocol) == (decls[i].node is Protocol),
            ok ==> after.ctx.types.infos@[before.ty_count() as int].parent is None,
            forall|k: int| 0 <= k < before.ty_count() ==> #[trigger] after.ctx.types.infos@[k] == before.ctx.types.infos@[k],
            ok ==> after.diagnostics@ == before.diagnostics@,
            !ok ==> after.diagnostics@ == before.diagnostics@.push(duplicate_error(decls[i])),
        ensures
            after.diagnostics@ == start.diagnostics@ + duplicate_errors(start.ctx, decls, i + 1),
            forall|k: int| start.ty_count() <= k < after.ty_count() ==> (#[trigger] after.ctx.types.infos@[k]).parent is None,
            forall|k: int|
                start.ty_count() <= k < after.ty_count() ==> exists|q: int|
                    0 <= q < i + 1 && !((#[trigger] decls[q]).node is Function) && decl_name(decls[q]) == (#[trigger] after.ctx.types.infos@[k]).name@,
            forall|j: int|
                0 <= j < i + 1 && !((#[trigger] decls[j]).node is Function) && !name_taken(start.ctx, decls, j) ==> exists|k: int|
                    start.ty_count() <= k < after.ty_count() && (#[trigger] after.ctx.types.infos@[k]).name@ == decl_name(decls[j])
                        && (after.ctx.types.infos@[k].kind is Protocol) == (decls[j].node is Protocol),
    {
        let n = decl_name(decls[i]);
        let t0 = start.ctx.types.infos@;
        let tb = before.ctx.types.infos@;
        let ta = after.ctx.types.infos@;
        if name_taken(start.ctx, decls, i) {
            if resolvable(t0, n) {
                lemma_resolve_persists(t0, tb, n);
            } else {
                let q = choose|q: int| 0 <= q < i && !((#[trigger] decls[q]).node is Function) && decl_name(decls[q]) == n;
                assert(before.ctx.types.spec_resolve(decl_name(decls[q])) is Some);
            }
            assert(!ok);
        } else {
            if resolvable(tb, n) {
                let k = choose|k: int| 0 <= k < tb.len() && (#[trigger] tb[k]).name@ == n;
                if k < t0.len() {
                    assert(tb[k] == t0[k]);
                    assert(resolvable(t0, n));
                } else {
                    let q = choose|q: int|
                        0 <= q < i && !((#[trigger] decls[q]).node is Function) && decl_name(decls[q]) == (#[trigger] tb[k]).name@;
                    assert(name_taken(start.ctx, decls, i));
                }
            }
            assert(ok);
        }
        assert(duplicate_errors(start.ctx, decls, i + 1) == duplicate_errors(start.ctx, decls, i) + if name_taken(start.ctx, decls, i) {
            seq![duplicate_error(decls[i])]
        } else {
            Seq::<SemanticError>::empty()
        });
        if ok {
            assert(after.diagnostics@ =~= start.diagnostics@ + duplicate_errors(start.ctx, decls, i + 1));
        } else {
            assert(after.diagnostics@ =~= start.diagnostics@ + duplicate_errors(start.ctx, decls, i + 1));
        }
        assert forall|k: int| start.ty_count() <= k < after.ty_count() implies (#[trigger] ta[k]).parent is None by {
            if k < tb.len() {
                assert(ta[k] == tb[k]);
            }
        }
        assert forall|k: int| start.ty_count() <= k < after.ty_count() implies exists|q: int|
            0 <= q < i + 1 && !((#[trigger] decls[q]).node is Function) && decl_name(decls[q]) == (#[trigger] ta[k]).name@ by {
            if k < tb.len() {
                assert(ta[k] == tb[k]);
                let q = choose|q: int| 0 <= q < i && !((#[trigger] decls[q]).node is Function) && decl_name(decls[q]) == (#[trigger] tb[k]).name@;
                assert(0 <= q < i + 1 && !(decls[q].node is Function) && decl_name(decls[q]) == ta[k].name@);
            } else {
                assert(0 <= i < i + 1 && !(decls[i].node is Function) && decl_name(decls[i]) == ta[k].name@);
            }
        }
        assert forall|j: int|
            0 <= j < i + 1 && !((#[trigger] decls[j]).node is Function) && !name_taken(start.ctx, decls, j) implies exists|k: int|
                start.ty_count() <= k < after.ty_count() && (#[trigger] ta[k]).name@ == decl_name(decls[j]) && (ta[k].kind is Protocol) == (
                decls[j].node is Protocol) by {
            if j < i {
                let k = choose|k: int|
                    start.ty_count() <= k < before.ty_count() && (#[trigger] tb[k]).name@ == decl_name(decls[j]) && (tb[k].kind is Protocol)
                        == (decls[j].node is Protocol);
                assert(ta[k] == tb[k]);
            } else {
                let k = tb.len() as int;
                assert(start.ty_count() <= k < after.ty_count() && ta[k].name@ == decl_name(decls[j]));
            }
        }
    }

    proof fn lemma_collect_type_duplicate(&self, start: SemanticAnalyzer, before: SemanticAnalyzer, decls: &[Decl], i: int, ok: bool)
        requires
            0 <= i < decls@.len(),
            !(decls@[i].node is Function),
            keeps_types(start.ctx.types.infos@, before.ctx.types.infos@),
            keeps_errors(start.diagnostics@, before.diagnostics@),
            forall|j: int|
                0 <= j < i ==> (!((#[trigger] decls@[j]).node is Function) ==> before.ctx.types.spec_resolve(
                    decl_name(decls@[j]),
                ) is Some),
            ok <==> before.ctx.types.spec_resolve(decl_name(decls@[i])) is None,
            ok ==> self.diagnostics@ == before.diagnostics@,
            !ok ==> one_more(before.diagnostics@, self.diagnostics@, decls@[i].span),
            !ok ==> (self.diagnostics@.last().kind matches SemanticErrorKind::DuplicateType { name } && name@ == decl_name(decls@[i])),
            forall|j: int|
                0 <= j < i && name_taken(start.ctx, decls@, j) ==> duplicate_reported(
                    before.diagnostics@,
                    start.diagnostics@.len(),
                    #[trigger] decls@[j],
                ),
        ensures
            forall|j: int|
                0 <= j < i + 1 && name_taken(start.ctx, decls@, j) ==> duplicate_reported(
                    self.diagnostics@,
                    start.diagnostics@.len(),
                    #[trigger] decls@[j],
                ),
    {
        let n = decl_name(decls@[i]);
        if name_taken(start.ctx, decls@, i) {
            if resolvable(start.ctx.types.infos@, n) {
                lemma_resolve_persists(start.ctx.types.infos@, before.ctx.types.infos@, n);
            } else {
                let q = choose|q: int| 0 <= q < i && !((#[trigger] decls@[q]).node is Function) && decl_name(decls@[q]) == n;
                assert(before.ctx.types.spec_resolve(decl_name(decls@[q])) is Some);
            }
            assert(!ok);
            let e = self.diagnostics@.len() - 1;
            assert(self.diagnostics@[e].span == decls@[i].span);
            assert(duplicate_reported(self.diagnostics@, start.diagnostics@.len(), decls@[i]));
        }
        assert forall|j: int|
            0 <= j < i + 1 && name_taken(start.ctx, decls@, j) implies duplicate_reported(
            self.diagnostics@,
            start.diagnostics@.len(),
            #[trigger] decls@[j],
        ) by {
            if j < i {
                lemma_duplicate_reported_kept(before.diagnostics@, self.diagnostics@, start.diagnostics@.len(), decls@[j]);
            }
        }
    }

    proof fn lemma_collect_type_step(&self, before: SemanticAnalyzer, decls: &[Decl], i: int, name: Seq<char>)
        requires
            0 <= i < decls@.len(),
            decl_name(decls@[i]) == name,
            !(decls@[i].node is Function),
            self.ctx.scopes == before.ctx.scopes,
            keeps_types(before.ctx.types.infos@, self.ctx.types.infos@),
            exists|k: int| 0 <= k < self.ctx.types.infos@.len() && (#[trigger] self.ctx.types.infos@[k]).name@ == name,
            forall|j: int|
                0 <= j < i ==> ((#[trigger] decls@[j]).node is Function ==> before.ctx.spec_lookup(decl_name(decls@[j])) is Some),
            forall|j: int|
                0 <= j < i ==> (!((#[trigger] decls@[j]).node is Function) ==> before.ctx.types.spec_resolve(
                    decl_name(decls@[j]),
                ) is Some),
        ensures
            forall|j: int|
                0 <= j < i + 1 ==> ((#[trigger] decls@[j]).node is Function ==> self.ctx.spec_lookup(decl_name(decls@[j])) is Some),
            forall|j: int|
                0 <= j < i + 1 ==> (!((#[trigger] decls@[j]).node is Function) ==> self.ctx.types.spec_resolve(
                    decl_name(decls@[j]),
                ) is Some),
    {
        assert forall|j: int|
            0 <= j < i + 1 implies (!((#[trigger] decls@[j]).node is Function) ==> self.ctx.types.spec_resolve(
            decl_name(decls@[j]),
        ) is Some) by {
            if j < i && !(decls@[j].node is Function) {
                assert(before.ctx.types.spec_resolve(decl_name(decls@[j])) is Some);
                lemma_resolve_persists(before.ctx.types.infos@, self.ctx.types.infos@, decl_name(decls@[j]));
            }
        }
    }
}


/// Some entry of the table has this name.
pub open spec fn resolvable(t: Seq<TypeInfo>, name: Seq<char>) -> bool {
    exists|k: int| 0 <= k < t.len() && (#[trigger] t[k]).name@ == name
}

/// Every protocol declaration of `decls` extends only names of the table.
pub open spec fn protocol_parents_known(t: Seq<TypeInfo>, decls: Seq<Decl>) -> bool {
    forall|j: int|
        0 <= j < decls.len() ==> match (#[trigger] decls[j]).node {
            DeclKind::Protocol { parents, .. } => match parents {
                Some(ps) => forall|q: int| 0 <= q < ps@.len() ==> resolvable(t, #[trigger] ps@[q]@),
                None => true,
            },
            _ => true,
        }
}

/// Two tables with the same names in the same places, protocols where
/// protocols are.
pub open spec fn same_shape(a: Seq<TypeInfo>, b: Seq<TypeInfo>) -> bool {
    &&& a.len() == b.len()
    &&& forall|k: int| 0 <= k < a.len() ==> (#[trigger] a[k]).name == b[k].name
    &&& forall|k: int| 0 <= k < a.len() ==> ((#[trigger] a[k]).kind is Protocol <==> b[k].kind is Protocol)
}

/// The types that the known names among `ps` resolve to, in order.
pub open spec fn known_parent_ids(t: crate::types::TypeTable, ps: Seq<String>) -> Seq<TypeId>
    decreases ps.len(),
{
    if ps.len() == 0 {
        Seq::empty()
    } else {
        let rest = known_parent_ids(t, ps.drop_last());
        match t.spec_resolve(ps.last()@) {
            Some(id) => rest.push(id),
            None => rest,
        }
    }
}

/// The protocols a protocol declaration extends, among those known.
pub open spec fn declared_protocol_parents(t: crate::types::TypeTable, d: Decl) -> Seq<TypeId> {
    match d.node->Protocol_parents {
        Some(ps) => known_parent_ids(t, ps@),
        None => Seq::empty(),
    }
}

proof fn lemma_same_shape_known_parents(a: crate::types::TypeTable, b: crate::types::TypeTable, ps: Seq<String>)
    requires
        same_shape(a.infos@, b.infos@),
    ensures
        known_parent_ids(a, ps) == known_parent_ids(b, ps),
    decreases ps.len(),
{
    if ps.len() > 0 {
        lemma_same_shape_known_parents(a, b, ps.drop_last());
        lemma_same_names_same_resolve(a, b, ps.last()@);
    }
}

/// `decls[j]` is the last protocol declaration named as it is among `decls[..upto]`.
pub open spec fn last_protocol_decl(decls: Seq<Decl>, j: int, upto: int) -> bool {
    &&& 0 <= j < upto <= decls.len()
    &&& decls[j].node is Protocol
    &&& forall|k: int|
        j < k < upto ==> !((#[trigger] decls[k]).node is Protocol && decls[k].node->Protocol_name@ == decls[j].node->Protocol_name@)
}

/// After the signatures pass, protocol `decls[j]` (when its name is a
/// protocol of `t`) extends the known protocols it names, in order.
pub open spec fn protocol_parents_set(t: crate::types::TypeTable, after: Seq<TypeInfo>, d: Decl) -> bool {
    t.spec_resolve(d.node->Protocol_name@) is Some && t.infos@[(t.spec_resolve(d.node->Protocol_name@)->0).0 as int].kind is Protocol
        ==> protocol_parents(after[(t.spec_resolve(d.node->Protocol_name@)->0).0 as int]) == declared_protocol_parents(t, d)
}

/// Each protocol declared last under its name among `decls[..upto]` has
/// had its parents set (see `protocol_parents_set`).
#[verifier::opaque]
pub open spec fn protocol_parents_set_upto(t0: crate::types::TypeTable, after: Seq<TypeInfo>, decls: Seq<Decl>, upto: int) -> bool {
    forall|j: int|
        #![trigger decls[j]]
        last_protocol_decl(decls, j, upto) ==> protocol_parents_set(t0, after, decls[j])
}

/// `info` holds the constructor parameters that type declaration `d`
/// declares: their names, and the types their annotations name in `t`.
pub open spec fn declared_params_set(t: crate::types::TypeTable, info: TypeInfo, d: Decl) -> bool {
    match (d.node->Type_params, info.declared_constructor_params) {
        (Some(ps), Some(v)) => v@.len() == ps@.len() && forall|q: int|
            0 <= q < ps@.len() ==> (#[trigger] v@[q]).name@ == ps@[q].0@ && v@[q].ty == opt_resolve(t, ps@[q].1),
        (None, None) => true,
        _ => false,
    }
}

/// Each type declared last under its name among `decls[..upto]`, when
/// its name is a type of `t0`, has its declared constructor parameters in
/// `after` (see `declared_params_set`).
#[verifier::opaque]
pub open spec fn type_params_set_upto(t0: crate::types::TypeTable, after: Seq<TypeInfo>, decls: Seq<Decl>, upto: int) -> bool {
    forall|j: int|
        #![trigger decls[j]]
        last_type_decl(decls, j, upto) && t0.spec_resolve(decls[j].node->Type_name@) is Some ==> declared_params_set(
            t0,
            after[(t0.spec_resolve(decls[j].node->Type_name@)->0).0 as int],
            decls[j],
        )
}

proof fn lemma_type_params_step(t0: crate::types::TypeTable, tb: crate::types::TypeTable, after: Seq<TypeInfo>, decls: Seq<Decl>, i: int)
    requires
        0 <= i < decls.len(),
        same_shape(t0.infos@, tb.infos@),
        after.len() == tb.infos@.len(),
        t0.infos@.len() <= usize::MAX,
        type_params_set_upto(t0, tb.infos@, decls, i),
        decls[i].node is Type && tb.spec_resolve(decls[i].node->Type_name@) is Some ==> declared_params_set(
            tb,
            after[(tb.spec_resolve(decls[i].node->Type_name@)->0).0 as int],
            decls[i],
        ),
        decls[i].node is Type && tb.spec_resolve(decls[i].node->Type_name@) is Some ==> forall|k: int|
            0 <= k < tb.infos@.len() && k != (tb.spec_resolve(decls[i].node->Type_name@)->0).0 ==> (#[trigger] after[k]).declared_constructor_params
                == tb.infos@[k].declared_constructor_params,
        !(decls[i].node is Type && tb.spec_resolve(decls[i].node->Type_name@) is Some) ==> forall|k: int|
            0 <= k < tb.infos@.len() ==> (#[trigger] after[k]).declared_constructor_params == tb.infos@[k].declared_constructor_params,
    ensures
        type_params_set_upto(t0, after, decls, i + 1),
{
    reveal(type_params_set_upto);
    assert forall|j: int|
        #![trigger decls[j]]
        last_type_decl(decls, j, i + 1) && t0.spec_resolve(decls[j].node->Type_name@) is Some implies declared_params_set(
            t0,
            after[(t0.spec_resolve(decls[j].node->Type_name@)->0).0 as int],
            decls[j],
        ) by {
        let d = decls[j];
        let nm = d.node->Type_name@;
        lemma_same_names_same_resolve(t0, tb, nm);
        lemma_resolved_in_table(t0, nm);
        let id = t0.spec_resolve(nm)->0;
        if j == i {
            match d.node->Type_params {
                Some(ps) => {
                    assert forall|q: int| 0 <= q < ps@.len() implies opt_resolve(t0, #[trigger] ps@[q].1) == opt_resolve(tb, ps@[q].1) by {
                        match ps@[q].1 {
                            Some(a) => lemma_same_names_same_resolve(t0, tb, a@),
                            None => {},
                        }
                    }
                },
                None => {},
            }
        } else {
            assert(last_type_decl(decls, j, i));
            let di = decls[i];
            if di.node is Type && tb.spec_resolve(di.node->Type_name@) is Some {
                assert(di.node->Type_name@ != nm);
                lemma_same_names_same_resolve(t0, tb, di.node->Type_name@);
                lemma_resolved_name(t0, di.node->Type_name@);
                lemma_resolved_name(t0, nm);
            }
            assert(after[id.0 as int].declared_constructor_params == tb.infos@[id.0 as int].declared_constructor_params);
        }
    }
}

proof fn lemma_protocol_parents_step(
    t0: crate::types::TypeTable,
    tb: crate::types::TypeTable,
    after: Seq<TypeInfo>,
    decls: Seq<Decl>,
    i: int,
)
    requires
        0 <= i < decls.len(),
        same_shape(t0.infos@, tb.infos@),
        after.len() == tb.infos@.len(),
        t0.infos@.len() <= usize::MAX,
        protocol_parents_set_upto(t0, tb.infos@, decls, i),
        decls[i].node is Protocol ==> protocol_parents_set(tb, after, decls[i]),
        decls[i].node is Protocol ==> forall|k: int|
            0 <= k < tb.infos@.len() && tb.spec_resolve(decls[i].node->Protocol_name@) != Some(TypeId(k as usize)) ==> protocol_parents(
                #[trigger] after[k],
            ) == protocol_parents(tb.infos@[k]),
        !(decls[i].node is Protocol) ==> forall|k: int|
            0 <= k < tb.infos@.len() ==> protocol_parents(#[trigger] after[k]) == protocol_parents(tb.infos@[k]),
    ensures
        protocol_parents_set_upto(t0, after, decls, i + 1),
{
    reveal(protocol_parents_set_upto);
    assert forall|j: int|
        #![trigger decls[j]]
        last_protocol_decl(decls, j, i + 1) implies protocol_parents_set(t0, after, decls[j]) by {
        let d = decls[j];
        let nm = d.node->Protocol_name@;
        lemma_same_names_same_resolve(t0, tb, nm);
        if t0.spec_resolve(nm) is Some {
            lemma_resolved_in_table(t0, nm);
            let id = t0.spec_resolve(nm)->0;
            if j == i {
                match d.node->Protocol_parents {
                    Some(ps) => {
                        lemma_same_shape_known_parents(t0, tb, ps@);
                    },
                    None => {},
                }
            } else {
                assert(last_protocol_decl(decls, j, i));
                let di = decls[i];
                if di.node is Protocol {
                    assert(di.node->Protocol_name@ != nm);
                    lemma_same_names_same_resolve(t0, tb, di.node->Protocol_name@);
                    if t0.spec_resolve(di.node->Protocol_name@) is Some {
                        lemma_resolved_name(t0, di.node->Protocol_name@);
                        lemma_resolved_name(t0, nm);
                        assert(tb.spec_resolve(di.node->Protocol_name@) != Some(TypeId(id.0 as int as usize)));
                    }
                    assert(protocol_parents(after[id.0 as int]) == protocol_parents(tb.infos@[id.0 as int]));
                } else {
                    assert(protocol_parents(after[id.0 as int]) == protocol_parents(tb.infos@[id.0 as int]));
                }
            }
        }
    }
}

/// Whether a declaration extends only known names (true for non-protocols).
pub open spec fn parents_known(t: Seq<TypeInfo>, d: Decl) -> bool {
    match d.node {
        DeclKind::Protocol { parents, .. } => match parents {
            Some(ps) => forall|q: int| 0 <= q < ps@.len() ==> resolvable(t, #[trigger] ps@[q]@),
            None => true,
        },
        _ => true,
    }
}

proof fn lemma_ppk_step(t: Seq<TypeInfo>, decls: Seq<Decl>, i: int)
    requires
        0 <= i < decls.len(),
    ensures
        protocol_parents_known(t, decls.take(i + 1)) == (protocol_parents_known(t, decls.take(i)) && parents_known(
            t,
            decls[i],
        )),
{
    let a = decls.take(i);
    let b = decls.take(i + 1);
    assert(b[i] == decls[i]);
    assert forall|j: int| 0 <= j < a.len() implies #[trigger] b[j] == a[j] by {}
    if protocol_parents_known(t, b) {
        assert forall|j: int| 0 <= j < a.len() implies match (#[trigger] a[j]).node {
            DeclKind::Protocol { parents, .. } => match parents {
                Some(ps) => forall|q: int| 0 <= q < ps@.len() ==> resolvable(t, #[trigger] ps@[q]@),
                None => true,
            },
            _ => true,
        } by {
            assert(b[j] == a[j]);
        }
        assert(parents_known(t, b[i]));
    }
    if protocol_parents_known(t, a) && parents_known(t, decls[i]) {
        assert forall|j: int| 0 <= j < b.len() implies match (#[trigger] b[j]).node {
            DeclKind::Protocol { parents, .. } => match parents {
                Some(ps) => forall|q: int| 0 <= q < ps@.len() ==> resolvable(t, #[trigger] ps@[q]@),
                None => true,
            },
            _ => true,
        } by {
            if j < i {
                assert(b[j] == a[j]);
            }
        }
    }
}

proof fn lemma_same_names_resolvable(a: Seq<TypeInfo>, b: Seq<TypeInfo>)
    requires
        same_shape(a, b),
    ensures
        forall|n: Seq<char>| #[trigger] resolvable(a, n) == resolvable(b, n),
{
    assert forall|n: Seq<char>| #[trigger] resolvable(a, n) == resolvable(b, n) by {
        if resolvable(a, n) {
            let k = choose|k: int| 0 <= k < a.len() && (#[trigger] a[k]).name@ == n;
            assert(b[k].name == a[k].name);
        }
        if resolvable(b, n) {
            let k = choose|k: int| 0 <= k < b.len() && (#[trigger] b[k]).name@ == n;
            assert(b[k].name == a[k].name);
        }
    }
}

/// The builtin types a class may not extend.
pub fn is_primitive_name(n: &str) -> (b: bool)
    ensures
        b == (n@ == "Number"@ || n@ == "String"@ || n@ == "Boolean"@),
{
    let a = String::from_str(n);
    a == String::from_str("Number") || a == String::from_str("String") || a == String::from_str("Boolean")
}

/// The type a parameter has in a concrete signature: its annotation, when
/// that names a known type other than a protocol.
pub open spec fn concrete_param(t: crate::types::TypeTable, p: Param) -> Option<TypeId> {
    match p.1 {
        Some(a) => match t.spec_resolve(a@) {
            Some(id) => if t.infos@[id.0 as int].kind is Protocol {
                None
            } else {
                Some(id)
            },
            None => None,
        },
        None => None,
    }
}

/// The signature of a function whose parameters all have concrete types
/// and whose result is annotated with a known type; `None` for a generic one.
pub open spec fn concrete_signature(t: crate::types::TypeTable, params: Seq<Param>, ret: Option<String>) -> Option<(Seq<TypeId>, TypeId)> {
    if (forall|q: int| 0 <= q < params.len() ==> (#[trigger] concrete_param(t, params[q])) is Some) && ret is Some
        && t.spec_resolve(ret->0@) is Some {
        Some((Seq::new(params.len(), |q: int| concrete_param(t, params[q])->0), t.spec_resolve(ret->0@)->0))
    } else {
        None
    }
}

/// `decls[j]` is the last function declaration named as it is among `decls[..upto]`.
pub open spec fn last_function_decl(decls: Seq<Decl>, j: int, upto: int) -> bool {
    &&& 0 <= j < upto <= decls.len()
    &&& decls[j].node is Function
    &&& forall|k: int|
        j < k < upto ==> !((#[trigger] decls[k]).node is Function && decls[k].node->Function_name@ == decls[j].node->Function_name@)
}

/// Tables of the same shape agree on concrete signatures.
proof fn lemma_same_shape_signature(a: crate::types::TypeTable, b: crate::types::TypeTable, params: Seq<Param>, ret: Option<String>)
    requires
        same_shape(a.infos@, b.infos@),
    ensures
        concrete_signature(a, params, ret) == concrete_signature(b, params, ret),
        forall|sym: Option<Symbol>| #[trigger] carries_signature(sym, a, params, ret) == carries_signature(sym, b, params, ret),
{
    assert forall|q: int| 0 <= q < params.len() implies #[trigger] protocol_param(a, params[q]) == protocol_param(b, params[q]) by {
        match params[q].1 {
            Some(x) => {
                lemma_same_names_same_resolve(a, b, x@);
                match a.spec_resolve(x@) {
                    Some(id) => {
                        lemma_resolved_in_table(a, x@);
                        assert(a.infos@[id.0 as int].kind is Protocol <==> b.infos@[id.0 as int].kind is Protocol);
                    },
                    None => {},
                }
            },
            None => {},
        }
    }
    assert forall|q: int| 0 <= q < params.len() implies #[trigger] concrete_param(a, params[q]) == concrete_param(b, params[q]) by {
        match params[q].1 {
            Some(x) => {
                lemma_same_names_same_resolve(a, b, x@);
                match a.spec_resolve(x@) {
                    Some(id) => {
                        lemma_resolved_in_table(a, x@);
                        assert(a.infos@[id.0 as int].kind is Protocol <==> b.infos@[id.0 as int].kind is Protocol);
                    },
                    None => {},
                }
            },
            None => {},
        }
    }
    match ret {
        Some(r) => {
            lemma_same_names_same_resolve(a, b, r@);
        },
        None => {},
    }
    let all_a = forall|q: int| 0 <= q < params.len() ==> (#[trigger] concrete_param(a, params[q])) is Some;
    let all_b = forall|q: int| 0 <= q < params.len() ==> (#[trigger] concrete_param(b, params[q])) is Some;
    assert(all_a == all_b) by {
        if all_a {
            assert forall|q: int| 0 <= q < params.len() implies (#[trigger] concrete_param(b, params[q])) is Some by {
                assert(concrete_param(a, params[q]) is Some);
            }
        }
        if all_b {
            assert forall|q: int| 0 <= q < params.len() implies (#[trigger] concrete_param(a, params[q])) is Some by {
                assert(concrete_param(b, params[q]) is Some);
            }
        }
    }
    assert(Seq::new(params.len(), |q: int| concrete_param(a, params[q])->0) =~= Seq::new(params.len(), |q: int| concrete_param(b, params[q])->0));
    assert(Seq::new(params.len(), |q: int| concrete_param(a, params[q])) =~= Seq::new(params.len(), |q: int| concrete_param(b, params[q])));
    assert(Seq::new(params.len(), |q: int| protocol_param(a, params[q])) =~= Seq::new(params.len(), |q: int| protocol_param(b, params[q])));
    match ret {
        Some(r) => {
            lemma_same_names_same_resolve(a, b, r@);
        },
        None => {},
    }
    assert(opt_resolve(a, ret) == opt_resolve(b, ret));
}

/// What a name resolves to is an entry of the table with that name.
pub proof fn lemma_resolved_name(a: crate::types::TypeTable, n: Seq<char>)
    requires
        a.spec_resolve(n) is Some,
        a.infos@.len() <= usize::MAX,
    ensures
        (a.spec_resolve(n)->0).0 < a.infos@.len(),
        a.infos@[(a.spec_resolve(n)->0).0 as int].name@ == n,
{
    lemma_resolved_exists(a, n);
    let i = choose|i: int| a.is_resolved(n, i);
    assert(a.is_resolved(n, i));
}

/// What a name resolves to is an entry of the table.
proof fn lemma_resolved_in_table(a: crate::types::TypeTable, n: Seq<char>)
    requires
        a.spec_resolve(n) is Some,
    ensures
        (a.spec_resolve(n)->0).0 < a.infos@.len(),
{
    lemma_resolved_exists(a, n);
    let i = choose|i: int| a.is_resolved(n, i);
    assert(a.is_resolved(n, i));
}

/// The parent a type declaration gives its type when its parent clause names
/// a known type: none for a builtin other than `Object`, else that type.
pub open spec fn declared_parent(t: crate::types::TypeTable, d: Decl) -> Option<Option<TypeId>> {
    match d.node {
        DeclKind::Type { parent: Some(info), .. } => match t.spec_resolve(info.node.parent_name@) {
            Some(pid) => if info.node.parent_name@ == "Number"@ || info.node.parent_name@ == "String"@ || info.node.parent_name@
                == "Boolean"@ {
                Some(None)
            } else {
                Some(Some(pid))
            },
            None => None,
        },
        _ => None,
    }
}

/// Among the errors of `errs` from index `from` is
/// `InvalidInheritanceFromPrimitive` for type declaration `d`, at its parent
/// clause.
pub open spec fn primitive_parent_reported(errs: Seq<SemanticError>, from: nat, d: Decl) -> bool {
    exists|e: int|
        from <= e < errs.len() && (#[trigger] errs[e]).span == d.node->Type_parent->0.span && (errs[e].kind matches SemanticErrorKind::InvalidInheritanceFromPrimitive {
            child,
            parent,
        } && child@ == d.node->Type_name@ && parent@ == d.node->Type_parent->0.node.parent_name@)
}

proof fn lemma_primitive_parent_reported_kept(a: Seq<SemanticError>, b: Seq<SemanticError>, from: nat, d: Decl)
    requires
        primitive_parent_reported(a, from, d),
        keeps_errors(a, b),
    ensures
        primitive_parent_reported(b, from, d),
{
    let e = choose|e: int|
        from <= e < a.len() && (#[trigger] a[e]).span == d.node->Type_parent->0.span && (a[e].kind matches SemanticErrorKind::InvalidInheritanceFromPrimitive {
            child,
            parent,
        } && child@ == d.node->Type_name@ && parent@ == d.node->Type_parent->0.node.parent_name@);
    assert(b[e] == a[e]);
}

/// `typed` holds, in order, the analysed forms of some of the functions
/// and types of `decls`: at increasing positions `idx`, each at the span of
/// its declaration and of its kind (a function keeps its name).
pub open spec fn analysed_in_order(decls: Seq<Decl>, typed: Seq<TypedDecl>, idx: Seq<int>) -> bool {
    &&& idx.len() == typed.len()
    &&& forall|a: int, b: int| 0 <= a < b < idx.len() ==> #[trigger] idx[a] < #[trigger] idx[b]
    &&& forall|k: int|
        0 <= k < idx.len() ==> {
            &&& 0 <= #[trigger] idx[k] < decls.len()
            &&& typed[k].span == decls[idx[k]].span
            &&& match typed[k].node {
                TypedDeclKind::Function { name, .. } => decls[idx[k]].node is Function && name@ == decls[idx[k]].node->Function_name@,
                TypedDeclKind::Type { .. } => decls[idx[k]].node is Type,
            }
        }
}

/// Declaration `j` is among those analysed (positions `idx`).
pub open spec fn analysed_at(idx: Seq<int>, j: int) -> bool {
    exists|k: int| 0 <= k < idx.len() && #[trigger] idx[k] == j
}

proof fn lemma_analysed_at_push(idx: Seq<int>, i: int, j: int)
    ensures
        j != i ==> analysed_at(idx.push(i), j) == analysed_at(idx, j),
        analysed_at(idx.push(i), i),
{
    let n = idx.push(i);
    assert(n[idx.len() as int] == i);
    if j != i {
        if analysed_at(n, j) {
            let k = choose|k: int| 0 <= k < n.len() && #[trigger] n[k] == j;
            assert(k < idx.len());
            assert(idx[k] == n[k]);
        }
        if analysed_at(idx, j) {
            let k = choose|k: int| 0 <= k < idx.len() && #[trigger] idx[k] == j;
            assert(n[k] == idx[k]);
        }
    }
}

/// The function `name` is generic in `a`: its symbol says so, or a generic
/// declaration is kept under its name.
pub open spec fn generic_function_named(a: SemanticAnalyzer, name: Seq<char>) -> bool {
    (a.ctx.spec_lookup(name) matches Some(s) && s.ty is GenericFunction) || crate::context::has_generic_named(a.ctx.generic_decls@, name)
}

/// `typed` holds the analysed declarations of `decls` in order, and a
/// function is among them exactly when the passes went on (`all`) and it is
/// not generic in `a`.
pub open spec fn functions_analysed(decls: Seq<Decl>, typed: Seq<TypedDecl>, a: SemanticAnalyzer, all: bool) -> bool {
    exists|idx: Seq<int>|
        {
            &&& analysed_in_order(decls, typed, idx)
            &&& forall|j: int|
                0 <= j < decls.len() && (#[trigger] decls[j]).node is Function ==> (analysed_at(idx, j) <==> all
                    && !generic_function_named(a, decls[j].node->Function_name@))
        }
}

/// Which functions were analysed depends only on the scopes and the kept
/// generic declarations.
pub proof fn lemma_functions_analysed_same(decls: Seq<Decl>, typed: Seq<TypedDecl>, a: SemanticAnalyzer, b: SemanticAnalyzer, all: bool)
    requires
        functions_analysed(decls, typed, a, all),
        a.ctx.scopes@ == b.ctx.scopes@,
        a.ctx.generic_decls == b.ctx.generic_decls,
    ensures
        functions_analysed(decls, typed, b, all),
{
    let idx = choose|idx: Seq<int>|
        {
            &&& analysed_in_order(decls, typed, idx)
            &&& forall|j: int|
                0 <= j < decls.len() && (#[trigger] decls[j]).node is Function ==> (analysed_at(idx, j) <==> all
                    && !generic_function_named(a, decls[j].node->Function_name@))
        };
    assert forall|j: int| 0 <= j < decls.len() && (#[trigger] decls[j]).node is Function implies (analysed_at(idx, j) <==> all
        && !generic_function_named(b, decls[j].node->Function_name@)) by {
        assert(a.ctx.spec_lookup(decls[j].node->Function_name@) == b.ctx.spec_lookup(decls[j].node->Function_name@));
    }
}

/// `decls[j]` is the last type declaration named as it is among `decls[..upto]`.
pub open spec fn last_type_decl(decls: Seq<Decl>, j: int, upto: int) -> bool {
    &&& 0 <= j < upto <= decls.len()
    &&& decls[j].node is Type
    &&& forall|k: int|
        j < k < upto ==> !((#[trigger] decls[k]).node is Type && decls[k].node->Type_name@ == decls[j].node->Type_name@)
}

/// `sym` is a function with the concrete signature that the annotations
/// `params` and `ret` give in `t`; when they give none, a generic function
/// whose parameters keep their concrete types and protocol constraints and
/// whose result keeps the type its annotation names.
/// Each name a protocol declaration extends that names no type of `t` has
/// its `UnknownType` error, at the declaration, among `errs` from `from` on.
pub open spec fn unknown_parents_reported(t: Seq<TypeInfo>, errs: Seq<SemanticError>, from: nat, d: Decl) -> bool {
    d.node is Protocol ==> (d.node->Protocol_parents matches Some(ps) ==> forall|q: int|
        0 <= q < ps@.len() && !resolvable(t, #[trigger] ps@[q]@) ==> crate::type_decl::reported(
            errs,
            from,
            crate::postfix::unknown_type_named(ps@[q]@, d.span),
        ))
}

proof fn lemma_unknown_parents_kept(t: Seq<TypeInfo>, a: Seq<SemanticError>, b: Seq<SemanticError>, from: nat, d: Decl)
    requires
        unknown_parents_reported(t, a, from, d),
        keeps_errors(a, b),
    ensures
        unknown_parents_reported(t, b, from, d),
{
    if d.node is Protocol {
        match d.node->Protocol_parents {
            Some(ps) => {
                assert forall|q: int| 0 <= q < ps@.len() && !resolvable(t, #[trigger] ps@[q]@) implies crate::type_decl::reported(
                    b,
                    from,
                    crate::postfix::unknown_type_named(ps@[q]@, d.span),
                ) by {
                    crate::type_decl::lemma_reported_kept(a, b, from, crate::postfix::unknown_type_named(ps@[q]@, d.span));
                }
            },
            None => {},
        }
    }
}

/// A generic function declaration is kept, under its name, for instantiation.
pub open spec fn kept_for_instantiation(kept: Seq<(String, Decl)>, d: Decl) -> bool {
    exists|k: int|
        0 <= k < kept.len() && (#[trigger] kept[k]).0@ == d.node->Function_name@ && crate::context::same_function_text(kept[k].1, d)
}

pub open spec fn carries_signature(sym: Option<Symbol>, t: crate::types::TypeTable, params: Seq<Param>, ret: Option<String>) -> bool {
    match sym {
        Some(s) => match concrete_signature(t, params, ret) {
            Some(x) => s.ty matches SymbolType::Function { params, ret } && params@ == x.0 && ret == x.1,
            None => s.ty matches SymbolType::GenericFunction { param_types, param_protocol_constraints, ret_type } && param_types@
                == Seq::new(params.len(), |q: int| concrete_param(t, params[q])) && param_protocol_constraints@ == Seq::new(
                params.len(),
                |q: int| protocol_param(t, params[q]),
            ) && ret_type == opt_resolve(t, ret),
        },
        None => false,
    }
}

/// The protocol a parameter is annotated with, if it is one.
pub open spec fn protocol_param(t: crate::types::TypeTable, p: Param) -> Option<TypeId> {
    match p.1 {
        Some(a) => match t.spec_resolve(a@) {
            Some(id) => if t.infos@[id.0 as int].kind is Protocol {
                Some(id)
            } else {
                None
            },
            None => None,
        },
        None => None,
    }
}

/// The type an optional annotation names, if any.
pub open spec fn opt_resolve(t: crate::types::TypeTable, a: Option<String>) -> Option<TypeId> {
    match a {
        Some(x) => t.spec_resolve(x@),
        None => None,
    }
}

impl SemanticAnalyzer {
    /// The type an annotation names, `Object` when it is missing or unknown.
    fn annotation_or_object(&self, annotation: &Option<String>) -> (t: TypeId)
        requires
            self.wf(),
        ensures
            t.0 < self.ty_count(),
            match annotation {
                Some(a) => match self.ctx.types.spec_resolve(a@) {
                    Some(id) => t == id,
                    None => t == self.object_id(),
                },
                None => t == self.object_id(),
            },
    {
        match annotation {
            Some(a) => match self.ctx.types.resolve(a.as_str()) {
                Some(id) => id,
                None => self.resolve_builtin("Object"),
            },
            None => self.resolve_builtin("Object"),
        }
    }

    /// The second pass: signatures. A function whose parameters and result
    /// are all annotated with known types (no protocol) gets that signature;
    /// any other function is generic (a parameter annotated with a protocol
    /// keeps it as a constraint) and its declaration is kept for
    /// instantiation. A type gets its parent (a builtin other than `Object`
    /// gives `InvalidInheritanceFromPrimitive` and no parent), its declared
    /// constructor parameters and its method signatures (unknown or missing
    /// types as `Object`). A protocol gets the protocols it extends and its
    /// method signatures; a protocol that extends an unknown name gives
    /// `UnknownType`, and then the pass answers `false`.
    pub fn register_signatures(&mut self, decls: &[Decl]) -> (ok: bool)
        requires
            old(self).wf(),
        ensures
            decl_frame(*old(self), *final(self)),
            same_shape(old(self).ctx.types.infos@, final(self).ctx.types.infos@),
            ok == protocol_parents_known(old(self).ctx.types.infos@, decls@),
            forall|j: int|
                #![trigger decls@[j]]
                last_function_decl(decls@, j, decls@.len() as int) ==> carries_signature(
                    final(self).ctx.spec_lookup(decls@[j].node->Function_name@),
                    old(self).ctx.types, decls@[j].node->Function_params@, decls@[j].node->Function_return_type,
                ),
            forall|j: int|
                #![trigger decls@[j]]
                last_type_decl(decls@, j, decls@.len() as int) && old(self).ctx.types.spec_resolve(decls@[j].node->Type_name@) is Some
                    && declared_parent(old(self).ctx.types, decls@[j]) is Some ==> final(self).ctx.types.infos@[(old(
                    self,
                ).ctx.types.spec_resolve(decls@[j].node->Type_name@)->0).0 as int].parent == declared_parent(
                    old(self).ctx.types,
                    decls@[j],
                )->0,
            forall|j: int|
                0 <= j < decls@.len() && (#[trigger] decls@[j]).node is Type && old(self).ctx.types.spec_resolve(decls@[j].node->Type_name@) is Some
                    && declared_parent(old(self).ctx.types, decls@[j]) == Some(None::<TypeId>) ==> primitive_parent_reported(
                    final(self).diagnostics@,
                    old(self).diagnostics@.len(),
                    decls@[j],
                ),
            forall|j: int|
                0 <= j < decls@.len() && (#[trigger] decls@[j]).node is Function && concrete_signature(
                    old(self).ctx.types,
                    decls@[j].node->Function_params@,
                    decls@[j].node->Function_return_type,
                ) is None ==> kept_for_instantiation(final(self).ctx.generic_decls@, decls@[j]),
            !ok ==> final(self).diagnostics@.len() > old(self).diagnostics@.len(),
            protocol_parents_set_upto(old(self).ctx.types, final(self).ctx.types.infos@, decls@, decls@.len() as int),
            type_params_set_upto(old(self).ctx.types, final(self).ctx.types.infos@, decls@, decls@.len() as int),
            forall|j: int|
                0 <= j < decls@.len() ==> unknown_parents_reported(
                    old(self).ctx.types.infos@,
                    final(self).diagnostics@,
                    old(self).diagnostics@.len(),
                    #[trigger] decls@[j],
                ),
    {
        let mut ok = true;
        proof {
            reveal(protocol_parents_set_upto);
            reveal(type_params_set_upto);
        }
        let mut i: usize = 0;
        while i < decls.len()
            invariant
                self.wf(),
                i <= decls@.len(),
                keeps_errors(old(self).diagnostics@, self.diagnostics@),
                same_shape(old(self).ctx.types.infos@, self.ctx.types.infos@),
                self.ctx.scopes@.len() == old(self).ctx.scopes@.len(),
                self.ctx.instantiation_budget == old(self).ctx.instantiation_budget,
                ok == protocol_parents_known(old(self).ctx.types.infos@, decls@.take(i as int)),
                forall|j: int|
                    #![trigger decls@[j]]
                    last_function_decl(decls@, j, i as int) ==> carries_signature(
                        self.ctx.spec_lookup(decls@[j].node->Function_name@),
                        old(self).ctx.types, decls@[j].node->Function_params@, decls@[j].node->Function_return_type,
                    ),
                forall|j: int|
                    #![trigger decls@[j]]
                    last_type_decl(decls@, j, i as int) && old(self).ctx.types.spec_resolve(decls@[j].node->Type_name@) is Some
                        && declared_parent(old(self).ctx.types, decls@[j]) is Some ==> self.ctx.types.infos@[(old(
                        self,
                    ).ctx.types.spec_resolve(decls@[j].node->Type_name@)->0).0 as int].parent == declared_parent(
                        old(self).ctx.types,
                        decls@[j],
                    )->0,
                forall|j: int|
                    0 <= j < i && (#[trigger] decls@[j]).node is Type && old(self).ctx.types.spec_resolve(decls@[j].node->Type_name@) is Some
                        && declared_parent(old(self).ctx.types, decls@[j]) == Some(None::<TypeId>) ==> primitive_parent_reported(
                        self.diagnostics@,
                        old(self).diagnostics@.len(),
                        decls@[j],
                    ),
                forall|j: int|
                    0 <= j < i && (#[trigger] decls@[j]).node is Function && concrete_signature(
                        old(self).ctx.types,
                        decls@[j].node->Function_params@,
                        decls@[j].node->Function_return_type,
                    ) is None ==> kept_for_instantiation(self.ctx.generic_decls@, decls@[j]),
                !ok ==> self.diagnostics@.len() > old(self).diagnostics@.len(),
                protocol_parents_set_upto(old(self).ctx.types, self.ctx.types.infos@, decls@, i as int),
                type_params_set_upto(old(self).ctx.types, self.ctx.types.infos@, decls@, i as int),
                forall|j: int|
                    0 <= j < i ==> unknown_parents_reported(
                        old(self).ctx.types.infos@,
                        self.diagnostics@,
                        old(self).diagnostics@.len(),
                        #[trigger] decls@[j],
                    ),
            decreases decls.len() - i,
        {
            let decl = &decls[i];
            let ghost before = *self;
            match &decl.node {
                DeclKind::Function { name, params, return_type, .. } => {
                    self.register_function_signature(decl);
                },
                DeclKind::Type { name, params, parent, features } => {
                    match self.ctx.types.resolve(name.as_str()) {
                        Some(current_type_id) => {
                            self.register_type_signature(current_type_id, decl);
                        },
                        None => {},
                    }
                },
                DeclKind::Protocol { name, parents, methods } => {
                    let known = self.register_protocol_signature(decl);
                    if !known {
                        ok = false;
                    }
                },
            }
            proof {
                let d = decls@[i as int];
                if d.node is Type {
                    lemma_same_names_same_resolve(old(self).ctx.types, before.ctx.types, d.node->Type_name@);
                    match d.node {
                        DeclKind::Type { parent: Some(info), .. } => {
                            lemma_same_names_same_resolve(old(self).ctx.types, before.ctx.types, info.node.parent_name@);
                        },
                        _ => {},
                    }
                    assert(declared_parent(old(self).ctx.types, d) == declared_parent(before.ctx.types, d));
                }
                assert forall|j: int|
                    0 <= j < i + 1 && (#[trigger] decls@[j]).node is Type && old(self).ctx.types.spec_resolve(decls@[j].node->Type_name@) is Some
                        && declared_parent(old(self).ctx.types, decls@[j]) == Some(None::<TypeId>) implies primitive_parent_reported(
                        self.diagnostics@,
                        old(self).diagnostics@.len(),
                        decls@[j],
                    ) by {
                    if j < i {
                        lemma_primitive_parent_reported_kept(before.diagnostics@, self.diagnostics@, old(self).diagnostics@.len(), decls@[j]);
                    } else {
                        assert(primitive_parent_reported(self.diagnostics@, before.diagnostics@.len(), d));
                        let e = choose|e: int|
                            before.diagnostics@.len() <= e < self.diagnostics@.len() && (#[trigger] self.diagnostics@[e]).span == d.node->Type_parent->0.span && (self.diagnostics@[e].kind matches SemanticErrorKind::InvalidInheritanceFromPrimitive {
                                child,
                                parent,
                            } && child@ == d.node->Type_name@ && parent@ == d.node->Type_parent->0.node.parent_name@);
                        assert(old(self).diagnostics@.len() <= before.diagnostics@.len());
                    }
                }
                lemma_ppk_step(old(self).ctx.types.infos@, decls@, i as int);
                if decls@[i as int].node is Protocol {
                    lemma_same_names_resolvable(old(self).ctx.types.infos@, before.ctx.types.infos@);
                }
                assert forall|j: int|
                    #![trigger decls@[j]]
                    last_function_decl(decls@, j, i + 1) implies carries_signature(
                        self.ctx.spec_lookup(decls@[j].node->Function_name@),
                        old(self).ctx.types, decls@[j].node->Function_params@, decls@[j].node->Function_return_type,
                    ) by {
                    let d = decls@[j];
                    if j == i {
                        lemma_same_shape_signature(old(self).ctx.types, before.ctx.types, d.node->Function_params@, d.node->Function_return_type);
                    } else {
                        assert(last_function_decl(decls@, j, i as int));
                        if decls@[i as int].node is Function {
                            assert(decls@[i as int].node->Function_name@ != d.node->Function_name@);
                        }
                    }
                }
                assert forall|j: int|
                    #![trigger decls@[j]]
                    last_type_decl(decls@, j, i + 1) && old(self).ctx.types.spec_resolve(decls@[j].node->Type_name@) is Some
                        && declared_parent(old(self).ctx.types, decls@[j]) is Some implies self.ctx.types.infos@[(old(
                        self,
                    ).ctx.types.spec_resolve(decls@[j].node->Type_name@)->0).0 as int].parent == declared_parent(
                        old(self).ctx.types,
                        decls@[j],
                    )->0 by {
                    let d = decls@[j];
                    let id = old(self).ctx.types.spec_resolve(d.node->Type_name@)->0;
                    lemma_resolved_in_table(old(self).ctx.types, d.node->Type_name@);
                    lemma_same_names_same_resolve(old(self).ctx.types, before.ctx.types, d.node->Type_name@);
                    match d.node {
                        DeclKind::Type { parent: Some(info), .. } => {
                            lemma_same_names_same_resolve(old(self).ctx.types, before.ctx.types, info.node.parent_name@);
                        },
                        _ => {},
                    }
                    if j < i {
                        assert(last_type_decl(decls@, j, i as int));
                        if decls@[i as int].node is Type {
                            let di = decls@[i as int];
                            assert(di.node->Type_name@ != d.node->Type_name@);
                            lemma_same_names_same_resolve(old(self).ctx.types, before.ctx.types, di.node->Type_name@);
                            if old(self).ctx.types.spec_resolve(di.node->Type_name@) is Some {
                                assert(old(self).ctx.types.infos@.len() == old(self).ctx.types.infos.len());
                                lemma_resolved_name(old(self).ctx.types, di.node->Type_name@);
                                lemma_resolved_name(old(self).ctx.types, d.node->Type_name@);
                            }
                        }
                    }
                }
            }
            proof {
                lemma_same_names_resolvable(old(self).ctx.types.infos@, before.ctx.types.infos@);
                assert(old(self).ctx.types.infos@.len() == old(self).ctx.types.infos.len());
                lemma_protocol_parents_step(old(self).ctx.types, before.ctx.types, self.ctx.types.infos@, decls@, i as int);
                lemma_type_params_step(old(self).ctx.types, before.ctx.types, self.ctx.types.infos@, decls@, i as int);
                assert forall|j: int| 0 <= j < i + 1 implies unknown_parents_reported(
                    old(self).ctx.types.infos@,
                    self.diagnostics@,
                    old(self).diagnostics@.len(),
                    #[trigger] decls@[j],
                ) by {
                    if j < i {
                        lemma_unknown_parents_kept(
                            old(self).ctx.types.infos@,
                            before.diagnostics@,
                            self.diagnostics@,
                            old(self).diagnostics@.len(),
                            decls@[j],
                        );
                    } else if decls@[j].node is Protocol {
                        let d = decls@[j];
                        match d.node->Protocol_parents {
                            Some(ps) => {
                                assert forall|q: int| 0 <= q < ps@.len() && !resolvable(old(self).ctx.types.infos@, #[trigger] ps@[q]@) implies crate::type_decl::reported(
                                    self.diagnostics@,
                                    old(self).diagnostics@.len(),
                                    crate::postfix::unknown_type_named(ps@[q]@, d.span),
                                ) by {
                                    assert(!resolvable(before.ctx.types.infos@, ps@[q]@));
                                    let p = crate::postfix::unknown_type_named(ps@[q]@, d.span);
                                    let e = choose|e: int| before.diagnostics@.len() <= e < self.diagnostics@.len() && #[trigger] p(self.diagnostics@[e]);
                                    assert(old(self).diagnostics@.len() <= e);
                                }
                            },
                            None => {},
                        }
                    }
                }
                let gb = before.ctx.generic_decls@;
                let ga = self.ctx.generic_decls@;
                if decls@[i as int].node is Function {
                    lemma_same_shape_signature(
                        old(self).ctx.types,
                        before.ctx.types,
                        decls@[i as int].node->Function_params@,
                        decls@[i as int].node->Function_return_type,
                    );
                }
                assert(ga == gb || (ga.len() == gb.len() + 1 && ga.drop_last() == gb));
                assert forall|j: int|
                    0 <= j < i + 1 && (#[trigger] decls@[j]).node is Function && concrete_signature(
                        old(self).ctx.types,
                        decls@[j].node->Function_params@,
                        decls@[j].node->Function_return_type,
                    ) is None implies kept_for_instantiation(ga, decls@[j]) by {
                    if j < i {
                        let k = choose|k: int|
                            0 <= k < gb.len() && (#[trigger] gb[k]).0@ == decls@[j].node->Function_name@
                                && crate::context::same_function_text(gb[k].1, decls@[j]);
                        if ga != gb {
                            assert(ga[k] == ga.drop_last()[k]);
                        }
                        assert(ga[k] == gb[k]);
                    } else {
                        assert(ga.last() == ga[ga.len() - 1]);
                    }
                }
            }
            i = i + 1;
        }
        proof {
            assert(decls@.take(i as int) =~= decls@);
        }
        ok
    }

    fn register_function_signature(&mut self, decl: &Decl)
        requires
            old(self).wf(),
            decl.node is Function,
        ensures
            final(self).wf(),
            final(self).diagnostics == old(self).diagnostics,
            final(self).ctx.types == old(self).ctx.types,
            final(self).ctx.scopes@.len() == old(self).ctx.scopes@.len(),
            final(self).ctx.instantiation_budget == old(self).ctx.instantiation_budget,
            carries_signature(
                final(self).ctx.spec_lookup(decl.node->Function_name@),
                old(self).ctx.types, decl.node->Function_params@, decl.node->Function_return_type,
            ),
            forall|n: Seq<char>| n != decl.node->Function_name@ ==> #[trigger] final(self).ctx.spec_lookup(n) == old(self).ctx.spec_lookup(n),
            concrete_signature(old(self).ctx.types, decl.node->Function_params@, decl.node->Function_return_type) is Some
                ==> final(self).ctx.generic_decls == old(self).ctx.generic_decls,
            concrete_signature(old(self).ctx.types, decl.node->Function_params@, decl.node->Function_return_type) is None ==> {
                &&& final(self).ctx.generic_decls@.len() == old(self).ctx.generic_decls@.len() + 1
                &&& final(self).ctx.generic_decls@.drop_last() == old(self).ctx.generic_decls@
                &&& final(self).ctx.generic_decls@.last().0@ == decl.node->Function_name@
                &&& crate::context::same_function_text(final(self).ctx.generic_decls@.last().1, *decl)
            },
    {
        let (name, params, return_type) = match &decl.node {
            DeclKind::Function { name, params, return_type, .. } => (name, params, return_type),
            _ => {
                return;
            },
        };
        let mut param_types: Vec<Option<TypeId>> = Vec::new();
        let mut constraints: Vec<Option<TypeId>> = Vec::new();
        let mut any_param_generic = false;
        let mut k: usize = 0;
        while k < params.len()
            invariant
                self == old(self),
                self.wf(),
                k <= params@.len(),
                param_types@.len() == k,
                constraints@.len() == k,
                !any_param_generic ==> forall|q: int| 0 <= q < k ==> (#[trigger] param_types@[q]) is Some,
                forall|q: int| 0 <= q < k ==> (#[trigger] param_types@[q]) == concrete_param(self.ctx.types, params@[q]),
                forall|q: int| 0 <= q < k ==> (#[trigger] constraints@[q]) == protocol_param(self.ctx.types, params@[q]),
                any_param_generic == exists|q: int| 0 <= q < k && (#[trigger] concrete_param(self.ctx.types, params@[q])) is None,
                forall|q: int| 0 <= q < k ==> opt_id_below(#[trigger] param_types@[q], self.ty_count()),
                forall|q: int| 0 <= q < k ==> opt_id_below(#[trigger] constraints@[q], self.ty_count()),
            decreases params.len() - k,
        {
            match &params[k].1 {
                Some(annot) => match self.ctx.types.resolve(annot.as_str()) {
                    Some(id) => {
                        if self.ctx.types.get(id).is_protocol() {
                            any_param_generic = true;
                            param_types.push(None);
                            constraints.push(Some(id));
                        } else {
                            param_types.push(Some(id));
                            constraints.push(None);
                        }
                    },
                    None => {
                        any_param_generic = true;
                        param_types.push(None);
                        constraints.push(None);
                    },
                },
                None => {
                    any_param_generic = true;
                    param_types.push(None);
                    constraints.push(None);
                },
            }
            proof {
                let kk = k as int;
                assert(param_types@[kk] == concrete_param(self.ctx.types, params@[kk]));
                assert(constraints@[kk] == protocol_param(self.ctx.types, params@[kk]));
                if concrete_param(self.ctx.types, params@[kk]) is None {
                    assert(any_param_generic);
                }
            }
            k = k + 1;
        }
        let ret_resolved: Option<TypeId> = match return_type {
            Some(t) => self.ctx.types.resolve(t.as_str()),
            None => None,
        };
        let new_ty = if any_param_generic || ret_resolved.is_none() {
            self.ctx.register_generic_decl(name.clone(), crate::ast::copy_decl(decl));
            SymbolType::GenericFunction { param_types, param_protocol_constraints: constraints, ret_type: ret_resolved }
        } else {
            let mut concrete: Vec<TypeId> = Vec::new();
            let mut q: usize = 0;
            while q < param_types.len()
                invariant
                    q <= param_types@.len(),
                    concrete@.len() == q,
                    forall|j: int| 0 <= j < q ==> (#[trigger] concrete@[j]) == param_types@[j]->0,
                    forall|j: int| 0 <= j < param_types@.len() ==> (#[trigger] param_types@[j]) is Some,
                    forall|j: int| 0 <= j < param_types@.len() ==> opt_id_below(#[trigger] param_types@[j], self.ty_count()),
                    forall|j: int| 0 <= j < concrete@.len() ==> (#[trigger] concrete@[j]).0 < self.ty_count(),
                decreases param_types.len() - q,
            {
                match param_types[q] {
                    Some(t) => concrete.push(t),
                    None => {},
                }
                q = q + 1;
            }
            let ret = match ret_resolved {
                Some(r) => r,
                None => self.resolve_builtin("Object"),
            };
            SymbolType::Function { params: concrete, ret }
        };
        let ghost sig = concrete_signature(old(self).ctx.types, params@, *return_type);
        proof {
            if sig is Some {
                assert(!any_param_generic);
                let x = sig->0;
                assert(new_ty matches SymbolType::Function { params, ret } && params@ =~= x.0 && ret == x.1);
            } else {
                if !any_param_generic && ret_resolved is Some {
                    assert forall|q: int| 0 <= q < params@.len() implies (#[trigger] concrete_param(old(self).ctx.types, params@[q])) is Some by {
                        assert(param_types@[q] is Some);
                    }
                }
                assert(new_ty matches SymbolType::GenericFunction { param_types: pt, param_protocol_constraints: pc, ret_type: rt } && pt@
                    =~= Seq::new(params@.len(), |q: int| concrete_param(old(self).ctx.types, params@[q])) && pc@ =~= Seq::new(
                    params@.len(),
                    |q: int| protocol_param(old(self).ctx.types, params@[q]),
                ) && rt == opt_resolve(old(self).ctx.types, *return_type));
            }
        }
        let copy = new_ty.duplicate();
        proof { crate::symbols::lemma_same_symbol_type_valid(new_ty, copy, self.ty_count()); }
        if !self.ctx.update_symbol_type(name.as_str(), copy) {
            proof { assert(!has_named(self.ctx.scopes@.last().symbols@, name@)); }
            let _ = self.ctx.declare(Symbol { name: name.clone(), kind: SymbolKind::Function, ty: new_ty, span: decl.span });
        }
    }

    fn register_type_signature(&mut self, current_type_id: TypeId, decl: &Decl)
        requires
            old(self).wf(),
            current_type_id.0 < old(self).ty_count(),
            decl.node is Type,
        ensures
            final(self).wf(),
            keeps_errors(old(self).diagnostics@, final(self).diagnostics@),
            same_shape(old(self).ctx.types.infos@, final(self).ctx.types.infos@),
            final(self).ctx.scopes == old(self).ctx.scopes,
            final(self).ctx.generic_decls == old(self).ctx.generic_decls,
            forall|k: int|
                0 <= k < old(self).ty_count() ==> protocol_parents(#[trigger] final(self).ctx.types.infos@[k]) == protocol_parents(
                    old(self).ctx.types.infos@[k],
                ),
            declared_params_set(old(self).ctx.types, final(self).ctx.types.infos@[current_type_id.0 as int], *decl),
            forall|k: int|
                0 <= k < old(self).ty_count() && k != current_type_id.0 ==> (#[trigger] final(self).ctx.types.infos@[k]).declared_constructor_params
                    == old(self).ctx.types.infos@[k].declared_constructor_params,
            final(self).ctx.instantiation_budget == old(self).ctx.instantiation_budget,
            forall|k: int|
                0 <= k < old(self).ty_count() && k != current_type_id.0 ==> (#[trigger] final(self).ctx.types.infos@[k]).parent
                    == old(self).ctx.types.infos@[k].parent,
            final(self).ctx.types.infos@[current_type_id.0 as int].parent == match declared_parent(old(self).ctx.types, *decl) {
                Some(p) => p,
                None => old(self).ctx.types.infos@[current_type_id.0 as int].parent,
            },
            declared_parent(old(self).ctx.types, *decl) == Some(None::<TypeId>) ==> primitive_parent_reported(
                final(self).diagnostics@,
                old(self).diagnostics@.len(),
                *decl,
            ),
    {
        let (name, params, parent, features) = match &decl.node {
            DeclKind::Type { name, params, parent, features } => (name, params, parent, features),
            _ => {
                return;
            },
        };
        let ghost cur = current_type_id.0 as int;
        match parent {
            Some(inherit_info) => {
                match self.ctx.types.resolve(inherit_info.node.parent_name.as_str()) {
                    Some(parent_type_id) => {
                        if is_primitive_name(inherit_info.node.parent_name.as_str()) {
                            self.report(
                                SemanticErrorKind::InvalidInheritanceFromPrimitive {
                                    child: name.clone(),
                                    parent: inherit_info.node.parent_name.clone(),
                                },
                                inherit_info.span,
                            );
                            proof {
                                lemma_one_more_keeps(old(self).diagnostics@, self.diagnostics@);
                                let e = self.diagnostics@.len() - 1;
                                assert(self.diagnostics@[e].span == decl.node->Type_parent->0.span);
                                assert(primitive_parent_reported(self.diagnostics@, old(self).diagnostics@.len(), *decl));
                            }
                            self.ctx.types.set_parent(current_type_id, None);
                        } else {
                            self.ctx.types.set_parent(current_type_id, Some(parent_type_id));
                        }
                    },
                    None => {},
                }
            },
            None => {},
        }
        let ghost after_parent = self.diagnostics@;
        let ghost parents_now = self.ctx.types.infos@.map_values(|info: TypeInfo| info.parent);
        assert(parents_now[cur] == match declared_parent(old(self).ctx.types, *decl) {
            Some(p) => p,
            None => old(self).ctx.types.infos@[cur].parent,
        });
        assert(forall|k: int| 0 <= k < old(self).ty_count() && k != cur ==> parents_now[k] == old(self).ctx.types.infos@[k].parent);
        let constructor_params: Option<Vec<ConstructorParam>> = match params {
            Some(param_list) => {
                let mut v: Vec<ConstructorParam> = Vec::new();
                let mut k: usize = 0;
                while k < param_list.len()
                    invariant
                        self.wf(),
                        self.ctx.generic_decls == old(self).ctx.generic_decls,
                        k <= param_list@.len(),
                        params_valid(v@, self.ty_count()),
                        v@.len() == k,
                        forall|q: int|
                            0 <= q < k ==> (#[trigger] v@[q]).name@ == param_list@[q].0@ && v@[q].ty == opt_resolve(
                                self.ctx.types,
                                param_list@[q].1,
                            ),
                    decreases param_list.len() - k,
                {
                    let p_type: Option<TypeId> = match &param_list[k].1 {
                        Some(t) => self.ctx.types.resolve(t.as_str()),
                        None => None,
                    };
                    v.push(ConstructorParam { name: param_list[k].0.clone(), ty: p_type });
                    k = k + 1;
                }
                Some(v)
            },
            None => None,
        };
        let ghost before_set = self.ctx.types.infos@;
        proof {
            match params {
                Some(pl) => {
                    let v = constructor_params->0;
                    assert forall|q: int| 0 <= q < pl@.len() implies (#[trigger] v@[q]).name@ == pl@[q].0@ && v@[q].ty == opt_resolve(
                        old(self).ctx.types,
                        pl@[q].1,
                    ) by {
                        match pl@[q].1 {
                            Some(a) => lemma_same_names_same_resolve(old(self).ctx.types, self.ctx.types, a@),
                            None => {},
                        }
                    }
                },
                None => {},
            }
        }
        self.ctx.types.set_declared_constructor_params(current_type_id, constructor_params);
        let ghost dcp = self.ctx.types.infos@[current_type_id.0 as int].declared_constructor_params;
        proof {
            assert(declared_params_set(old(self).ctx.types, self.ctx.types.infos@[current_type_id.0 as int], *decl));
        }
        let mut f: usize = 0;
        while f < features.len()
            invariant
                self.wf(),
                self.ctx.generic_decls == old(self).ctx.generic_decls,
                f <= features@.len(),
                current_type_id.0 < self.ty_count(),
                keeps_errors(old(self).diagnostics@, self.diagnostics@),
                keeps_errors(after_parent, self.diagnostics@),
                same_shape(old(self).ctx.types.infos@, self.ctx.types.infos@),
                self.ctx.scopes == old(self).ctx.scopes,
                self.ctx.instantiation_budget == old(self).ctx.instantiation_budget,
                forall|k: int| 0 <= k < old(self).ty_count() ==> (#[trigger] self.ctx.types.infos@[k]).parent == parents_now[k],
                self.ctx.types.infos@[current_type_id.0 as int].declared_constructor_params == dcp,
                forall|k: int|
                    0 <= k < old(self).ty_count() && k != current_type_id.0 ==> (#[trigger] self.ctx.types.infos@[k]).declared_constructor_params
                        == old(self).ctx.types.infos@[k].declared_constructor_params,
                forall|k: int|
                    0 <= k < old(self).ty_count() ==> protocol_parents(#[trigger] self.ctx.types.infos@[k]) == protocol_parents(
                        old(self).ctx.types.infos@[k],
                    ),
            decreases features.len() - f,
        {
            match &features[f].node {
                TypeFeaturesKind::Method { name: method_name, params: method_params, return_type, .. } => {
                    let mut p_types: Vec<TypeId> = Vec::new();
                    let mut k: usize = 0;
                    while k < method_params.len()
                        invariant
                            self.wf(),
                            self.ctx.generic_decls == old(self).ctx.generic_decls,
                            k <= method_params@.len(),
                            forall|q: int| 0 <= q < p_types@.len() ==> (#[trigger] p_types@[q]).0 < self.ty_count(),
                        decreases method_params.len() - k,
                    {
                        let t = self.annotation_or_object(&method_params[k].1);
                        p_types.push(t);
                        k = k + 1;
                    }
                    let r_id = self.annotation_or_object(return_type);
                    let _ = self.ctx.types.insert_method(
                        current_type_id,
                        Symbol {
                            name: method_name.clone(),
                            kind: SymbolKind::Function,
                            ty: SymbolType::Function { params: p_types, ret: r_id },
                            span: features[f].span,
                        },
                    );
                },
                _ => {},
            }
            f = f + 1;
        }
        proof {
            if declared_parent(old(self).ctx.types, *decl) == Some(None::<TypeId>) {
                lemma_primitive_parent_reported_kept(after_parent, self.diagnostics@, old(self).diagnostics@.len(), *decl);
            }
        }
    }

    /// Sets a protocol's parents and method signatures; `false` when it
    /// extends an unknown name (each gives `UnknownType`).
    fn register_protocol_signature(&mut self, decl: &Decl) -> (known: bool)
        requires
            old(self).wf(),
            decl.node is Protocol,
        ensures
            final(self).wf(),
            keeps_errors(old(self).diagnostics@, final(self).diagnostics@),
            same_shape(old(self).ctx.types.infos@, final(self).ctx.types.infos@),
            final(self).ctx.scopes == old(self).ctx.scopes,
            final(self).ctx.generic_decls == old(self).ctx.generic_decls,
            final(self).ctx.instantiation_budget == old(self).ctx.instantiation_budget,
            known == parents_known(old(self).ctx.types.infos@, *decl),
            forall|k: int|
                0 <= k < old(self).ty_count() ==> (#[trigger] final(self).ctx.types.infos@[k]).parent == old(self).ctx.types.infos@[k].parent,
            !known ==> final(self).diagnostics@.len() > old(self).diagnostics@.len(),
            forall|k: int|
                0 <= k < old(self).ty_count() ==> (#[trigger] final(self).ctx.types.infos@[k]).declared_constructor_params == old(
                    self,
                ).ctx.types.infos@[k].declared_constructor_params,
            old(self).ctx.types.spec_resolve(decl.node->Protocol_name@) is Some && old(self).ctx.types.infos@[(old(
                self,
            ).ctx.types.spec_resolve(decl.node->Protocol_name@)->0).0 as int].kind is Protocol ==> protocol_parents(
                final(self).ctx.types.infos@[(old(self).ctx.types.spec_resolve(decl.node->Protocol_name@)->0).0 as int],
            ) == declared_protocol_parents(old(self).ctx.types, *decl),
            forall|k: int|
                0 <= k < old(self).ty_count() && old(self).ctx.types.spec_resolve(decl.node->Protocol_name@) != Some(TypeId(k as usize))
                    ==> protocol_parents(#[trigger] final(self).ctx.types.infos@[k]) == protocol_parents(old(self).ctx.types.infos@[k]),
            decl.node->Protocol_parents matches Some(ps) ==> forall|q: int|
                0 <= q < ps@.len() && !resolvable(old(self).ctx.types.infos@, #[trigger] ps@[q]@) ==> crate::type_decl::reported(
                    final(self).diagnostics@,
                    old(self).diagnostics@.len(),
                    crate::postfix::unknown_type_named(ps@[q]@, decl.span),
                ),
    {
        let (name, parents, methods) = match &decl.node {
            DeclKind::Protocol { name, parents, methods } => (name, parents, methods),
            _ => {
                return true;
            },
        };
        let mut known = true;
        let mut parent_ids: Vec<TypeId> = Vec::new();
        match parents {
            Some(ps) => {
                let mut k: usize = 0;
                while k < ps.len()
                    invariant
                        self.wf(),
                        self.ctx.generic_decls == old(self).ctx.generic_decls,
                        self.ctx == old(self).ctx,
                        k <= ps@.len(),
                        keeps_errors(old(self).diagnostics@, self.diagnostics@),
                        known == forall|q: int| 0 <= q < k ==> resolvable(old(self).ctx.types.infos@, #[trigger] ps@[q]@),
                        parent_ids@ == known_parent_ids(old(self).ctx.types, ps@.take(k as int)),
                        forall|q: int| 0 <= q < parent_ids@.len() ==> (#[trigger] parent_ids@[q]).0 < self.ty_count(),
                        !known ==> self.diagnostics@.len() > old(self).diagnostics@.len(),
                        forall|q: int|
                            0 <= q < k && !resolvable(old(self).ctx.types.infos@, #[trigger] ps@[q]@) ==> crate::type_decl::reported(
                                self.diagnostics@,
                                old(self).diagnostics@.len(),
                                crate::postfix::unknown_type_named(ps@[q]@, decl.span),
                            ),
                    decreases ps.len() - k,
                {
                    proof {
                        assert(ps@.take(k as int + 1).drop_last() =~= ps@.take(k as int));
                        assert(ps@.take(k as int + 1).last() == ps@[k as int]);
                    }
                    match self.ctx.types.resolve(ps[k].as_str()) {
                        Some(pid) => {
                            parent_ids.push(pid);
                        },
                        None => {
                            let ghost mid = self.diagnostics@;
                            self.report(SemanticErrorKind::UnknownType { name: ps[k].clone() }, decl.span);
                            proof {
                                lemma_one_more_keeps(mid, self.diagnostics@);
                                let e = self.diagnostics@.len() - 1;
                                assert(crate::postfix::unknown_type_named(ps@[k as int]@, decl.span)(self.diagnostics@[e]));
                                assert forall|q: int|
                                    0 <= q < k && !resolvable(old(self).ctx.types.infos@, #[trigger] ps@[q]@) implies crate::type_decl::reported(
                                        self.diagnostics@,
                                        old(self).diagnostics@.len(),
                                        crate::postfix::unknown_type_named(ps@[q]@, decl.span),
                                    ) by {
                                    crate::type_decl::lemma_reported_kept(
                                        mid,
                                        self.diagnostics@,
                                        old(self).diagnostics@.len(),
                                        crate::postfix::unknown_type_named(ps@[q]@, decl.span),
                                    );
                                }
                            }
                            known = false;
                        },
                    }
                    k = k + 1;
                }
            },
            None => {},
        }
        let ghost after_parents = *self;
        proof {
            match decl.node->Protocol_parents {
                Some(ps) => {
                    assert(ps@.take(ps@.len() as int) =~= ps@);
                },
                None => {},
            }
            assert(parent_ids@ == declared_protocol_parents(old(self).ctx.types, *decl));
        }
        let protocol_id = match self.ctx.types.resolve(name.as_str()) {
            Some(id) => id,
            None => {
                return known;
            },
        };
        let ghost pids = parent_ids@;
        self.ctx.types.set_protocol_parents(protocol_id, parent_ids);
        let ghost after_set = self.ctx.types.infos@;
        let mut m: usize = 0;
        while m < methods.len()
            invariant
                self.wf(),
                self.ctx.generic_decls == old(self).ctx.generic_decls,
                m <= methods@.len(),
                protocol_id.0 < self.ty_count(),
                keeps_errors(old(self).diagnostics@, self.diagnostics@),
                keeps_errors(after_parents.diagnostics@, self.diagnostics@),
                forall|k: int| 0 <= k < old(self).ty_count() ==> protocol_parents(#[trigger] self.ctx.types.infos@[k]) == protocol_parents(after_set[k]),
                after_set.len() == old(self).ty_count(),
                forall|k: int|
                    0 <= k < old(self).ty_count() ==> (#[trigger] self.ctx.types.infos@[k]).declared_constructor_params == old(
                        self,
                    ).ctx.types.infos@[k].declared_constructor_params,
                same_shape(old(self).ctx.types.infos@, self.ctx.types.infos@),
                self.ctx.scopes == old(self).ctx.scopes,
                self.ctx.instantiation_budget == old(self).ctx.instantiation_budget,
                forall|k: int|
                    0 <= k < old(self).ty_count() ==> (#[trigger] self.ctx.types.infos@[k]).parent == old(self).ctx.types.infos@[k].parent,
            decreases methods.len() - m,
        {
            let mut p_types: Vec<TypeId> = Vec::new();
            let mut k: usize = 0;
            while k < methods[m].node.params.len()
                invariant
                    self.wf(),
                    self.ctx.generic_decls == old(self).ctx.generic_decls,
                    m < methods@.len(),
                    k <= methods@[m as int].node.params@.len(),
                    forall|q: int| 0 <= q < p_types@.len() ==> (#[trigger] p_types@[q]).0 < self.ty_count(),
                decreases methods@[m as int].node.params@.len() - k,
            {
                let t = self.annotation_or_object(&methods[m].node.params[k].1);
                p_types.push(t);
                k = k + 1;
            }
            let r_id = self.annotation_or_object(&methods[m].node.return_type);
            let _ = self.ctx.types.insert_method(
                protocol_id,
                Symbol {
                    name: methods[m].node.name.clone(),
                    kind: SymbolKind::Function,
                    ty: SymbolType::Function { params: p_types, ret: r_id },
                    span: methods[m].span,
                },
            );
            m = m + 1;
        }
        proof {
            match decl.node->Protocol_parents {
                Some(ps) => {
                    assert forall|q: int|
                        0 <= q < ps@.len() && !resolvable(old(self).ctx.types.infos@, #[trigger] ps@[q]@) implies crate::type_decl::reported(
                            self.diagnostics@,
                            old(self).diagnostics@.len(),
                            crate::postfix::unknown_type_named(ps@[q]@, decl.span),
                        ) by {
                        crate::type_decl::lemma_reported_kept(
                            after_parents.diagnostics@,
                            self.diagnostics@,
                            old(self).diagnostics@.len(),
                            crate::postfix::unknown_type_named(ps@[q]@, decl.span),
                        );
                    }
                },
                None => {},
            }
        }
        known
    }
}


/// Every entry of `after` is that of `before`, with its parent perhaps removed.
pub open spec fn parents_only_cleared(before: Seq<TypeInfo>, after: Seq<TypeInfo>) -> bool {
    &&& before.len() == after.len()
    &&& forall|k: int|
        0 <= k < before.len() ==> (#[trigger] after[k] == before[k] || after[k] == TypeInfo { parent: None, ..before[k] })
}

/// Among the errors of `errs` from index `from` is `CyclicInheritance` for `name`.
pub open spec fn cycle_reported(errs: Seq<SemanticError>, from: nat, name: Seq<char>) -> bool {
    exists|j: int|
        from <= j < errs.len() && ((#[trigger] errs[j]).kind matches SemanticErrorKind::CyclicInheritance { name: n } && n@ == name)
}

/// Each type of `before` whose parent `after` has cleared is reported as
/// cyclic among the errors of `errs` from index `from`.
pub open spec fn cleared_reported(before: Seq<TypeInfo>, after: Seq<TypeInfo>, errs: Seq<SemanticError>, from: nat) -> bool {
    forall|k: int|
        0 <= k < before.len() && (#[trigger] after[k]).parent is None && before[k].parent is Some ==> cycle_reported(
            errs,
            from,
            before[k].name@,
        )
}

/// A reported cycle stays reported as errors are added.
proof fn lemma_cleared_reported_kept(before: Seq<TypeInfo>, after: Seq<TypeInfo>, a: Seq<SemanticError>, b: Seq<SemanticError>, from: nat)
    requires
        cleared_reported(before, after, a, from),
        keeps_errors(a, b),
    ensures
        cleared_reported(before, after, b, from),
{
    assert forall|k: int|
        0 <= k < before.len() && (#[trigger] after[k]).parent is None && before[k].parent is Some implies cycle_reported(
            b,
            from,
            before[k].name@,
        ) by {
        let j = choose|j: int|
            from <= j < a.len() && ((#[trigger] a[j]).kind matches SemanticErrorKind::CyclicInheritance { name: n } && n@ == before[k].name@);
        assert(b[j] == a[j]);
    }
}

/// The rest of a walk up the parents that is at `cur` with `fuel` steps left.
pub open spec fn walk_from(t: Seq<TypeInfo>, cur: Option<TypeId>, fuel: nat) -> Seq<TypeId> {
    match cur {
        Some(c) => chain_ids(t, c, fuel),
        None => Seq::empty(),
    }
}

/// Following the parents from `id` reaches a type without one within `k` types.
pub open spec fn rooted(t: Seq<TypeInfo>, id: TypeId, k: nat) -> bool
    decreases k,
{
    k > 0 && id.0 < t.len() && match t[id.0 as int].parent {
        None => true,
        Some(p) => rooted(t, p, (k - 1) as nat),
    }
}

/// The walk at `cur` reaches a type without a parent within `k` more types.
pub open spec fn rooted_from(t: Seq<TypeInfo>, cur: Option<TypeId>, k: nat) -> bool {
    match cur {
        None => true,
        Some(c) => rooted(t, c, k),
    }
}

/// The type that `d` declares, if it declares one that `t` knows, has a
/// finite chain of ancestors, at most as long as the table.
pub open spec fn declared_type_rooted(names: crate::types::TypeTable, t: Seq<TypeInfo>, d: Decl) -> bool {
    match d.node {
        DeclKind::Type { name, .. } => match names.spec_resolve(name@) {
            Some(id) => rooted(t, id, t.len()),
            None => true,
        },
        _ => true,
    }
}

/// A walk that ends within `k` types ends within any larger number.
pub proof fn lemma_rooted_mono(t: Seq<TypeInfo>, id: TypeId, k: nat, m: nat)
    requires
        rooted(t, id, k),
        k <= m,
    ensures
        rooted(t, id, m),
    decreases k,
{
    match t[id.0 as int].parent {
        None => {},
        Some(p) => {
            lemma_rooted_mono(t, p, (k - 1) as nat, (m - 1) as nat);
        },
    }
}

proof fn lemma_rooted_after_clear(a: Seq<TypeInfo>, b: Seq<TypeInfo>, id: TypeId, k: nat)
    requires
        parents_only_cleared(a, b),
        rooted(a, id, k),
    ensures
        rooted(b, id, k),
    decreases k,
{
    let i = id.0 as int;
    assert(b[i] == a[i] || b[i] == TypeInfo { parent: None, ..a[i] });
    match b[i].parent {
        None => {},
        Some(p) => {
            lemma_rooted_after_clear(a, b, p, (k - 1) as nat);
        },
    }
}

/// Tables with the same names resolve every name alike.
pub proof fn lemma_same_names_same_resolve(a: crate::types::TypeTable, b: crate::types::TypeTable, n: Seq<char>)
    requires
        same_shape(a.infos@, b.infos@),
    ensures
        a.spec_resolve(n) == b.spec_resolve(n),
{
    assert forall|i: int| #[trigger] a.is_resolved(n, i) implies b.is_resolved(n, i) by {
        assert(a.infos@[i].name == b.infos@[i].name);
        assert forall|j: int| i < j < b.infos@.len() implies (#[trigger] b.infos@[j]).name@ != n by {
            assert(a.infos@[j].name == b.infos@[j].name);
        }
    }
    assert forall|i: int| #[trigger] b.is_resolved(n, i) implies a.is_resolved(n, i) by {
        assert(a.infos@[i].name == b.infos@[i].name);
        assert forall|j: int| i < j < a.infos@.len() implies (#[trigger] a.infos@[j]).name@ != n by {
            assert(a.infos@[j].name == b.infos@[j].name);
        }
    }
    if exists|i: int| 0 <= i < a.infos@.len() && (#[trigger] a.infos@[i]).name@ == n {
        let w = choose|i: int| 0 <= i < a.infos@.len() && (#[trigger] a.infos@[i]).name@ == n;
        assert(b.infos@[w].name == a.infos@[w].name);
        assert(exists|i: int| 0 <= i < b.infos@.len() && (#[trigger] b.infos@[i]).name@ == n);
        lemma_resolved_exists(a, n);
        lemma_resolved_exists(b, n);
        let x = choose|i: int| a.is_resolved(n, i);
        let y = choose|i: int| b.is_resolved(n, i);
        assert(a.is_resolved(n, y));
        if x < y {
            assert(a.infos@[y].name@ == n);
        } else if y < x {
            assert(b.infos@[x].name@ == n);
            assert(b.is_resolved(n, x));
        }
    } else {
        assert forall|i: int| 0 <= i < b.infos@.len() implies (#[trigger] b.infos@[i]).name@ != n by {
            assert(b.infos@[i].name == a.infos@[i].name);
        }
    }
}

/// A name of the table is resolved by its last occurrence.
proof fn lemma_resolved_exists(a: crate::types::TypeTable, n: Seq<char>)
    requires
        exists|i: int| 0 <= i < a.infos@.len() && (#[trigger] a.infos@[i]).name@ == n,
    ensures
        exists|i: int| a.is_resolved(n, i),
    decreases a.infos@.len(),
{
    let w = choose|i: int| 0 <= i < a.infos@.len() && (#[trigger] a.infos@[i]).name@ == n;
    lemma_last_named(a, n, w);
}

proof fn lemma_last_named(a: crate::types::TypeTable, n: Seq<char>, w: int)
    requires
        0 <= w < a.infos@.len(),
        a.infos@[w].name@ == n,
    ensures
        exists|i: int| a.is_resolved(n, i),
    decreases a.infos@.len() - w,
{
    if exists|j: int| w < j < a.infos@.len() && (#[trigger] a.infos@[j]).name@ == n {
        let j = choose|j: int| w < j < a.infos@.len() && (#[trigger] a.infos@[j]).name@ == n;
        lemma_last_named(a, n, j);
    } else {
        assert(a.is_resolved(n, w));
    }
}

/// A sequence of distinct ids below `n` has at most `n` entries.
proof fn lemma_distinct_ids_bounded(s: Seq<TypeId>, n: nat)
    requires
        s.no_duplicates(),
        forall|k: int| 0 <= k < s.len() ==> (#[trigger] s[k]).0 < n,
    ensures
        s.len() <= n,
{
    let f = |x: TypeId| x.0 as int;
    let m = s.map_values(f);
    assert(m.no_duplicates()) by {
        assert forall|i: int, j: int| 0 <= i < m.len() && 0 <= j < m.len() && i != j implies m[i] != m[j] by {
            assert(s[i] != s[j]);
            if m[i] == m[j] {
                assert(s[i].0 == s[j].0);
                assert(s[i] == s[j]);
            }
        }
    }
    m.unique_seq_to_set();
    vstd::set_lib::lemma_int_range(0, n as int);
    assert(m.to_set().subset_of(vstd::set_lib::set_int_range(0, n as int))) by {
        assert forall|x: int| m.to_set().contains(x) implies vstd::set_lib::set_int_range(0, n as int).contains(x) by {
            let k = choose|k: int| 0 <= k < m.len() && m[k] == x;
            assert(s[k].0 < n);
        }
    }
    vstd::set_lib::lemma_len_subset(m.to_set(), vstd::set_lib::set_int_range(0, n as int));
}

impl SemanticAnalyzer {
    /// For each type declaration, follows the parents from the type; coming
    /// back to a type already met gives `CyclicInheritance` for the declared
    /// type, which then loses its parent. Afterwards every declared type has
    /// a finite chain of ancestors.
    pub fn check_circular_inheritance(&mut self, decls: &[Decl])
        requires
            old(self).wf(),
        ensures
            decl_frame(*old(self), *final(self)),
            final(self).ctx.scopes == old(self).ctx.scopes,
            parents_only_cleared(old(self).ctx.types.infos@, final(self).ctx.types.infos@),
            cleared_reported(old(self).ctx.types.infos@, final(self).ctx.types.infos@, final(self).diagnostics@, old(self).diagnostics@.len()),
            forall|i: int|
                old(self).diagnostics@.len() <= i < final(self).diagnostics@.len() ==> (#[trigger] final(self).diagnostics@[i]).kind is CyclicInheritance,
            forall|j: int| 0 <= j < decls@.len() ==> declared_type_rooted(old(self).ctx.types, final(self).ctx.types.infos@, #[trigger] decls@[j]),
    {
        let mut i: usize = 0;
        while i < decls.len()
            invariant
                self.wf(),
                i <= decls@.len(),
                keeps_errors(old(self).diagnostics@, self.diagnostics@),
                self.ctx.scopes == old(self).ctx.scopes,
                self.ctx.instantiation_budget == old(self).ctx.instantiation_budget,
                parents_only_cleared(old(self).ctx.types.infos@, self.ctx.types.infos@),
                cleared_reported(old(self).ctx.types.infos@, self.ctx.types.infos@, self.diagnostics@, old(self).diagnostics@.len()),
                forall|k: int|
                    old(self).diagnostics@.len() <= k < self.diagnostics@.len() ==> (#[trigger] self.diagnostics@[k]).kind is CyclicInheritance,
                forall|j: int| 0 <= j < i ==> declared_type_rooted(old(self).ctx.types, self.ctx.types.infos@, #[trigger] decls@[j]),
            decreases decls.len() - i,
        {
            let ghost before_i = self.ctx.types.infos@;
            match &decls[i].node {
                DeclKind::Type { name, .. } => {
                    proof {
                        assert(same_shape(old(self).ctx.types.infos@, self.ctx.types.infos@)) by {
                            assert forall|k: int| 0 <= k < old(self).ctx.types.infos@.len() implies (#[trigger] old(self).ctx.types.infos@[k]).name == self.ctx.types.infos@[k].name by {
                                assert(self.ctx.types.infos@[k] == old(self).ctx.types.infos@[k] || self.ctx.types.infos@[k] == TypeInfo { parent: None, ..old(self).ctx.types.infos@[k] });
                            }
                        }
                        lemma_same_names_same_resolve(old(self).ctx.types, self.ctx.types, name@);
                    }
                    match self.ctx.types.resolve(name.as_str()) {
                        Some(start_id) => {
                            let ghost walk_table = self.ctx.types.infos@;
                            let mut current = self.ctx.types.get_parent(start_id);
                            proof { assert(info_valid(self.ctx.types.infos@[start_id.0 as int], self.ty_count())); }
                            let mut visited: Vec<TypeId> = Vec::new();
                            visited.push(start_id);
                            let mut fuel: usize = self.ctx.types.infos.len();
                            let ghost mut done = false;
                            while fuel > 0
                                invariant_except_break
                                    self.ctx.types.infos@ == walk_table,
                                    visited@.no_duplicates(),
                                    visited@.len() + fuel == walk_table.len() + 1,
                                    visited@.len() <= walk_table.len(),
                                    forall|k: int| 0 <= k < visited@.len() ==> (#[trigger] visited@[k]).0 < walk_table.len(),
                                    forall|f: nat| rooted_from(walk_table, current, f) ==> rooted(walk_table, start_id, f + visited@.len()),
                                invariant
                                    self.wf(),
                                    opt_id_below(current, self.ty_count()),
                                    start_id.0 < self.ty_count(),
                                    i < decls@.len(),
                                    keeps_errors(old(self).diagnostics@, self.diagnostics@),
                                    self.ctx.scopes == old(self).ctx.scopes,
                                    self.ctx.instantiation_budget == old(self).ctx.instantiation_budget,
                                    parents_only_cleared(old(self).ctx.types.infos@, self.ctx.types.infos@),
                                    parents_only_cleared(walk_table, self.ctx.types.infos@),
                                    cleared_reported(old(self).ctx.types.infos@, self.ctx.types.infos@, self.diagnostics@, old(self).diagnostics@.len()),
                                    walk_table[start_id.0 as int].name@ == name@,
                                    forall|k: int|
                                        old(self).diagnostics@.len() <= k < self.diagnostics@.len() ==> (#[trigger] self.diagnostics@[k]).kind is CyclicInheritance,
                                ensures
                                    cleared_reported(old(self).ctx.types.infos@, self.ctx.types.infos@, self.diagnostics@, old(self).diagnostics@.len()),
                                    self.wf(),
                                    keeps_errors(old(self).diagnostics@, self.diagnostics@),
                                    self.ctx.scopes == old(self).ctx.scopes,
                                    self.ctx.instantiation_budget == old(self).ctx.instantiation_budget,
                                    parents_only_cleared(old(self).ctx.types.infos@, self.ctx.types.infos@),
                                    parents_only_cleared(walk_table, self.ctx.types.infos@),
                                    forall|k: int|
                                        old(self).diagnostics@.len() <= k < self.diagnostics@.len() ==> (#[trigger] self.diagnostics@[k]).kind is CyclicInheritance,
                                    rooted(self.ctx.types.infos@, start_id, self.ctx.types.infos@.len()),
                                decreases fuel,
                            {
                                let parent_id = match current {
                                    Some(p) => p,
                                    None => {
                                        proof {
                                            assert(rooted_from(walk_table, current, 0));
                                            assert(rooted(self.ctx.types.infos@, start_id, visited@.len()));
                                            lemma_rooted_mono(self.ctx.types.infos@, start_id, visited@.len(), self.ctx.types.infos@.len());
                                        }
                                        break;
                                    },
                                };
                                if contains_id(&visited, parent_id) {
                                    let ghost mid = self.diagnostics@;
                                    self.report(SemanticErrorKind::CyclicInheritance { name: name.clone() }, decls[i].span);
                                    proof { lemma_one_more_keeps(mid, self.diagnostics@); }
                                    let ghost t0 = self.ctx.types.infos@;
                                    self.ctx.types.set_parent(start_id, None);
                                    proof {
                                        let t1 = self.ctx.types.infos@;
                                        let o = old(self).ctx.types.infos@;
                                        lemma_cleared_reported_kept(o, t0, mid, self.diagnostics@, old(self).diagnostics@.len());
                                        let last = self.diagnostics@.len() - 1;
                                        assert(o[start_id.0 as int].name@ == name@) by {
                                            assert(t0[start_id.0 as int].name == o[start_id.0 as int].name);
                                            assert(t0[start_id.0 as int] == walk_table[start_id.0 as int] || t0[start_id.0 as int] == TypeInfo { parent: None, ..walk_table[start_id.0 as int] });
                                        }
                                        assert(cycle_reported(self.diagnostics@, old(self).diagnostics@.len(), o[start_id.0 as int].name@)) by {
                                            assert(self.diagnostics@[last].kind matches SemanticErrorKind::CyclicInheritance { name: n } && n@ == name@);
                                        }
                                        assert forall|k: int|
                                            0 <= k < o.len() && (#[trigger] t1[k]).parent is None && o[k].parent is Some implies cycle_reported(
                                                self.diagnostics@,
                                                old(self).diagnostics@.len(),
                                                o[k].name@,
                                            ) by {
                                            if k != start_id.0 {
                                                assert(t1[k] == t0[k]);
                                            }
                                        }
                                        assert forall|k: int| 0 <= k < o.len() implies (#[trigger] t1[k] == o[k] || t1[k] == TypeInfo { parent: None, ..o[k] }) by {
                                            if k == start_id.0 {
                                                assert(t0[k] == o[k] || t0[k] == TypeInfo { parent: None, ..o[k] });
                                            } else {
                                                assert(t1[k] == t0[k]);
                                            }
                                        }
                                        assert forall|k: int| 0 <= k < walk_table.len() implies (#[trigger] t1[k] == walk_table[k] || t1[k] == TypeInfo { parent: None, ..walk_table[k] }) by {
                                            if k != start_id.0 {
                                                assert(t1[k] == t0[k]);
                                            }
                                        }
                                        assert(rooted(t1, start_id, 1));
                                        lemma_rooted_mono(t1, start_id, 1, t1.len());
                                    }
                                    break;
                                }
                                proof {
                                    assert(!visited@.contains(parent_id));
                                    assert(info_valid(self.ctx.types.infos@[parent_id.0 as int], self.ty_count()));
                                }
                                let ghost vbefore = visited@;
                                visited.push(parent_id);
                                proof {
                                    assert(visited@.no_duplicates()) by {
                                        assert forall|a: int, b: int| 0 <= a < visited@.len() && 0 <= b < visited@.len() && a != b implies visited@[a] != visited@[b] by {
                                            if a < vbefore.len() && b < vbefore.len() {
                                                assert(visited@[a] == vbefore[a] && visited@[b] == vbefore[b]);
                                            } else if a < vbefore.len() {
                                                assert(visited@[a] == vbefore[a]);
                                                assert(vbefore.contains(vbefore[a]));
                                            } else {
                                                assert(visited@[b] == vbefore[b]);
                                                assert(vbefore.contains(vbefore[b]));
                                            }
                                        }
                                    }
                                    lemma_distinct_ids_bounded(visited@, walk_table.len());
                                }
                                let ghost cur_before = current;
                                current = self.ctx.types.get_parent(parent_id);
                                proof {
                                    assert forall|f: nat| rooted_from(walk_table, current, f) implies rooted(walk_table, start_id, f + visited@.len()) by {
                                        assert(rooted(walk_table, parent_id, f + 1));
                                        assert(rooted_from(walk_table, cur_before, f + 1));
                                    }
                                }
                                fuel = fuel - 1;
                            }
                        },
                        None => {},
                    }
                },
                _ => {},
            }
            proof {
                assert forall|j: int| 0 <= j < i + 1 implies declared_type_rooted(old(self).ctx.types, self.ctx.types.infos@, #[trigger] decls@[j]) by {
                    if j < i {
                        match decls@[j].node {
                            DeclKind::Type { name, .. } => match old(self).ctx.types.spec_resolve(name@) {
                                Some(id) => {
                                    assert(declared_type_rooted(old(self).ctx.types, before_i, decls@[j]));
                                    lemma_rooted_after_clear(before_i, self.ctx.types.infos@, id, before_i.len());
                                },
                                None => {},
                            },
                            _ => {},
                        }
                    }
                }
            }
            i = i + 1;
        }
    }

    /// The constructor parameters a type effectively takes (see `effective_params`).
    pub fn resolve_effective_constructor(&self, type_id: TypeId) -> (r: Vec<ConstructorParam>)
        requires
            self.wf(),
            type_id.0 < self.ty_count(),
        ensures
            same_params(r@, effective_params(self.ctx.types.infos@, chain_ids(self.ctx.types.infos@, type_id, self.ty_count()))),
            params_valid(r@, self.ty_count()),
    {
        let ghost t = self.ctx.types.infos@;
        let ghost goal = effective_params(t, chain_ids(t, type_id, t.len()));
        let mut current: Option<TypeId> = Some(type_id);
        let mut fuel: usize = self.ctx.types.infos.len();
        loop
            invariant
                self.wf(),
                t == self.ctx.types.infos@,
                opt_id_below(current, t.len()),
                goal == effective_params(t, chain_ids(t, type_id, t.len())),
                goal == effective_params(t, walk_from(t, current, fuel as nat)),
            decreases fuel,
        {
            let id = match current {
                Some(id) => id,
                None => {
                    return Vec::new();
                },
            };
            if fuel == 0 {
                return Vec::new();
            }
            let ghost rest = walk_from(t, t[id.0 as int].parent, (fuel - 1) as nat);
            proof {
                assert(chain_ids(t, id, fuel as nat) == seq![id] + rest);
                assert((seq![id] + rest).drop_first() =~= rest);
                assert((seq![id] + rest)[0] == id);
                assert(info_valid(t[id.0 as int], t.len()));
            }
            let info = self.ctx.types.get(id);
            match &info.declared_constructor_params {
                Some(params) => {
                    let r = copy_constructor_params(params);
                    proof {
                        assert forall|k: int| 0 <= k < r@.len() implies opt_id_below(#[trigger] r@[k].ty, t.len()) by {
                            assert(r@[k].ty == params@[k].ty);
                        }
                    }
                    return r;
                },
                None => {},
            }
            current = info.parent;
            fuel = fuel - 1;
        }
    }

    /// Gives every type its effective constructor parameters (see
    /// `effective_params`); a type becomes a generic template when one of
    /// them has no type.
    pub fn resolve_constructor_signatures(&mut self)
        requires
            old(self).wf(),
        ensures
            decl_frame(*old(self), *final(self)),
            final(self).diagnostics == old(self).diagnostics,
            final(self).ctx.scopes == old(self).ctx.scopes,
            final(self).ctx.types.infos@.len() == old(self).ctx.types.infos@.len(),
            forall|k: int|
                0 <= k < old(self).ty_count() ==> {
                    let before = old(self).ctx.types.infos@[k];
                    let after = #[trigger] final(self).ctx.types.infos@[k];
                    &&& same_params(
                        after.constructor_params@,
                        effective_params(
                            old(self).ctx.types.infos@,
                            chain_ids(old(self).ctx.types.infos@, TypeId(k as usize), old(self).ty_count()),
                        ),
                    )
                    &&& after.is_generic_template == exists|q: int|
                        0 <= q < after.constructor_params@.len() && (#[trigger] after.constructor_params@[q]).ty is None
                    &&& after == TypeInfo {
                        constructor_params: after.constructor_params,
                        is_generic_template: after.is_generic_template,
                        ..before
                    }
                },
    {
        let len = self.ctx.types.infos.len();
        let ghost t = self.ctx.types.infos@;
        let mut all: Vec<Vec<ConstructorParam>> = Vec::new();
        let mut idx: usize = 0;
        while idx < len
            invariant
                self == old(self),
                self.wf(),
                len == t.len(),
                t == self.ctx.types.infos@,
                idx <= len,
                all@.len() == idx,
                forall|k: int|
                    0 <= k < idx ==> same_params(
                        (#[trigger] all@[k])@,
                        effective_params(t, chain_ids(t, TypeId(k as usize), t.len())),
                    ) && params_valid(all@[k]@, t.len()),
            decreases len - idx,
        {
            let e = self.resolve_effective_constructor(TypeId(idx));
            all.push(e);
            idx = idx + 1;
        }
        let mut j: usize = len;
        while j > 0
            invariant
                self.wf(),
                self.diagnostics == old(self).diagnostics,
                self.ctx.scopes == old(self).ctx.scopes,
                self.ctx.instantiation_budget == old(self).ctx.instantiation_budget,
                len == t.len(),
                t == old(self).ctx.types.infos@,
                self.ctx.types.infos@.len() == len,
                j <= len,
                all@.len() == j,
                forall|k: int|
                    0 <= k < j ==> same_params(
                        (#[trigger] all@[k])@,
                        effective_params(t, chain_ids(t, TypeId(k as usize), t.len())),
                    ) && params_valid(all@[k]@, t.len()),
                forall|k: int| 0 <= k < j ==> #[trigger] self.ctx.types.infos@[k] == t[k],
                forall|k: int|
                    j <= k < len ==> {
                        let after = #[trigger] self.ctx.types.infos@[k];
                        &&& same_params(after.constructor_params@, effective_params(t, chain_ids(t, TypeId(k as usize), t.len())))
                        &&& after.is_generic_template == exists|q: int|
                            0 <= q < after.constructor_params@.len() && (#[trigger] after.constructor_params@[q]).ty is None
                        &&& after == TypeInfo {
                            constructor_params: after.constructor_params,
                            is_generic_template: after.is_generic_template,
                            ..t[k]
                        }
                    },
            decreases j,
        {
            let e = all.pop().unwrap();
            j = j - 1;
            let ghost before = self.ctx.types.infos@;
            self.ctx.types.set_effective_constructor_params(TypeId(j), e);
            proof {
                let after = self.ctx.types.infos@;
                assert forall|k: int| 0 <= k < j implies #[trigger] after[k] == t[k] by {
                    assert(after[k] == before[k]);
                }
                assert forall|k: int| j < k < len implies #[trigger] after[k] == before[k] by {}
            }
        }
    }
}


/// A protocol that one of the protocols it extends reaches back.
pub open spec fn on_cycle(t: Seq<TypeInfo>, x: TypeId) -> bool {
    exists|q: int|
        0 <= q < protocol_parents(t[x.0 as int]).len() && crate::types::reach_within(
            t,
            #[trigger] protocol_parents(t[x.0 as int])[q],
            x,
            t.len(),
        )
}

/// `e` is a `CyclicProtocolExtension` naming a protocol that lies on a cycle.
pub open spec fn names_cyclic_protocol(t: Seq<TypeInfo>, e: SemanticError) -> bool {
    &&& e.kind is CyclicProtocolExtension
    &&& exists|x: int| 0 <= x < t.len() && t[x].name@ == e.kind->CyclicProtocolExtension_protocol_name@ && on_cycle(t, TypeId(x as usize))
}

/// `e` names a protocol on a cycle that some protocol of `decls` reaches
/// through extension.
pub open spec fn names_reached_cyclic_protocol(t: crate::types::TypeTable, decls: Seq<Decl>, e: SemanticError) -> bool {
    exists|x: int, j: int|
        {
            &&& 0 <= x < t.infos@.len()
            &&& 0 <= j < decls.len()
            &&& (#[trigger] t.infos@[x]).name@ == e.kind->CyclicProtocolExtension_protocol_name@
            &&& on_cycle(t.infos@, TypeId(x as usize))
            &&& (#[trigger] decls[j]).node is Protocol
            &&& t.spec_resolve(decls[j].node->Protocol_name@) is Some
            &&& (t.spec_resolve(decls[j].node->Protocol_name@)->0).0 < t.infos@.len()
            &&& crate::types::reach_within(t.infos@, t.spec_resolve(decls[j].node->Protocol_name@)->0, TypeId(x as usize), t.infos@.len())
        }
}

/// `d` declares a protocol that lies on a cycle of `t`.
pub open spec fn declares_cyclic_protocol(t: crate::types::TypeTable, d: Decl) -> bool {
    match d.node {
        DeclKind::Protocol { name, .. } => match t.spec_resolve(name@) {
            Some(p) => p.0 < t.infos@.len() && on_cycle(t.infos@, p),
            None => false,
        },
        _ => false,
    }
}

/// A protocol reaches itself.
proof fn lemma_reaches_itself(t: Seq<TypeInfo>, s: TypeId, k: nat)
    ensures
        crate::types::reach_set(t, s, k).contains(s),
    decreases k,
{
    if k > 0 {
        lemma_reaches_itself(t, s, (k - 1) as nat);
    }
}

impl SemanticAnalyzer {
    /// Whether a protocol extends, directly or not, itself.
    fn protocol_on_cycle(&self, x: TypeId) -> (b: bool)
        requires
            self.wf(),
            x.0 < self.ty_count(),
        ensures
            b == on_cycle(self.ctx.types.infos@, x),
    {
        proof { assert(info_valid(self.ctx.types.infos@[x.0 as int], self.ty_count())); }
        match &self.ctx.types.get(x).kind {
            crate::types::TypeKind::Protocol { parents } => {
                let mut q: usize = 0;
                while q < parents.len()
                    invariant
                        self.wf(),
                        x.0 < self.ty_count(),
                        q <= parents@.len(),
                        parents@ == protocol_parents(self.ctx.types.infos@[x.0 as int]),
                        forall|k: int| 0 <= k < parents@.len() ==> (#[trigger] parents@[k]).0 < self.ty_count(),
                        forall|k: int| 0 <= k < q ==> !crate::types::reach_within(
                            self.ctx.types.infos@,
                            #[trigger] parents@[k],
                            x,
                            self.ty_count(),
                        ),
                    decreases parents.len() - q,
                {
                    if self.ctx.types.protocol_reaches(parents[q], x) {
                        return true;
                    }
                    q = q + 1;
                }
                false
            },
            crate::types::TypeKind::Class => {
                proof { assert(protocol_parents(self.ctx.types.infos@[x.0 as int]) =~= Seq::<TypeId>::empty()); }
                false
            },
        }
    }

    /// The span of the declaration of protocol `id` among `decls` (`default`
    /// when none declares it).
    fn protocol_decl_span(&self, decls: &[Decl], id: TypeId, default: Span) -> (r: Span)
        requires
            self.wf(),
    {
        let mut i: usize = 0;
        while i < decls.len()
            invariant
                self.wf(),
                i <= decls@.len(),
            decreases decls.len() - i,
        {
            match &decls[i].node {
                DeclKind::Protocol { name, .. } => {
                    match self.ctx.types.resolve(name.as_str()) {
                        Some(pid) => {
                            if pid == id {
                                return decls[i].span;
                            }
                        },
                        None => {},
                    }
                },
                _ => {},
            }
            i = i + 1;
        }
        default
    }

    /// Looks for cycles among protocol extensions: from each declared
    /// protocol not yet reached from an earlier one, the protocols it
    /// reaches are visited, and the first of them (by type order) that
    /// extends itself, if any, gives `CyclicProtocolExtension`. Answers
    /// whether no cycle was found; every protocol it names lies on a cycle,
    /// and a cycle through a declared protocol is always found.
    pub fn check_circular_protocols_extension(&mut self, decls: &[Decl]) -> (ok: bool)
        requires
            old(self).wf(),
        ensures
            final(self).ctx == old(self).ctx,
            (exists|j: int| 0 <= j < decls@.len() && declares_cyclic_protocol(old(self).ctx.types, #[trigger] decls@[j])) ==> !ok,
            keeps_errors(old(self).diagnostics@, final(self).diagnostics@),
            ok == (final(self).diagnostics@.len() == old(self).diagnostics@.len()),
            forall|k: int|
                old(self).diagnostics@.len() <= k < final(self).diagnostics@.len() ==> names_cyclic_protocol(old(self).ctx.types.infos@, #[trigger] final(self).diagnostics@[k]),
            forall|k: int|
                old(self).diagnostics@.len() <= k < final(self).diagnostics@.len() ==> names_reached_cyclic_protocol(
                    old(self).ctx.types,
                    decls@,
                    #[trigger] final(self).diagnostics@[k],
                ),
    {
        let n = self.ctx.types.infos.len();
        let mut covered: Vec<bool> = Vec::new();
        let mut c: usize = 0;
        while c < n
            invariant
                c <= n,
                covered@.len() == c,
                forall|y: int| 0 <= y < c ==> !#[trigger] covered@[y],
            decreases n - c,
        {
            covered.push(false);
            c = c + 1;
        }
        let mut ok = true;
        let mut i: usize = 0;
        while i < decls.len()
            invariant
                self.wf(),
                self.ctx == old(self).ctx,
                n == self.ty_count(),
                covered@.len() == n,
                i <= decls@.len(),
                keeps_errors(old(self).diagnostics@, self.diagnostics@),
                ok == (self.diagnostics@.len() == old(self).diagnostics@.len()),
                forall|k: int|
                    old(self).diagnostics@.len() <= k < self.diagnostics@.len() ==> names_cyclic_protocol(old(self).ctx.types.infos@, #[trigger] self.diagnostics@[k]),
                forall|k: int|
                    old(self).diagnostics@.len() <= k < self.diagnostics@.len() ==> names_reached_cyclic_protocol(
                        old(self).ctx.types,
                        decls@,
                        #[trigger] self.diagnostics@[k],
                    ),
                forall|y: int| 0 <= y < n && #[trigger] covered@[y] && on_cycle(self.ctx.types.infos@, TypeId(y as usize)) ==> !ok,
                forall|j: int| 0 <= j < i && declares_cyclic_protocol(old(self).ctx.types, #[trigger] decls@[j]) ==> !ok,
            decreases decls.len() - i,
        {
            match &decls[i].node {
                DeclKind::Protocol { name, .. } => {
                    match self.ctx.types.resolve(name.as_str()) {
                        Some(pid) => {
                            if !covered[pid.0] {
                                let mut found: Option<TypeId> = None;
                                let mut x: usize = 0;
                                while x < n
                                    invariant
                                        self.wf(),
                                        self.ctx == old(self).ctx,
                                        n == self.ty_count(),
                                        covered@.len() == n,
                                        pid.0 < n,
                                        x <= n,
                                        match found {
                                            Some(f) => f.0 < n && on_cycle(self.ctx.types.infos@, f) && crate::types::reach_within(
                                                self.ctx.types.infos@,
                                                pid,
                                                f,
                                                self.ctx.types.infos@.len(),
                                            ),
                                            None => true,
                                        },
                                        forall|y: int| 0 <= y < n && #[trigger] covered@[y] && on_cycle(self.ctx.types.infos@, TypeId(y as usize)) ==> (!ok || found is Some),
                                        x > pid.0 ==> covered@[pid.0 as int],
                                    decreases n - x,
                                {
                                    proof { lemma_reaches_itself(self.ctx.types.infos@, pid, n as nat); }
                                    if self.ctx.types.protocol_reaches(pid, TypeId(x)) {
                                        covered.set(x, true);
                                        if found.is_none() && self.protocol_on_cycle(TypeId(x)) {
                                            found = Some(TypeId(x));
                                        }
                                    }
                                    x = x + 1;
                                }
                                match found {
                                    Some(f) => {
                                        let ghost mid = self.diagnostics@;
                                        let protocol_name = self.type_label(f);
                                        let span = self.protocol_decl_span(decls, f, decls[i].span);
                                        self.report(SemanticErrorKind::CyclicProtocolExtension { protocol_name }, span);
                                        proof {
                                            lemma_one_more_keeps(mid, self.diagnostics@);
                                            assert(old(self).ctx.types.infos@[f.0 as int].name@ == self.name_of(f));
                                            assert(TypeId(f.0 as int as usize) == f);
                                            let e = self.diagnostics@.last();
                                            assert(names_reached_cyclic_protocol(old(self).ctx.types, decls@, e)) by {
                                                let ii = i as int;
                                                let x = f.0 as int;
                                                assert(decls@[ii].node is Protocol);
                                                assert(old(self).ctx.types.spec_resolve(decls@[ii].node->Protocol_name@) == Some(pid));
                                                assert(0 <= x < old(self).ctx.types.infos@.len() && 0 <= ii < decls@.len()
                                                    && old(self).ctx.types.infos@[x].name@ == e.kind->CyclicProtocolExtension_protocol_name@
                                                    && on_cycle(old(self).ctx.types.infos@, TypeId(x as usize)));
                                            }
                                        }
                                        ok = false;
                                    },
                                    None => {},
                                }
                            }
                        },
                        None => {},
                    }
                },
                _ => {},
            }
            i = i + 1;
        }
        ok
    }

    /// Gives each declared protocol the methods of all the protocols it
    /// reaches through extension (itself first, then breadth first). A
    /// method whose name was already gathered gives
    /// `ProtocolMethodCollision`, naming the protocol it comes from.
    pub fn collect_extended_methods(&mut self, decls: &[Decl])
        requires
            old(self).wf(),
        ensures
            decl_frame(*old(self), *final(self)),
            final(self).ctx.scopes == old(self).ctx.scopes,
            same_shape(old(self).ctx.types.infos@, final(self).ctx.types.infos@),
            forall|k: int|
                old(self).diagnostics@.len() <= k < final(self).diagnostics@.len() ==> (#[trigger] final(self).diagnostics@[k]).kind is ProtocolMethodCollision,
            forall|j: int|
                0 <= j < decls@.len() && (#[trigger] decls@[j]).node is Protocol && old(self).ctx.types.spec_resolve(decls@[j].node->Protocol_name@)
                    is Some ==> {
                    let id = old(self).ctx.types.spec_resolve(decls@[j].node->Protocol_name@)->0;
                    reachable_methods_gathered(old(self).ctx.types.infos@, id, final(self).ctx.types.infos@[id.0 as int].methods@)
                },
            forall|j: int|
                0 <= j < decls@.len() && (#[trigger] decls@[j]).node is Protocol && old(self).ctx.types.spec_resolve(decls@[j].node->Protocol_name@)
                    is Some ==> {
                    let id = old(self).ctx.types.spec_resolve(decls@[j].node->Protocol_name@)->0;
                    only_reachable_methods(old(self).ctx.types.infos@, id, final(self).ctx.types.infos@[id.0 as int].methods@)
                },
            forall|j: int|
                0 <= j < decls@.len() && (#[trigger] decls@[j]).node is Protocol && old(self).ctx.types.spec_resolve(decls@[j].node->Protocol_name@)
                    is Some ==> collisions_reported(
                    old(self).ctx.types.infos@,
                    old(self).ctx.types.spec_resolve(decls@[j].node->Protocol_name@)->0,
                    final(self).diagnostics@,
                    old(self).diagnostics@.len(),
                ),
    {
        let n = self.ctx.types.infos.len();
        let ghost t = self.ctx.types.infos@;
        let mut store: Vec<(TypeId, Vec<Symbol>)> = Vec::new();
        let mut i: usize = 0;
        while i < decls.len()
            invariant
                self.wf(),
                self.ctx == old(self).ctx,
                n == self.ty_count(),
                i <= decls@.len(),
                keeps_errors(old(self).diagnostics@, self.diagnostics@),
                forall|k: int|
                    old(self).diagnostics@.len() <= k < self.diagnostics@.len() ==> (#[trigger] self.diagnostics@[k]).kind is ProtocolMethodCollision,
                forall|k: int| 0 <= k < store@.len() ==> ((#[trigger] store@[k]).0).0 < n && crate::types::symbols_valid(store@[k].1@, n as nat),
                t == self.ctx.types.infos@,
                forall|k: int| 0 <= k < store@.len() ==> reachable_methods_gathered(t, (#[trigger] store@[k]).0, store@[k].1@),
                forall|k: int| 0 <= k < store@.len() ==> only_reachable_methods(t, (#[trigger] store@[k]).0, store@[k].1@),
                forall|k: int|
                    0 <= k < store@.len() ==> collisions_reported(t, (#[trigger] store@[k]).0, self.diagnostics@, old(self).diagnostics@.len()),
                forall|j: int|
                    0 <= j < i && (#[trigger] decls@[j]).node is Protocol && t_resolves(old(self).ctx.types, decls@[j].node->Protocol_name@)
                        ==> exists|k: int|
                        0 <= k < store@.len() && (#[trigger] store@[k]).0 == old(self).ctx.types.spec_resolve(
                            decls@[j].node->Protocol_name@,
                        )->0,
            decreases decls.len() - i,
        {
            let ghost sb = store@;
            match &decls[i].node {
                DeclKind::Protocol { name, .. } => {
                    match self.ctx.types.resolve(name.as_str()) {
                        Some(id) => {
                            let ghost bd = self.diagnostics@;
                            let all_methods = self.gather_protocol_methods(id);
                            store.push((id, all_methods));
                            proof {
                                assert(store@[sb.len() as int].0 == id);
                                assert forall|k: int| 0 <= k < store@.len() implies only_reachable_methods(
                                    t,
                                    (#[trigger] store@[k]).0,
                                    store@[k].1@,
                                ) by {
                                    if k < sb.len() {
                                        assert(store@[k] == sb[k]);
                                    }
                                }
                                lemma_collisions_from(t, id, self.diagnostics@, old(self).diagnostics@.len(), bd.len());
                                assert forall|k: int| 0 <= k < store@.len() implies collisions_reported(
                                    t,
                                    (#[trigger] store@[k]).0,
                                    self.diagnostics@,
                                    old(self).diagnostics@.len(),
                                ) by {
                                    if k < sb.len() {
                                        assert(store@[k] == sb[k]);
                                        lemma_collisions_kept(t, sb[k].0, bd, self.diagnostics@, old(self).diagnostics@.len());
                                    }
                                }
                            }
                        },
                        None => {},
                    }
                },
                _ => {},
            }
            proof {
                assert forall|j: int|
                    0 <= j < i + 1 && (#[trigger] decls@[j]).node is Protocol && t_resolves(old(self).ctx.types, decls@[j].node->Protocol_name@)
                        implies exists|k: int|
                        0 <= k < store@.len() && (#[trigger] store@[k]).0 == old(self).ctx.types.spec_resolve(
                            decls@[j].node->Protocol_name@,
                        )->0 by {
                    if j < i {
                        let k = choose|k: int|
                            0 <= k < sb.len() && (#[trigger] sb[k]).0 == old(self).ctx.types.spec_resolve(decls@[j].node->Protocol_name@)->0;
                        assert(store@[k] == sb[k]);
                    } else {
                        assert(store@[sb.len() as int].0 == old(self).ctx.types.spec_resolve(decls@[j].node->Protocol_name@)->0);
                    }
                }
            }
            i = i + 1;
        }
        let mut j: usize = 0;
        while j < store.len()
            invariant
                self.wf(),
                j <= store@.len(),
                n == self.ty_count(),
                keeps_errors(old(self).diagnostics@, self.diagnostics@),
                self.ctx.scopes == old(self).ctx.scopes,
                self.ctx.instantiation_budget == old(self).ctx.instantiation_budget,
                same_shape(old(self).ctx.types.infos@, self.ctx.types.infos@),
                forall|k: int|
                    old(self).diagnostics@.len() <= k < self.diagnostics@.len() ==> (#[trigger] self.diagnostics@[k]).kind is ProtocolMethodCollision,
                forall|k: int| 0 <= k < store@.len() ==> ((#[trigger] store@[k]).0).0 < n && crate::types::symbols_valid(store@[k].1@, n as nat),
                forall|k: int| 0 <= k < store@.len() ==> reachable_methods_gathered(t, (#[trigger] store@[k]).0, store@[k].1@),
                forall|k: int| 0 <= k < store@.len() ==> only_reachable_methods(t, (#[trigger] store@[k]).0, store@[k].1@),
                forall|k: int|
                    0 <= k < store@.len() ==> collisions_reported(t, (#[trigger] store@[k]).0, self.diagnostics@, old(self).diagnostics@.len()),
                forall|k: int|
                    0 <= k < j ==> only_reachable_methods(t, (#[trigger] store@[k]).0, self.ctx.types.infos@[store@[k].0.0 as int].methods@),
                t.len() == n,
                self.ctx.types.infos@.len() == n,
                forall|k: int|
                    0 <= k < j ==> reachable_methods_gathered(t, (#[trigger] store@[k]).0, self.ctx.types.infos@[store@[k].0.0 as int].methods@),
            decreases store.len() - j,
        {
            let id = store[j].0;
            let mut methods: Vec<Symbol> = Vec::new();
            let mut q: usize = 0;
            while q < store[j].1.len()
                invariant
                    j < store@.len(),
                    q <= store@[j as int].1@.len(),
                    methods@.len() == q,
                    crate::types::symbols_valid(store@[j as int].1@, n as nat),
                    crate::types::symbols_valid(methods@, n as nat),
                    forall|w: int| 0 <= w < q ==> (#[trigger] methods@[w]).name@ == store@[j as int].1@[w].name@,
                decreases store@[j as int].1@.len() - q,
            {
                methods.push(store[j].1[q].duplicate());
                proof {
                    crate::symbols::lemma_same_symbol_type_valid(store@[j as int].1@[q as int].ty, methods@.last().ty, n as nat);
                }
                q = q + 1;
            }
            let ghost tb = self.ctx.types.infos@;
            let ghost ms = methods@;
            self.ctx.types.set_methods(id, methods);
            proof {
                let ta = self.ctx.types.infos@;
                assert(ta[id.0 as int].methods@ == ms);
                assert(reachable_methods_gathered(t, id, ms)) by {
                    let src = store@[j as int].1@;
                    assert forall|x: TypeId, k: nat, nm: Seq<char>|
                        #[trigger] crate::types::reach_set(t, id, k).contains(x) && #[trigger] has_named(t[x.0 as int].methods@, nm) implies has_named(ms, nm) by {
                        assert(has_named(src, nm));
                        let w = choose|w: int| 0 <= w < src.len() && (#[trigger] src[w]).name@ == nm;
                        assert(ms[w].name@ == nm);
                    }
                }
                assert forall|k: int| 0 <= k < j + 1 implies reachable_methods_gathered(
                    t,
                    (#[trigger] store@[k]).0,
                    ta[store@[k].0.0 as int].methods@,
                ) by {
                    if store@[k].0 != id {
                        assert(ta[store@[k].0.0 as int] == tb[store@[k].0.0 as int]);
                    }
                }
                lemma_only_reachable_same_names(t, id, store@[j as int].1@, ms);
                assert forall|k: int| 0 <= k < j + 1 implies only_reachable_methods(
                    t,
                    (#[trigger] store@[k]).0,
                    ta[store@[k].0.0 as int].methods@,
                ) by {
                    if store@[k].0 != id {
                        assert(ta[store@[k].0.0 as int] == tb[store@[k].0.0 as int]);
                    }
                }
            }
            j = j + 1;
        }
        proof {
            assert forall|jj: int|
                0 <= jj < decls@.len() && (#[trigger] decls@[jj]).node is Protocol && old(self).ctx.types.spec_resolve(decls@[jj].node->Protocol_name@)
                    is Some implies reachable_methods_gathered(
                t,
                old(self).ctx.types.spec_resolve(decls@[jj].node->Protocol_name@)->0,
                self.ctx.types.infos@[(old(self).ctx.types.spec_resolve(decls@[jj].node->Protocol_name@)->0).0 as int].methods@,
            ) by {
                assert(t_resolves(old(self).ctx.types, decls@[jj].node->Protocol_name@));
                let k = choose|k: int|
                    0 <= k < store@.len() && (#[trigger] store@[k]).0 == old(self).ctx.types.spec_resolve(decls@[jj].node->Protocol_name@)->0;
            }
            assert forall|jj: int|
                0 <= jj < decls@.len() && (#[trigger] decls@[jj]).node is Protocol && old(self).ctx.types.spec_resolve(decls@[jj].node->Protocol_name@)
                    is Some implies collisions_reported(
                t,
                old(self).ctx.types.spec_resolve(decls@[jj].node->Protocol_name@)->0,
                self.diagnostics@,
                old(self).diagnostics@.len(),
            ) by {
                assert(t_resolves(old(self).ctx.types, decls@[jj].node->Protocol_name@));
                let k = choose|k: int|
                    0 <= k < store@.len() && (#[trigger] store@[k]).0 == old(self).ctx.types.spec_resolve(decls@[jj].node->Protocol_name@)->0;
            }
            assert forall|jj: int|
                0 <= jj < decls@.len() && (#[trigger] decls@[jj]).node is Protocol && old(self).ctx.types.spec_resolve(decls@[jj].node->Protocol_name@)
                    is Some implies only_reachable_methods(
                t,
                old(self).ctx.types.spec_resolve(decls@[jj].node->Protocol_name@)->0,
                self.ctx.types.infos@[(old(self).ctx.types.spec_resolve(decls@[jj].node->Protocol_name@)->0).0 as int].methods@,
            ) by {
                assert(t_resolves(old(self).ctx.types, decls@[jj].node->Protocol_name@));
                let k = choose|k: int|
                    0 <= k < store@.len() && (#[trigger] store@[k]).0 == old(self).ctx.types.spec_resolve(decls@[jj].node->Protocol_name@)->0;
            }
        }
    }

    /// The methods gathered for protocol `id` (see `collect_extended_methods`):
    /// a method of every name that `id` or a protocol it reaches declares.
    fn gather_protocol_methods(&mut self, id: TypeId) -> (r: Vec<Symbol>)
        requires
            old(self).wf(),
            id.0 < old(self).ty_count(),
        ensures
            final(self).ctx == old(self).ctx,
            keeps_errors(old(self).diagnostics@, final(self).diagnostics@),
            forall|k: int|
                old(self).diagnostics@.len() <= k < final(self).diagnostics@.len() ==> (#[trigger] final(self).diagnostics@[k]).kind is ProtocolMethodCollision,
            crate::types::symbols_valid(r@, old(self).ty_count()),
            reachable_methods_gathered(old(self).ctx.types.infos@, id, r@),
            only_reachable_methods(old(self).ctx.types.infos@, id, r@),
            collisions_reported(old(self).ctx.types.infos@, id, final(self).diagnostics@, old(self).diagnostics@.len()),
    {
        let n = self.ctx.types.infos.len();
        let ghost t = self.ctx.types.infos@;
        let mut used: Vec<bool> = Vec::new();
        let mut c: usize = 0;
        while c < n
            invariant
                c <= n,
                used@.len() == c,
                forall|x: int| 0 <= x < c ==> !(#[trigger] used@[x]),
            decreases n - c,
        {
            used.push(false);
            c = c + 1;
        }
        let mut queue: Vec<TypeId> = Vec::new();
        let mut all_methods: Vec<Symbol> = Vec::new();
        queue.push(id);
        used.set(id.0, true);
        proof {
            assert(crate::types::reach_set(t, id, 0).contains(id));
            assert(reached(t, id, queue@[0]));
            assert forall|x: int| 0 <= x < n implies (used@[x] <==> queue@.contains(TypeId(x as usize))) by {
                if queue@.contains(TypeId(x as usize)) {
                    let q = choose|q: int| 0 <= q < queue@.len() && queue@[q] == TypeId(x as usize);
                    assert(q == 0);
                }
                if x == id.0 {
                    assert(queue@[0] == TypeId(x as usize));
                }
            }
        }
        let mut head: usize = 0;
        while head < queue.len() && head < n
            invariant
                self.wf(),
                self.ctx == old(self).ctx,
                n == self.ty_count(),
                t == self.ctx.types.infos@,
                used@.len() == n,
                head <= queue@.len(),
                queue@.len() >= 1,
                queue@[0] == id,
                queue@.no_duplicates(),
                forall|k: int| 0 <= k < queue@.len() ==> (#[trigger] queue@[k]).0 < n,
                forall|x: int| 0 <= x < n ==> (#[trigger] used@[x] <==> queue@.contains(TypeId(x as usize))),
                parents_queued(t, queue@, head as int),
                methods_gathered(t, queue@, head as int, all_methods@),
                crate::types::symbols_valid(all_methods@, n as nat),
                forall|q: int| 0 <= q < queue@.len() ==> reached(t, id, #[trigger] queue@[q]),
                only_reachable_methods(t, id, all_methods@),
                forall|q1: int, q2: int, nm: Seq<char>|
                    0 <= q1 < q2 < head && #[trigger] has_named(t[queue@[q1].0 as int].methods@, nm) && #[trigger] has_named(
                        t[queue@[q2].0 as int].methods@,
                        nm,
                    ) ==> collision_reported(self.diagnostics@, old(self).diagnostics@.len(), nm),
                keeps_errors(old(self).diagnostics@, self.diagnostics@),
                forall|k: int|
                    old(self).diagnostics@.len() <= k < self.diagnostics@.len() ==> (#[trigger] self.diagnostics@[k]).kind is ProtocolMethodCollision,
            decreases n - head,
        {
            let current = queue[head];
            proof {
                assert(info_valid(self.ctx.types.infos@[current.0 as int], n as nat));
                assert(reached(t, id, queue@[head as int]));
            }
            let ghost info_v = self.ctx.types.infos@[current.0 as int];
            let (own_methods, protocol_name) = {
                let info = self.ctx.types.get(current);
                let mut v: Vec<Symbol> = Vec::new();
                let mut q: usize = 0;
                while q < info.methods.len()
                    invariant
                        q <= info.methods@.len(),
                        v@.len() == q,
                        crate::types::symbols_valid(info.methods@, n as nat),
                        crate::types::symbols_valid(v@, n as nat),
                        forall|w: int| 0 <= w < q ==> (#[trigger] v@[w]).name@ == info.methods@[w].name@,
                    decreases info.methods.len() - q,
                {
                    let copy = info.methods[q].duplicate();
                    proof { crate::symbols::lemma_same_symbol_type_valid(info.methods@[q as int].ty, copy.ty, n as nat); }
                    v.push(copy);
                    q = q + 1;
                }
                (v, info.name.clone())
            };
            let ghost gathered_before = all_methods@;
            let mut m: usize = 0;
            while m < own_methods.len()
                invariant
                    self.wf(),
                    self.ctx == old(self).ctx,
                    n == self.ty_count(),
                    t == self.ctx.types.infos@,
                    current.0 < n,
                    info_v == t[current.0 as int],
                    own_methods@.len() == info_v.methods@.len(),
                    forall|w: int| 0 <= w < own_methods@.len() ==> (#[trigger] own_methods@[w]).name@ == info_v.methods@[w].name@,
                    crate::types::symbols_valid(own_methods@, n as nat),
                    m <= own_methods@.len(),
                    crate::types::symbols_valid(all_methods@, n as nat),
                    forall|nm: Seq<char>| has_named(gathered_before, nm) ==> #[trigger] has_named(all_methods@, nm),
                    forall|w: int| 0 <= w < m ==> has_named(all_methods@, (#[trigger] own_methods@[w]).name@),
                    reached(t, id, current),
                    only_reachable_methods(t, id, all_methods@),
                    head < queue@.len(),
                    current == queue@[head as int],
                    methods_gathered(t, queue@, head as int, gathered_before),
                    forall|q1: int, q2: int, nm: Seq<char>|
                        0 <= q1 < q2 < head && #[trigger] has_named(t[queue@[q1].0 as int].methods@, nm) && #[trigger] has_named(
                            t[queue@[q2].0 as int].methods@,
                            nm,
                        ) ==> collision_reported(self.diagnostics@, old(self).diagnostics@.len(), nm),
                    forall|w: int, q1: int|
                        #![trigger own_methods@[w], queue@[q1]]
                        0 <= w < m && 0 <= q1 < head && has_named(t[queue@[q1].0 as int].methods@, own_methods@[w].name@)
                            ==> collision_reported(self.diagnostics@, old(self).diagnostics@.len(), own_methods@[w].name@),
                    keeps_errors(old(self).diagnostics@, self.diagnostics@),
                    forall|k: int|
                        old(self).diagnostics@.len() <= k < self.diagnostics@.len() ==> (#[trigger] self.diagnostics@[k]).kind is ProtocolMethodCollision,
                decreases own_methods.len() - m,
            {
                if crate::types::find_symbol(&all_methods, &own_methods[m].name).is_some() {
                    let ghost mid = self.diagnostics@;
                    self.report(
                        SemanticErrorKind::ProtocolMethodCollision {
                            protocol_name: protocol_name.clone(),
                            method_name: own_methods[m].name.clone(),
                        },
                        own_methods[m].span,
                    );
                    proof {
                        lemma_one_more_keeps(mid, self.diagnostics@);
                        let from = old(self).diagnostics@.len();
                        let e = self.diagnostics@.len() - 1;
                        assert(self.diagnostics@[e].kind matches SemanticErrorKind::ProtocolMethodCollision { method_name, .. }
                            && method_name@ == own_methods@[m as int].name@);
                        assert(collision_reported(self.diagnostics@, from, own_methods@[m as int].name@));
                        assert forall|q1: int, q2: int, nm: Seq<char>|
                            0 <= q1 < q2 < head && #[trigger] has_named(t[queue@[q1].0 as int].methods@, nm) && #[trigger] has_named(
                                t[queue@[q2].0 as int].methods@,
                                nm,
                            ) implies collision_reported(self.diagnostics@, from, nm) by {
                            lemma_collision_kept(mid, self.diagnostics@, from, nm);
                        }
                        assert forall|w: int, q1: int|
                            #![trigger own_methods@[w], queue@[q1]]
                            0 <= w < m + 1 && 0 <= q1 < head && has_named(t[queue@[q1].0 as int].methods@, own_methods@[w].name@)
                                implies collision_reported(self.diagnostics@, from, own_methods@[w].name@) by {
                            if w < m {
                                lemma_collision_kept(mid, self.diagnostics@, from, own_methods@[w].name@);
                            }
                        }
                    }
                } else {
                    proof {
                        assert forall|q1: int| 0 <= q1 < head implies !has_named(
                            t[(#[trigger] queue@[q1]).0 as int].methods@,
                            own_methods@[m as int].name@,
                        ) by {
                            if has_named(t[queue@[q1].0 as int].methods@, own_methods@[m as int].name@) {
                                assert(has_named(gathered_before, own_methods@[m as int].name@));
                            }
                        }
                    }
                    let ghost before_push = all_methods@;
                    let copy = own_methods[m].duplicate();
                    proof { crate::symbols::lemma_same_symbol_type_valid(own_methods@[m as int].ty, copy.ty, n as nat); }
                    all_methods.push(copy);
                    proof {
                        crate::type_decl::lemma_push_keeps_names(before_push, copy);
                        assert(all_methods@ == before_push.push(copy));
                        let k0 = choose|k: nat| #[trigger] crate::types::reach_set(t, id, k).contains(current);
                        assert(has_named(t[current.0 as int].methods@, copy.name@)) by {
                            assert(info_v.methods@[m as int].name@ == copy.name@);
                        }
                        assert forall|w: int| 0 <= w < all_methods@.len() implies method_name_reached(
                            t,
                            id,
                            (#[trigger] all_methods@[w]).name@,
                        ) by {
                            if w < before_push.len() {
                                assert(all_methods@[w] == before_push[w]);
                            } else {
                                assert(crate::types::reach_set(t, id, k0).contains(current));
                                assert(has_named(t[current.0 as int].methods@, all_methods@[w].name@));
                            }
                        }
                    }
                }
                m = m + 1;
            }
            proof {
                assert forall|q: int, nm: Seq<char>|
                    0 <= q < head + 1 && #[trigger] has_named(t[queue@[q].0 as int].methods@, nm) implies has_named(all_methods@, nm) by {
                    if q < head {
                        assert(has_named(gathered_before, nm));
                    } else {
                        let w = choose|w: int| 0 <= w < info_v.methods@.len() && (#[trigger] info_v.methods@[w]).name@ == nm;
                        assert(own_methods@[w].name@ == nm);
                    }
                }
                assert(methods_gathered(t, queue@, head + 1, all_methods@));
            }
            let ghost qs = queue@;
            proof {
                assert forall|q1: int, q2: int, nm: Seq<char>|
                    0 <= q1 < q2 < head + 1 && #[trigger] has_named(t[qs[q1].0 as int].methods@, nm) && #[trigger] has_named(
                        t[qs[q2].0 as int].methods@,
                        nm,
                    ) implies collision_reported(self.diagnostics@, old(self).diagnostics@.len(), nm) by {
                    if q2 == head {
                        let w = choose|w: int| 0 <= w < info_v.methods@.len() && (#[trigger] info_v.methods@[w]).name@ == nm;
                        assert(own_methods@[w].name@ == nm);
                        assert(has_named(t[queue@[q1].0 as int].methods@, own_methods@[w].name@));
                    }
                }
            }
            let info = self.ctx.types.get(current);
            proof { assert(info_valid(self.ctx.types.infos@[current.0 as int], n as nat)); }
            match &info.kind {
                crate::types::TypeKind::Protocol { parents } => {
                    proof { assert(protocol_parents(*info) == parents@); }
                    let ghost q0 = queue@;
                    let mut p: usize = 0;
                    while p < parents.len()
                        invariant
                            p <= parents@.len(),
                            used@.len() == n,
                            head < q0.len(),
                            q0.len() <= queue@.len(),
                            forall|k: int| 0 <= k < q0.len() ==> #[trigger] queue@[k] == q0[k],
                            queue@.no_duplicates(),
                            forall|k: int| 0 <= k < parents@.len() ==> (#[trigger] parents@[k]).0 < n,
                            forall|k: int| 0 <= k < queue@.len() ==> (#[trigger] queue@[k]).0 < n,
                            forall|x: int| 0 <= x < n ==> (#[trigger] used@[x] <==> queue@.contains(TypeId(x as usize))),
                            forall|k: int| 0 <= k < p ==> queue@.contains(#[trigger] parents@[k]),
                            forall|y: TypeId| q0.contains(y) ==> #[trigger] queue@.contains(y),
                            forall|q: int| 0 <= q < queue@.len() ==> reached(t, id, #[trigger] queue@[q]),
                            reached(t, id, current),
                            current.0 < n,
                            t.len() == n,
                            parents@ == protocol_parents(t[current.0 as int]),
                        decreases parents.len() - p,
                    {
                        let pid = parents[p];
                        let ghost qb = queue@;
                        if !used[pid.0] {
                            used.set(pid.0, true);
                            queue.push(pid);
                            proof {
                                let k0 = choose|k: nat| #[trigger] crate::types::reach_set(t, id, k).contains(current);
                                crate::types::lemma_reach_step(t, id, pid, k0);
                                assert(TypeId(current.0 as int as usize) == current);
                                assert(protocol_parents(t[current.0 as int]).contains(pid)) by {
                                    assert(parents@[p as int] == pid);
                                }
                                assert(crate::types::reach_set(t, id, (k0 + 1) as nat).contains(pid));
                                assert forall|q: int| 0 <= q < queue@.len() implies reached(t, id, #[trigger] queue@[q]) by {
                                    if q < qb.len() {
                                        assert(queue@[q] == qb[q]);
                                    } else {
                                        assert(queue@[q] == pid);
                                    }
                                }
                                assert(!qb.contains(pid));
                                assert(queue@ == qb.push(pid));
                                assert(queue@.no_duplicates()) by {
                                    assert forall|a: int, b: int| 0 <= a < queue@.len() && 0 <= b < queue@.len() && a != b implies queue@[a] != queue@[b] by {
                                        if a < qb.len() && b < qb.len() {
                                        } else if a < qb.len() {
                                            assert(qb.contains(qb[a]));
                                        } else {
                                            assert(qb.contains(qb[b]));
                                        }
                                    }
                                }
                                assert forall|x: int| 0 <= x < n implies (#[trigger] used@[x] <==> queue@.contains(TypeId(x as usize))) by {
                                    if queue@.contains(TypeId(x as usize)) && x != pid.0 {
                                        let q = choose|q: int| 0 <= q < queue@.len() && queue@[q] == TypeId(x as usize);
                                        assert(q < qb.len());
                                        assert(qb.contains(TypeId(x as usize)));
                                    }
                                    if qb.contains(TypeId(x as usize)) {
                                        let q = choose|q: int| 0 <= q < qb.len() && qb[q] == TypeId(x as usize);
                                        assert(queue@[q] == TypeId(x as usize));
                                    }
                                    if x == pid.0 {
                                        assert(queue@[qb.len() as int] == pid);
                                    }
                                }
                                assert forall|y: TypeId| q0.contains(y) implies #[trigger] queue@.contains(y) by {
                                    let q = choose|q: int| 0 <= q < q0.len() && q0[q] == y;
                                    assert(queue@[q] == y);
                                }
                                assert forall|k: int| 0 <= k < p + 1 implies queue@.contains(#[trigger] parents@[k]) by {
                                    if k < p {
                                        let q = choose|q: int| 0 <= q < qb.len() && qb[q] == parents@[k];
                                        assert(queue@[q] == parents@[k]);
                                    } else {
                                        assert(queue@[qb.len() as int] == pid);
                                    }
                                }
                            }
                        } else {
                            proof { assert(queue@.contains(TypeId(pid.0 as usize))); }
                        }
                        p = p + 1;
                    }
                    proof {
                        lemma_parents_queued_grow(t, q0, queue@, head as int);
                        lemma_methods_gathered_grow(t, q0, queue@, head as int + 1, all_methods@);
                        assert forall|q: int, j: int|
                            0 <= q < head + 1 && 0 <= j < protocol_parents(t[queue@[q].0 as int]).len() implies queue@.contains(
                            #[trigger] protocol_parents(t[queue@[q].0 as int])[j],
                        ) by {
                            if q == head {
                                assert(queue@[q] == current);
                                assert(protocol_parents(t[current.0 as int]) == parents@);
                            }
                        }
                    }
                },
                _ => {
                    proof {
                        assert forall|q: int, j: int|
                            0 <= q < head + 1 && 0 <= j < protocol_parents(t[queue@[q].0 as int]).len() implies queue@.contains(
                            #[trigger] protocol_parents(t[queue@[q].0 as int])[j],
                        ) by {
                            if q == head {
                                assert(protocol_parents(t[current.0 as int]).len() == 0);
                            }
                        }
                    }
                },
            }
            proof {
                assert forall|q1: int, q2: int, nm: Seq<char>|
                    0 <= q1 < q2 < head + 1 && #[trigger] has_named(t[queue@[q1].0 as int].methods@, nm) && #[trigger] has_named(
                        t[queue@[q2].0 as int].methods@,
                        nm,
                    ) implies collision_reported(self.diagnostics@, old(self).diagnostics@.len(), nm) by {
                    assert(queue@[q1] == qs[q1]);
                    assert(queue@[q2] == qs[q2]);
                }
            }
            head = head + 1;
        }
        proof {
            lemma_distinct_ids_bounded(queue@, n as nat);
            assert(head == queue@.len());
            assert(t.len() <= usize::MAX);
            assert forall|x: TypeId, k: nat, nm: Seq<char>|
                #[trigger] crate::types::reach_set(t, id, k).contains(x) && #[trigger] has_named(t[x.0 as int].methods@, nm) implies has_named(
                all_methods@,
                nm,
            ) by {
                lemma_reach_in_queue(t, id, queue@, k);
                let q = choose|q: int| 0 <= q < queue@.len() && queue@[q] == x;
                assert(has_named(t[queue@[q].0 as int].methods@, nm));
            }
            assert forall|x: TypeId, y: TypeId, nm: Seq<char>|
                reached(t, id, x) && reached(t, id, y) && x != y && #[trigger] has_named(t[x.0 as int].methods@, nm) && #[trigger] has_named(
                    t[y.0 as int].methods@,
                    nm,
                ) implies collision_reported(self.diagnostics@, old(self).diagnostics@.len(), nm) by {
                let kx = choose|k: nat| #[trigger] crate::types::reach_set(t, id, k).contains(x);
                let ky = choose|k: nat| #[trigger] crate::types::reach_set(t, id, k).contains(y);
                lemma_reach_in_queue(t, id, queue@, kx);
                lemma_reach_in_queue(t, id, queue@, ky);
                let qx = choose|q: int| 0 <= q < queue@.len() && queue@[q] == x;
                let qy = choose|q: int| 0 <= q < queue@.len() && queue@[q] == y;
                assert(qx != qy);
                if qx < qy {
                    assert(has_named(t[queue@[qx].0 as int].methods@, nm) && has_named(t[queue@[qy].0 as int].methods@, nm));
                } else {
                    assert(has_named(t[queue@[qy].0 as int].methods@, nm) && has_named(t[queue@[qx].0 as int].methods@, nm));
                }
            }
        }
        all_methods
    }
}


impl SemanticAnalyzer {
    /// Whether the function `name` is generic (its symbol says so, or a
    /// generic declaration is recorded under its name).
    fn is_generic_function(&self, name: &str) -> (b: bool)
        requires
            self.wf(),
        ensures
            b == generic_function_named(*self, name@),
    {
        let by_symbol = match self.ctx.lookup(name) {
            Some(sym) => sym.ty.is_generic(),
            None => false,
        };
        by_symbol || self.ctx.has_generic_decl(name)
    }

    /// The declaration passes after the first: signatures (the passes stop,
    /// giving an empty list, when a protocol extends an unknown name), cycles
    /// of inheritance, cycles of protocol extension (the methods of extended
    /// protocols are gathered only without them), effective constructors;
    /// then each function with a known signature and each type that is not a
    /// generic template is analysed, in order (a generic template is kept for
    /// instantiation). `None` when nothing was analysed.
    pub fn analyze_declarations(&mut self, decls: &[Decl]) -> (r: Option<Vec<TypedDecl>>)
        requires
            old(self).wf(),
        ensures
            decl_frame(*old(self), *final(self)),
            !protocol_parents_known(old(self).ctx.types.infos@, decls@) ==> r is Some && r->0@.len() == 0,
            !protocol_parents_known(old(self).ctx.types.infos@, decls@) ==> final(self).diagnostics@.len() > old(self).diagnostics@.len(),
            forall|j: int|
                0 <= j < decls@.len() ==> unknown_parents_reported(
                    old(self).ctx.types.infos@,
                    final(self).diagnostics@,
                    old(self).diagnostics@.len(),
                    #[trigger] decls@[j],
                ),
            protocol_parents_known(old(self).ctx.types.infos@, decls@) ==> (r is None || r->0@.len() > 0),
            r matches Some(v) ==> exists|idx: Seq<int>| analysed_in_order(decls@, v@, idx),
            functions_analysed(
                decls@,
                match r {
                    Some(v) => v@,
                    None => Seq::empty(),
                },
                *final(self),
                protocol_parents_known(old(self).ctx.types.infos@, decls@),
            ),
            forall|j: int|
                #![trigger decls@[j]]
                last_function_decl(decls@, j, decls@.len() as int) ==> carries_signature(
                    final(self).ctx.spec_lookup(decls@[j].node->Function_name@),
                    old(self).ctx.types, decls@[j].node->Function_params@, decls@[j].node->Function_return_type,
                ),
            forall|j: int|
                0 <= j < decls@.len() && (#[trigger] decls@[j]).node is Type && old(self).ctx.types.spec_resolve(decls@[j].node->Type_name@) is Some
                    && declared_parent(old(self).ctx.types, decls@[j]) == Some(None::<TypeId>) ==> primitive_parent_reported(
                    final(self).diagnostics@,
                    old(self).diagnostics@.len(),
                    decls@[j],
                ),
    {
        let ok = self.register_signatures(decls);
        let ghost registered = *self;
        if !ok {
            let empty: Vec<TypedDecl> = Vec::new();
            proof {
                self.lemma_registration_kept(*old(self), registered, decls);
                assert(analysed_in_order(decls@, empty@, Seq::<int>::empty()));
                assert forall|j: int|
                    0 <= j < decls@.len() && (#[trigger] decls@[j]).node is Function implies (analysed_at(Seq::<int>::empty(), j) <==> false
                        && !generic_function_named(*self, decls@[j].node->Function_name@)) by {}
                assert(analysed_in_order(decls@, empty@, Seq::<int>::empty()));
                assert(functions_analysed(decls@, empty@, *self, false));
            }
            let res: Option<Vec<TypedDecl>> = Some(empty);
            proof {
                assert(res->0@ =~= empty@);
                assert(analysed_in_order(decls@, res->0@, Seq::<int>::empty()));
            }
            return res;
        }
        self.check_circular_inheritance(decls);
        let protocols_ok = self.check_circular_protocols_extension(decls);
        if protocols_ok {
            self.collect_extended_methods(decls);
        }
        self.resolve_constructor_signatures();
        let ghost mid = *self;
        let mut typed_decls: Vec<TypedDecl> = Vec::new();
        let ghost mut idx: Seq<int> = Seq::empty();
        let mut i: usize = 0;
        while i < decls.len()
            invariant
                self.wf(),
                i <= decls@.len(),
                analysed_in_order(decls@, typed_decls@, idx),
                forall|k: int| 0 <= k < idx.len() ==> #[trigger] idx[k] < i,
                keeps_errors(old(self).diagnostics@, self.diagnostics@),
                keeps_errors(registered.diagnostics@, self.diagnostics@),
                self.ctx.scopes@ == registered.ctx.scopes@,
                self.ctx.scopes@.len() == old(self).ctx.scopes@.len(),
                self.ctx.instantiation_budget == old(self).ctx.instantiation_budget,
                old(self).ty_count() <= self.ty_count(),
                self.ctx.scopes@ == mid.ctx.scopes@,
                self.ctx.generic_decls == mid.ctx.generic_decls,
                forall|j: int|
                    0 <= j < i && (#[trigger] decls@[j]).node is Function ==> (analysed_at(idx, j) <==> !generic_function_named(
                        mid,
                        decls@[j].node->Function_name@,
                    )),
            decreases decls.len() - i,
        {
            let decl = &decls[i];
            match &decl.node {
                DeclKind::Function { name, .. } => {
                    proof {
                        assert(generic_function_named(*self, name@) == generic_function_named(mid, name@));
                    }
                    if !self.is_generic_function(name.as_str()) {
                        let d = self.analyze_function(decl);
                        typed_decls.push(d);
                        proof {
                            let ghost old_idx = idx;
                            idx = idx.push(i as int);
                            assert forall|j: int| 0 <= j < i && (#[trigger] decls@[j]).node is Function implies (analysed_at(idx, j)
                                <==> analysed_at(old_idx, j)) by {
                                lemma_analysed_at_push(old_idx, i as int, j);
                            }
                            lemma_analysed_at_push(old_idx, i as int, i as int);
                        }
                    } else {
                        proof {
                            if analysed_at(idx, i as int) {
                                let k = choose|k: int| 0 <= k < idx.len() && #[trigger] idx[k] == i;
                            }
                        }
                    }
                },
                DeclKind::Type { name, .. } => {
                    match self.ctx.types.resolve(name.as_str()) {
                        Some(id) => {
                            if self.ctx.types.is_generic_template(id) {
                                self.ctx.register_generic_type_decl(name.clone(), crate::ast::copy_decl(decl));
                            } else {
                                let d = self.analyze_type(decl);
                                typed_decls.push(d);
                                proof {
                                    let ghost old_idx = idx;
                                    idx = idx.push(i as int);
                                    assert forall|j: int| 0 <= j < i && (#[trigger] decls@[j]).node is Function implies (analysed_at(
                                        idx,
                                        j,
                                    ) <==> analysed_at(old_idx, j)) by {
                                        lemma_analysed_at_push(old_idx, i as int, j);
                                    }
                                }
                            }
                        },
                        None => {},
                    }
                },
                DeclKind::Protocol { .. } => {},
            }
            i = i + 1;
        }
        proof {
            self.lemma_registration_kept(*old(self), registered, decls);
            assert(analysed_in_order(decls@, typed_decls@, idx));
            assert(exists|w: Seq<int>| analysed_in_order(decls@, typed_decls@, w));
            assert forall|j: int| 0 <= j < decls@.len() && (#[trigger] decls@[j]).node is Function implies (analysed_at(idx, j) <==> ok
                && !generic_function_named(*self, decls@[j].node->Function_name@)) by {
                assert(generic_function_named(*self, decls@[j].node->Function_name@) == generic_function_named(
                    mid,
                    decls@[j].node->Function_name@,
                ));
            }
            if typed_decls@.len() == 0 {
                assert(typed_decls@ =~= Seq::<TypedDecl>::empty());
            }
            assert forall|j: int| 0 <= j < decls@.len() implies unknown_parents_reported(
                old(self).ctx.types.infos@,
                self.diagnostics@,
                old(self).diagnostics@.len(),
                #[trigger] decls@[j],
            ) by {
                lemma_unknown_parents_kept(
                    old(self).ctx.types.infos@,
                    registered.diagnostics@,
                    self.diagnostics@,
                    old(self).diagnostics@.len(),
                    decls@[j],
                );
            }
        }
        if typed_decls.len() > 0 {
            Some(typed_decls)
        } else {
            None
        }
    }

    /// The declaration passes for checking only: signatures, cycles of
    /// inheritance, then each function with a known signature and each type
    /// that is not a generic template is analysed, in order, and its typed
    /// form dropped.
    pub fn check_declarations(&mut self, decls: &[Decl])
        requires
            old(self).wf(),
        ensures
            decl_frame(*old(self), *final(self)),
            forall|j: int|
                #![trigger decls@[j]]
                last_function_decl(decls@, j, decls@.len() as int) ==> carries_signature(
                    final(self).ctx.spec_lookup(decls@[j].node->Function_name@),
                    old(self).ctx.types, decls@[j].node->Function_params@, decls@[j].node->Function_return_type,
                ),
            forall|j: int|
                0 <= j < decls@.len() && (#[trigger] decls@[j]).node is Type && old(self).ctx.types.spec_resolve(decls@[j].node->Type_name@) is Some
                    && declared_parent(old(self).ctx.types, decls@[j]) == Some(None::<TypeId>) ==> primitive_parent_reported(
                    final(self).diagnostics@,
                    old(self).diagnostics@.len(),
                    decls@[j],
                ),
            forall|j: int|
                0 <= j < decls@.len() ==> unknown_parents_reported(
                    old(self).ctx.types.infos@,
                    final(self).diagnostics@,
                    old(self).diagnostics@.len(),
                    #[trigger] decls@[j],
                ),
    {
        let _ = self.register_signatures(decls);
        let ghost registered = *self;
        self.check_circular_inheritance(decls);
        let mut i: usize = 0;
        while i < decls.len()
            invariant
                self.wf(),
                i <= decls@.len(),
                keeps_errors(old(self).diagnostics@, self.diagnostics@),
                keeps_errors(registered.diagnostics@, self.diagnostics@),
                self.ctx.scopes@ == registered.ctx.scopes@,
                self.ctx.scopes@.len() == old(self).ctx.scopes@.len(),
                self.ctx.instantiation_budget == old(self).ctx.instantiation_budget,
                old(self).ty_count() <= self.ty_count(),
            decreases decls.len() - i,
        {
            let decl = &decls[i];
            match &decl.node {
                DeclKind::Function { name, .. } => {
                    if !self.is_generic_function(name.as_str()) {
                        let _ = self.analyze_function(decl);
                    }
                },
                DeclKind::Type { name, .. } => {
                    match self.ctx.types.resolve(name.as_str()) {
                        Some(id) => {
                            if !self.ctx.types.is_generic_template(id) {
                                let _ = self.analyze_type(decl);
                            }
                        },
                        None => {},
                    }
                },
                DeclKind::Protocol { .. } => {},
            }
            i = i + 1;
        }
        proof {
            self.lemma_registration_kept(*old(self), registered, decls);
            assert forall|j: int| 0 <= j < decls@.len() implies unknown_parents_reported(
                old(self).ctx.types.infos@,
                self.diagnostics@,
                old(self).diagnostics@.len(),
                #[trigger] decls@[j],
            ) by {
                lemma_unknown_parents_kept(
                    old(self).ctx.types.infos@,
                    registered.diagnostics@,
                    self.diagnostics@,
                    old(self).diagnostics@.len(),
                    decls@[j],
                );
            }
        }
    }

    /// What the signature pass states of `decls` still holds once errors
    /// were added and the scopes came back as they were.
    proof fn lemma_registration_kept(&self, start: SemanticAnalyzer, registered: SemanticAnalyzer, decls: &[Decl])
        requires
            keeps_errors(registered.diagnostics@, self.diagnostics@),
            self.ctx.scopes@ == registered.ctx.scopes@,
            forall|j: int|
                #![trigger decls@[j]]
                last_function_decl(decls@, j, decls@.len() as int) ==> carries_signature(
                    registered.ctx.spec_lookup(decls@[j].node->Function_name@),
                    start.ctx.types, decls@[j].node->Function_params@, decls@[j].node->Function_return_type,
                ),
            forall|j: int|
                0 <= j < decls@.len() && (#[trigger] decls@[j]).node is Type && start.ctx.types.spec_resolve(decls@[j].node->Type_name@) is Some
                    && declared_parent(start.ctx.types, decls@[j]) == Some(None::<TypeId>) ==> primitive_parent_reported(
                    registered.diagnostics@,
                    start.diagnostics@.len(),
                    decls@[j],
                ),
        ensures
            forall|j: int|
                #![trigger decls@[j]]
                last_function_decl(decls@, j, decls@.len() as int) ==> carries_signature(
                    self.ctx.spec_lookup(decls@[j].node->Function_name@),
                    start.ctx.types, decls@[j].node->Function_params@, decls@[j].node->Function_return_type,
                ),
            forall|j: int|
                0 <= j < decls@.len() && (#[trigger] decls@[j]).node is Type && start.ctx.types.spec_resolve(decls@[j].node->Type_name@) is Some
                    && declared_parent(start.ctx.types, decls@[j]) == Some(None::<TypeId>) ==> primitive_parent_reported(
                    self.diagnostics@,
                    start.diagnostics@.len(),
                    decls@[j],
                ),
    {
        assert forall|j: int|
            0 <= j < decls@.len() && (#[trigger] decls@[j]).node is Type && start.ctx.types.spec_resolve(decls@[j].node->Type_name@) is Some
                && declared_parent(start.ctx.types, decls@[j]) == Some(None::<TypeId>) implies primitive_parent_reported(
                self.diagnostics@,
                start.diagnostics@.len(),
                decls@[j],
            ) by {
            lemma_primitive_parent_reported_kept(registered.diagnostics@, self.diagnostics@, start.diagnostics@.len(), decls@[j]);
        }
    }
}

} // verus!
