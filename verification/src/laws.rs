use vstd::prelude::*;
use crate::analyzer::{arg_checked, args_checked, starts_around, tables_between};
use crate::error::SemanticError;
use crate::context::{
    entry_of, is_first_key, key_view, keys_contain, keys_distinct, lemma_first_key, lemma_other_key_kept, lemma_some_first_key,
    record_entry, GenericInstanceKey, Scope, SemanticContext,
};
use crate::decl::{lemma_rooted_mono, rooted};
use crate::symbols::{Symbol, SymbolType};
use crate::types::{
    all_params, all_satisfied, any_compatible, any_in_chain, compatible, is_basic,
    chain_ids, first_in_chain, first_named, has_named, is_first_named, join_of, lca_in, lemma_chain_valid, lemma_first_named, subtype, TypeId,
    TypeInfo, TypeTable, OBJECT_ID,
};

verus! {

/// Every type is a subtype of itself.
pub proof fn law_subtype_reflexive(t: Seq<TypeInfo>, a: TypeId, fuel: nat)
    ensures
        subtype(t, a, a, fuel),
{
}

/// Every type is a subtype of `Object`.
pub proof fn law_object_is_top(t: Seq<TypeInfo>, a: TypeId, fuel: nat)
    ensures
        subtype(t, a, TypeId(OBJECT_ID), fuel),
{
}

/// A type is a subtype of each class among its ancestors.
pub proof fn law_ancestor_is_supertype(t: Seq<TypeInfo>, l: TypeId, r: TypeId, fuel: nat)
    requires
        r.0 < t.len(),
        chain_ids(t, l, t.len()).contains(r),
        t[r.0 as int].kind is Class,
    ensures
        subtype(t, l, r, fuel),
{
}

/// A type is a subtype of a class other than `Object` only when that class
/// is the type itself or one of its ancestors: no class accepts a type from
/// outside its own line of descent.
pub proof fn law_class_supertype_is_ancestor(t: Seq<TypeInfo>, l: TypeId, r: TypeId, fuel: nat)
    requires
        l.0 < t.len(),
        r.0 < t.len(),
        r.0 != OBJECT_ID,
        t[r.0 as int].kind is Class,
        subtype(t, l, r, fuel),
    ensures
        chain_ids(t, l, t.len()).contains(r),
{
    let c = chain_ids(t, l, t.len());
    if l == r {
        assert(c[0] == l);
        assert(c.contains(c[0]));
    }
}

/// A type joins with itself to itself.
pub proof fn law_join_with_itself(t: Seq<TypeInfo>, a: TypeId)
    requires
        a.0 < t.len(),
    ensures
        join_of(t, a, a) == a,
{
    let c = chain_ids(t, a, t.len());
    assert(c[0] == a);
    assert(c.contains(c[0]));
}

/// What `lca_in` finds lies on both chains.
pub proof fn law_common_ancestor_on_both(ancestors_a: Seq<TypeId>, chain_b: Seq<TypeId>)
    ensures
        match lca_in(ancestors_a, chain_b) {
            Some(x) => ancestors_a.contains(x) && chain_b.contains(x),
            None => true,
        },
    decreases chain_b.len(),
{
    if chain_b.len() > 0 && !ancestors_a.contains(chain_b[0]) {
        let rest = chain_b.drop_first();
        law_common_ancestor_on_both(ancestors_a, rest);
        match lca_in(ancestors_a, rest) {
            Some(x) => {
                let k = choose|k: int| 0 <= k < rest.len() && rest[k] == x;
                assert(chain_b[k + 1] == x);
            },
            None => {},
        }
    } else if chain_b.len() > 0 {
        assert(chain_b[0] == chain_b[0]);
    }
}

/// Both types are subtypes of the class they join to, so the value of a
/// conditional fits the type given to it whichever branch produced it.
pub proof fn law_join_is_supertype(t: Seq<TypeInfo>, a: TypeId, b: TypeId, fuel: nat)
    requires
        a.0 < t.len(),
        b.0 < t.len(),
        t[join_of(t, a, b).0 as int].kind is Class,
    ensures
        subtype(t, a, join_of(t, a, b), fuel),
        subtype(t, b, join_of(t, a, b), fuel),
{
    let ca = chain_ids(t, a, t.len());
    let cb = chain_ids(t, b, t.len());
    law_common_ancestor_on_both(ca, cb);
    lemma_chain_valid(t, a, t.len());
    match lca_in(ca, cb) {
        Some(x) => {
            let k = choose|k: int| 0 <= k < ca.len() && ca[k] == x;
            assert(ca[k].0 < t.len());
            law_ancestor_is_supertype(t, a, x, fuel);
            law_ancestor_is_supertype(t, b, x, fuel);
        },
        None => {
            law_object_is_top(t, a, fuel);
            law_object_is_top(t, b, fuel);
        },
    }
}

/// A type added to the table is what its name then resolves to.
pub proof fn law_inserted_type_resolves(before: TypeTable, after: TypeTable, name: Seq<char>)
    requires
        after.infos@.len() == before.infos@.len() + 1,
        after.infos@[before.infos@.len() as int].name@ == name,
    ensures
        after.spec_resolve(name) == Some(TypeId(before.infos@.len() as usize)),
{
    let id = before.infos@.len() as int;
    assert(after.is_resolved(name, id));
    let i = choose|i: int| after.is_resolved(name, i);
    if i != id {
        assert(i < id);
        assert(after.infos@[id].name@ == name);
    }
}

/// Whatever is declared in a scope is forgotten when it closes: after
/// opening a scope, making any number of declarations in it (each of which
/// changes only the innermost scope) and closing it, every name resolves as
/// before.
pub proof fn law_closed_scope_forgets(
    before: SemanticContext,
    opened: Scope,
    steps: Seq<SemanticContext>,
    after: SemanticContext,
)
    requires
        steps.len() >= 1,
        steps[0].scopes@ == before.scopes@.push(opened),
        forall|i: int|
            0 < i < steps.len() ==> (#[trigger] steps[i]).scopes@ == steps[i - 1].scopes@.update(
                steps[i - 1].scopes@.len() - 1,
                steps[i].scopes@.last(),
            ),
        after.scopes@ == steps.last().scopes@.drop_last(),
    ensures
        forall|n: Seq<char>| #[trigger] after.spec_lookup(n) == before.spec_lookup(n),
{
    lemma_inner_steps_keep_outer(before, opened, steps, steps.len() - 1);
    assert(after.scopes@ =~= before.scopes@);
}

proof fn lemma_inner_steps_keep_outer(before: SemanticContext, opened: Scope, steps: Seq<SemanticContext>, i: int)
    requires
        0 <= i < steps.len(),
        steps[0].scopes@ == before.scopes@.push(opened),
        forall|j: int|
            0 < j < steps.len() ==> (#[trigger] steps[j]).scopes@ == steps[j - 1].scopes@.update(
                steps[j - 1].scopes@.len() - 1,
                steps[j].scopes@.last(),
            ),
    ensures
        steps[i].scopes@.len() == before.scopes@.len() + 1,
        steps[i].scopes@.drop_last() == before.scopes@,
    decreases i,
{
    if i == 0 {
        assert(steps[0].scopes@.drop_last() =~= before.scopes@);
    } else {
        lemma_inner_steps_keep_outer(before, opened, steps, i - 1);
        let prev = steps[i - 1].scopes@;
        assert(steps[i].scopes@ == prev.update(prev.len() - 1, steps[i].scopes@.last()));
        assert(steps[i].scopes@.drop_last() =~= prev.drop_last());
    }
}

/// Recording an instance under a key: the key then reads back what was
/// recorded, every other key reads back what it did before, a new key is
/// added last, a known one keeps its place, and no key comes to occur twice.
pub proof fn law_record_entry<V>(entries: Seq<(GenericInstanceKey, V)>, key: GenericInstanceKey, v: V)
    ensures
        entry_of(record_entry(entries, key, v), key_view(key)) == Some(v),
        forall|k: (Seq<char>, Seq<TypeId>)|
            k != key_view(key) ==> #[trigger] entry_of(record_entry(entries, key, v), k) == entry_of(entries, k),
        entry_of(entries, key_view(key)) is None ==> record_entry(entries, key, v) == entries.push((key, v)),
        entry_of(entries, key_view(key)) is Some ==> record_entry(entries, key, v).len() == entries.len(),
        keys_distinct(entries) ==> keys_distinct(record_entry(entries, key, v)),
{
    let kv = key_view(key);
    let r = record_entry(entries, key, v);
    if exists|i: int| is_first_key(entries, kv, i) {
        let i = choose|i: int| is_first_key(entries, kv, i);
        assert(r == entries.update(i, (key, v)));
        assert(is_first_key(r, kv, i)) by {
            assert forall|j: int| 0 <= j < i implies key_view((#[trigger] r[j]).0) != kv by {
                assert(r[j] == entries[j]);
            }
        }
        lemma_first_key(r, kv, i);
        lemma_first_key(entries, kv, i);
        assert forall|k: (Seq<char>, Seq<TypeId>)| k != kv implies #[trigger] entry_of(r, k) == entry_of(entries, k) by {
            lemma_other_key_kept(entries, r, kv, k);
        }
        assert forall|a: int| 0 <= a < r.len() implies key_view((#[trigger] r[a]).0) == key_view(entries[a].0) by {}
    } else {
        assert(r == entries.push((key, v)));
        assert forall|j: int| 0 <= j < entries.len() implies key_view((#[trigger] entries[j]).0) != kv by {
            if key_view(entries[j].0) == kv {
                lemma_some_first_key(entries, kv, j);
            }
        }
        assert(is_first_key(r, kv, entries.len() as int)) by {
            assert forall|j: int| 0 <= j < entries.len() implies key_view((#[trigger] r[j]).0) != kv by {
                assert(r[j] == entries[j]);
            }
        }
        lemma_first_key(r, kv, entries.len() as int);
        assert forall|k: (Seq<char>, Seq<TypeId>)| k != kv implies #[trigger] entry_of(r, k) == entry_of(entries, k) by {
            lemma_other_key_kept(entries, r, kv, k);
        }
        if keys_distinct(entries) {
            assert forall|a: int, b: int| 0 <= a < b < r.len() implies key_view((#[trigger] r[a]).0) != key_view(
                (#[trigger] r[b]).0,
            ) by {
                if b == entries.len() {
                    assert(r[a] == entries[a]);
                } else {
                    assert(r[a] == entries[a] && r[b] == entries[b]);
                }
            }
        }
    }
}

/// Once a scope holds a symbol, a second one of the same name is refused
/// there.
pub proof fn law_no_redeclaration(symbols: Seq<Symbol>, sym: Symbol, other: Symbol)
    requires
        other.name@ == sym.name@,
    ensures
        has_named(symbols.push(sym), other.name@),
{
    let s = symbols.push(sym);
    assert(s[s.len() - 1] == sym);
}

/// Marking an instance as being made and then removing the mark leaves
/// every mark as it was, when the instance was not marked before.
pub proof fn law_mark_then_unmark_restores(
    before: SemanticContext,
    marked: SemanticContext,
    after: SemanticContext,
    key: (Seq<char>, Seq<TypeId>),
)
    requires
        !keys_contain(before.in_progress_instances@, key),
        keys_contain(marked.in_progress_instances@, key),
        forall|k: (Seq<char>, Seq<TypeId>)|
            keys_contain(before.in_progress_instances@, k) ==> keys_contain(marked.in_progress_instances@, k),
        forall|k: (Seq<char>, Seq<TypeId>)|
            k != key && keys_contain(marked.in_progress_instances@, k) ==> keys_contain(before.in_progress_instances@, k),
        !keys_contain(after.in_progress_instances@, key),
        forall|k: (Seq<char>, Seq<TypeId>)|
            k != key ==> (keys_contain(after.in_progress_instances@, k) == keys_contain(marked.in_progress_instances@, k)),
    ensures
        forall|k: (Seq<char>, Seq<TypeId>)|
            #[trigger] keys_contain(after.in_progress_instances@, k) == keys_contain(before.in_progress_instances@, k),
{
    assert forall|k: (Seq<char>, Seq<TypeId>)|
        #[trigger] keys_contain(after.in_progress_instances@, k) == keys_contain(before.in_progress_instances@, k) by {
        if k != key {
            if keys_contain(before.in_progress_instances@, k) {
                assert(keys_contain(marked.in_progress_instances@, k));
            }
        }
    }
}

/// A method just added to a type, or put in place of the one it had of that
/// name, is what looking the name up on that type finds.
pub proof fn law_added_method_is_found(before: Seq<TypeInfo>, after: Seq<TypeInfo>, id: TypeId, m: Symbol)
    requires
        id.0 < before.len(),
        after == before.update(id.0 as int, TypeInfo { methods: after[id.0 as int].methods, ..before[id.0 as int] }),
        !has_named(before[id.0 as int].methods@, m.name@) ==> after[id.0 as int].methods@ == before[id.0 as int].methods@.push(m),
        has_named(before[id.0 as int].methods@, m.name@) ==> after[id.0 as int].methods@ == before[id.0 as int].methods@.update(
            first_named(before[id.0 as int].methods@, m.name@),
            m,
        ),
    ensures
        first_in_chain(after, chain_ids(after, id, after.len()), m.name@, true) == Some(m),
{
    let i = id.0 as int;
    let old_ms = before[i].methods@;
    let ms = after[i].methods@;
    let c = chain_ids(after, id, after.len());
    assert(c[0] == id);
    if has_named(old_ms, m.name@) {
        let w = choose|w: int| 0 <= w < old_ms.len() && (#[trigger] old_ms[w]).name@ == m.name@;
        crate::context::lemma_has_first(old_ms, m.name@, w);
        let f = first_named(old_ms, m.name@);
        assert(is_first_named(old_ms, m.name@, f));
        assert(is_first_named(ms, m.name@, f)) by {
            assert forall|j: int| 0 <= j < f implies (#[trigger] ms[j]).name@ != m.name@ by {
                assert(ms[j] == old_ms[j]);
            }
        }
        lemma_first_named(ms, m.name@, f);
        assert(has_named(ms, m.name@));
    } else {
        let n = old_ms.len() as int;
        assert(is_first_named(ms, m.name@, n)) by {
            assert forall|j: int| 0 <= j < n implies (#[trigger] ms[j]).name@ != m.name@ by {
                assert(ms[j] == old_ms[j]);
            }
        }
        lemma_first_named(ms, m.name@, n);
        assert(has_named(ms, m.name@));
    }
}

/// An attribute just added to a type is what looking the name up on that
/// type finds (a second attribute of that name is refused, see
/// `TypeTable::insert_attribute`).
pub proof fn law_added_attribute_is_found(before: Seq<TypeInfo>, after: Seq<TypeInfo>, id: TypeId, a: Symbol)
    requires
        id.0 < before.len(),
        !has_named(before[id.0 as int].attributes@, a.name@),
        after == before.update(id.0 as int, TypeInfo { attributes: after[id.0 as int].attributes, ..before[id.0 as int] }),
        after[id.0 as int].attributes@ == before[id.0 as int].attributes@.push(a),
    ensures
        first_in_chain(after, chain_ids(after, id, after.len()), a.name@, false) == Some(a),
{
    let i = id.0 as int;
    let old_as = before[i].attributes@;
    let as_ = after[i].attributes@;
    let c = chain_ids(after, id, after.len());
    assert(c[0] == id);
    let n = old_as.len() as int;
    assert(is_first_named(as_, a.name@, n)) by {
        assert forall|j: int| 0 <= j < n implies (#[trigger] as_[j]).name@ != a.name@ by {
            assert(as_[j] == old_as[j]);
        }
    }
    lemma_first_named(as_, a.name@, n);
    assert(has_named(as_, a.name@));
}

/// Past the root, more fuel does not lengthen a chain.
proof fn lemma_rooted_chain_stable(t: Seq<TypeInfo>, x: TypeId, k: nat, f: nat)
    requires
        rooted(t, x, k),
        k <= f,
    ensures
        chain_ids(t, x, f) == chain_ids(t, x, k),
    decreases k,
{
    match t[x.0 as int].parent {
        None => {},
        Some(p) => {
            lemma_rooted_chain_stable(t, p, (k - 1) as nat, (f - 1) as nat);
        },
    }
}

/// The ancestors of an ancestor are ancestors, on a finite chain.
proof fn lemma_ancestor_chain_inside(t: Seq<TypeInfo>, a: TypeId, b: TypeId, c: TypeId, k: nat)
    requires
        rooted(t, a, k),
        chain_ids(t, a, k).contains(b),
        chain_ids(t, b, k).contains(c),
    ensures
        chain_ids(t, a, k).contains(c),
    decreases k,
{
    let ca = chain_ids(t, a, k);
    assert(ca[0] == a);
    if b != a {
        match t[a.0 as int].parent {
            None => {
                assert(ca =~= seq![a]);
            },
            Some(p) => {
                let rest = chain_ids(t, p, (k - 1) as nat);
                assert(ca == seq![a] + rest);
                let i = choose|i: int| 0 <= i < ca.len() && ca[i] == b;
                assert(i > 0);
                assert(rest[i - 1] == b);
                assert(rest.contains(b));
                lemma_rooted_in_chain(t, p, b, (k - 1) as nat);
                lemma_rooted_mono(t, b, (k - 1) as nat, k);
                lemma_rooted_chain_stable(t, b, (k - 1) as nat, k);
                lemma_ancestor_chain_inside(t, p, b, c, (k - 1) as nat);
                let j = choose|j: int| 0 <= j < rest.len() && rest[j] == c;
                assert(ca[j + 1] == c);
            },
        }
    }
}

/// Every type on a finite chain has a finite chain.
proof fn lemma_rooted_in_chain(t: Seq<TypeInfo>, a: TypeId, b: TypeId, k: nat)
    requires
        rooted(t, a, k),
        chain_ids(t, a, k).contains(b),
    ensures
        rooted(t, b, k),
    decreases k,
{
    let ca = chain_ids(t, a, k);
    assert(ca[0] == a);
    if b != a {
        match t[a.0 as int].parent {
            None => {
                assert(ca =~= seq![a]);
            },
            Some(p) => {
                let rest = chain_ids(t, p, (k - 1) as nat);
                assert(ca == seq![a] + rest);
                let i = choose|i: int| 0 <= i < ca.len() && ca[i] == b;
                assert(rest[i - 1] == b);
                lemma_rooted_in_chain(t, p, b, (k - 1) as nat);
                lemma_rooted_mono(t, b, (k - 1) as nat, k);
            },
        }
    }
}

/// Subtyping between classes is transitive for a type whose chain of
/// ancestors ends (as every declared type's does once inheritance cycles
/// are broken), given that `Object` has no parent.
pub proof fn law_subtype_transitive(t: Seq<TypeInfo>, a: TypeId, b: TypeId, c: TypeId, fuel: nat)
    requires
        a.0 < t.len(),
        b.0 < t.len(),
        c.0 < t.len(),
        t[b.0 as int].kind is Class,
        t[c.0 as int].kind is Class,
        t[OBJECT_ID as int].parent is None,
        rooted(t, a, t.len()),
        subtype(t, a, b, fuel),
        subtype(t, b, c, fuel),
    ensures
        subtype(t, a, c, fuel),
{
    if a != c && c.0 != 0 && a != b && b != c {
        if b.0 == 0 {
            let cb = chain_ids(t, b, t.len());
            assert(cb =~= seq![b]);
        } else {
            lemma_ancestor_chain_inside(t, a, b, c, t.len());
        }
    }
}

/// The method of `ms` at some index that can stand for `pm`.
proof fn lemma_compatible_in(t: Seq<TypeInfo>, ms: Seq<Symbol>, pm: Symbol, fuel: nat) -> (k: int)
    requires
        any_compatible(t, ms, pm, fuel),
    ensures
        0 <= k < ms.len(),
        compatible(t, ms[k], pm, fuel),
    decreases ms.len(),
{
    if compatible(t, ms[0], pm, fuel) {
        0
    } else {
        let k = lemma_compatible_in(t, ms.drop_first(), pm, fuel);
        k + 1
    }
}

/// The place along `chain` whose methods hold one that can stand for `pm`.
proof fn lemma_compatible_along(t: Seq<TypeInfo>, chain: Seq<TypeId>, pm: Symbol, fuel: nat) -> (j: int)
    requires
        any_in_chain(t, chain, pm, fuel),
    ensures
        0 <= j < chain.len(),
        any_compatible(t, t[chain[j].0 as int].methods@, pm, fuel),
    decreases chain.len(),
{
    if any_compatible(t, t[chain[0].0 as int].methods@, pm, fuel) {
        0
    } else {
        let j = lemma_compatible_along(t, chain.drop_first(), pm, fuel);
        j + 1
    }
}

proof fn lemma_satisfied_at(t: Seq<TypeInfo>, l: TypeId, ms: Seq<Symbol>, fuel: nat, i: int)
    requires
        all_satisfied(t, l, ms, fuel),
        0 <= i < ms.len(),
    ensures
        any_in_chain(t, chain_ids(t, l, t.len()), ms[i], fuel),
    decreases i,
{
    if i > 0 {
        lemma_satisfied_at(t, l, ms.drop_first(), fuel, i - 1);
        assert(ms.drop_first()[i - 1] == ms[i]);
    }
}

proof fn lemma_params_at(t: Seq<TypeInfo>, a: Seq<TypeId>, b: Seq<TypeId>, fuel: nat, q: int)
    requires
        all_params(t, a, b, fuel),
        a.len() == b.len(),
        0 <= q < a.len(),
    ensures
        subtype(t, a[q], b[q], fuel),
    decreases q,
{
    if q > 0 {
        lemma_params_at(t, a.drop_first(), b.drop_first(), fuel, q - 1);
        assert(a.drop_first()[q - 1] == a[q]);
        assert(b.drop_first()[q - 1] == b[q]);
    }
}

/// Method `k` of the `j`-th type along the ancestors of `l` (`l` first).
pub open spec fn ancestor_method(t: Seq<TypeInfo>, l: TypeId, j: int, k: int) -> Symbol {
    t[chain_ids(t, l, t.len())[j].0 as int].methods@[k]
}

/// Some method of `l` or of one of its ancestors fits the protocol method
/// `pm`: it has `pm`'s name and number of parameters, returns a subtype of
/// what `pm` returns, and takes parameters of which `pm`'s are subtypes
/// (types compared with `fuel`).
pub open spec fn has_fitting_method(t: Seq<TypeInfo>, l: TypeId, pm: Symbol, fuel: nat) -> bool {
    exists|j: int, k: int|
        #![trigger ancestor_method(t, l, j, k)]
        {
            &&& 0 <= j < chain_ids(t, l, t.len()).len()
            &&& 0 <= k < t[chain_ids(t, l, t.len())[j].0 as int].methods@.len()
            &&& ancestor_method(t, l, j, k).name@ == pm.name@
            &&& match (ancestor_method(t, l, j, k).ty, pm.ty) {
                (SymbolType::Function { params: tp, ret: tr }, SymbolType::Function { params: pp, ret: pr }) => {
                    &&& subtype(t, tr, pr, fuel)
                    &&& tp@.len() == pp@.len()
                    &&& forall|q: int| 0 <= q < pp@.len() ==> subtype(t, #[trigger] pp@[q], tp@[q], fuel)
                },
                _ => false,
            }
        }
}

/// A class (other than a builtin) conforms to a protocol only through
/// methods that fit: for each method `pm` the protocol asks for, some method
/// of the class or of one of its ancestors has `pm`'s name and number of
/// parameters, returns a subtype of what `pm` returns (covariant results),
/// and takes parameters of which `pm`'s are subtypes (contravariant
/// parameters), each compared with one unit less of `fuel`. So when no
/// method of that name returns a subtype of what `pm` returns, the class is
/// not a subtype of the protocol.
pub proof fn law_conformance_needs_fitting_methods(t: Seq<TypeInfo>, l: TypeId, r: TypeId, fuel: nat, i: int)
    requires
        subtype(t, l, r, fuel),
        l != r,
        r.0 != 0,
        !is_basic(l),
        t[r.0 as int].kind is Protocol,
        !(t[l.0 as int].kind is Protocol),
        0 <= i < t[r.0 as int].methods@.len(),
    ensures
        fuel > 0,
        has_fitting_method(t, l, t[r.0 as int].methods@[i], (fuel - 1) as nat),
{
    let chain = chain_ids(t, l, t.len());
    let ms = t[r.0 as int].methods@;
    let pm = ms[i];
    assert(all_satisfied(t, l, ms, fuel));
    lemma_satisfied_at(t, l, ms, fuel, i);
    let j = lemma_compatible_along(t, chain, pm, fuel);
    let k = lemma_compatible_in(t, t[chain[j].0 as int].methods@, pm, fuel);
    let tm = t[chain[j].0 as int].methods@[k];
    assert(tm == ancestor_method(t, l, j, k));
    assert(compatible(t, tm, pm, fuel));
    match (tm.ty, pm.ty) {
        (SymbolType::Function { params: tp, ret: tr }, SymbolType::Function { params: pp, ret: pr }) => {
            assert forall|q: int| 0 <= q < pp@.len() implies subtype(t, #[trigger] pp@[q], tp@[q], (fuel - 1) as nat) by {
                lemma_params_at(t, pp@, tp@, (fuel - 1) as nat, q);
            }
        },
        _ => {},
    }
}

proof fn lemma_params_from(t: Seq<TypeInfo>, a: Seq<TypeId>, b: Seq<TypeId>, fuel: nat)
    requires
        a.len() == b.len(),
        forall|q: int| 0 <= q < a.len() ==> subtype(t, #[trigger] a[q], b[q], fuel),
    ensures
        all_params(t, a, b, fuel),
    decreases a.len(),
{
    if a.len() > 0 {
        assert forall|q: int| 0 <= q < a.drop_first().len() implies subtype(t, #[trigger] a.drop_first()[q], b.drop_first()[q], fuel) by {
            assert(a.drop_first()[q] == a[q + 1]);
            assert(b.drop_first()[q] == b[q + 1]);
        }
        lemma_params_from(t, a.drop_first(), b.drop_first(), fuel);
        assert(subtype(t, a[0], b[0], fuel));
    }
}

proof fn lemma_compatible_from_index(t: Seq<TypeInfo>, ms: Seq<Symbol>, pm: Symbol, fuel: nat, k: int)
    requires
        0 <= k < ms.len(),
        compatible(t, ms[k], pm, fuel),
    ensures
        any_compatible(t, ms, pm, fuel),
    decreases k,
{
    if k > 0 {
        assert(ms.drop_first()[k - 1] == ms[k]);
        lemma_compatible_from_index(t, ms.drop_first(), pm, fuel, k - 1);
    }
}

proof fn lemma_chain_from_index(t: Seq<TypeInfo>, chain: Seq<TypeId>, pm: Symbol, fuel: nat, j: int)
    requires
        0 <= j < chain.len(),
        any_compatible(t, t[chain[j].0 as int].methods@, pm, fuel),
    ensures
        any_in_chain(t, chain, pm, fuel),
    decreases j,
{
    if j > 0 {
        assert(chain.drop_first()[j - 1] == chain[j]);
        lemma_chain_from_index(t, chain.drop_first(), pm, fuel, j - 1);
    }
}

proof fn lemma_satisfied_from(t: Seq<TypeInfo>, l: TypeId, ms: Seq<Symbol>, fuel: nat)
    requires
        forall|i: int| 0 <= i < ms.len() ==> any_in_chain(t, chain_ids(t, l, t.len()), #[trigger] ms[i], fuel),
    ensures
        all_satisfied(t, l, ms, fuel),
    decreases ms.len(),
{
    if ms.len() > 0 {
        assert forall|i: int| 0 <= i < ms.drop_first().len() implies any_in_chain(t, chain_ids(t, l, t.len()), #[trigger] ms.drop_first()[i], fuel) by {
            assert(ms.drop_first()[i] == ms[i + 1]);
        }
        lemma_satisfied_from(t, l, ms.drop_first(), fuel);
        assert(any_in_chain(t, chain_ids(t, l, t.len()), ms[0], fuel));
    }
}

/// Conversely, a class (other than a builtin) conforms to a protocol when
/// each method the protocol asks for is fitted by a method of the class or
/// of one of its ancestors (see `has_fitting_method`).
pub proof fn law_fitting_methods_give_conformance(t: Seq<TypeInfo>, l: TypeId, r: TypeId, fuel: nat)
    requires
        fuel > 0,
        r.0 != 0,
        !is_basic(l),
        t[r.0 as int].kind is Protocol,
        !(t[l.0 as int].kind is Protocol),
        forall|i: int|
            0 <= i < t[r.0 as int].methods@.len() ==> has_fitting_method(t, l, #[trigger] t[r.0 as int].methods@[i], (fuel - 1) as nat),
    ensures
        subtype(t, l, r, fuel),
{
    let ms = t[r.0 as int].methods@;
    let chain = chain_ids(t, l, t.len());
    assert forall|i: int| 0 <= i < ms.len() implies any_in_chain(t, chain, #[trigger] ms[i], fuel) by {
        let pm = ms[i];
        assert(has_fitting_method(t, l, pm, (fuel - 1) as nat));
        let (j, k) = choose|j: int, k: int|
            #![trigger ancestor_method(t, l, j, k)]
            {
                &&& 0 <= j < chain_ids(t, l, t.len()).len()
                &&& 0 <= k < t[chain_ids(t, l, t.len())[j].0 as int].methods@.len()
                &&& ancestor_method(t, l, j, k).name@ == pm.name@
                &&& match (ancestor_method(t, l, j, k).ty, pm.ty) {
                    (SymbolType::Function { params: tp, ret: tr }, SymbolType::Function { params: pp, ret: pr }) => {
                        &&& subtype(t, tr, pr, (fuel - 1) as nat)
                        &&& tp@.len() == pp@.len()
                        &&& forall|q: int| 0 <= q < pp@.len() ==> subtype(t, #[trigger] pp@[q], tp@[q], (fuel - 1) as nat)
                    },
                    _ => false,
                }
            };
        let tm = ancestor_method(t, l, j, k);
        match (tm.ty, pm.ty) {
            (SymbolType::Function { params: tp, ret: tr }, SymbolType::Function { params: pp, ret: pr }) => {
                lemma_params_from(t, pp@, tp@, (fuel - 1) as nat);
            },
            _ => {},
        }
        assert(compatible(t, tm, pm, fuel));
        lemma_compatible_from_index(t, t[chain[j].0 as int].methods@, pm, fuel, k);
        lemma_chain_from_index(t, chain, pm, fuel, j);
    }
    lemma_satisfied_from(t, l, ms, fuel);
}

/// What checking the arguments of a call, `new`, a method call or a parent
/// clause does for argument `k`: among the errors added between its own
/// analysis and the next argument's, one is the argument's mismatch error
/// exactly when it has a parameter and its type is not a subtype of that
/// parameter's type in the table of that moment; a supertype of the
/// parameter's type is refused like any other non-subtype.
pub proof fn law_argument_mismatch_iff_not_subtype(
    errs: Seq<SemanticError>,
    starts: Seq<int>,
    checks: Seq<int>,
    tables: Seq<Seq<TypeInfo>>,
    arg_tys: Seq<TypeId>,
    param_tys: Seq<TypeId>,
    mismatch: spec_fn(int, SemanticError) -> bool,
    k: int,
)
    requires
        args_checked(errs, starts, checks, tables, arg_tys, param_tys, mismatch),
        0 <= k < arg_tys.len(),
    ensures
        (exists|p: int| checks[k] <= p < starts[k + 1] && #[trigger] mismatch(k, errs[p])) <==> (k < param_tys.len() && !subtype(
            tables[k],
            arg_tys[k],
            param_tys[k],
            tables[k].len(),
        )),
{
    assert(starts_around(starts, checks, k));
    assert(arg_checked(errs, checks[k], starts[k + 1], tables[k], arg_tys[k], k, param_tys, mismatch));
    if k < param_tys.len() && !subtype(tables[k], arg_tys[k], param_tys[k], tables[k].len()) {
        assert(mismatch(k, errs[checks[k]]));
    }
}

/// When the type table is the same before and after the checks, every
/// argument was checked against that very table.
pub proof fn law_checks_use_the_unchanged_table(before: Seq<TypeInfo>, tables: Seq<Seq<TypeInfo>>, k: int)
    requires
        tables_between(before, tables, before),
        0 <= k < tables.len(),
    ensures
        tables[k] == before,
{
    crate::analyzer::lemma_tables_between_fixed(before, tables, k);
}

} // verus!
