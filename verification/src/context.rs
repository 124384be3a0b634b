use vstd::prelude::*;
use crate::ast::{Decl, TypeFeatures};
use crate::hir::{TypedDecl, TypedDeclKind};
use crate::symbols::{symbol_type_valid, lemma_symbol_type_valid_mono, Symbol, SymbolType};
use crate::types::{find_symbol, first_named, has_named, is_first_named, lemma_first_named, TypeId, TypeTable};

verus! {

/// The symbols declared in one lexical scope.
pub struct Scope {
    pub symbols: Vec<Symbol>,
}

impl Scope {
    /// The symbol `name` of this scope, to be changed in place.
    pub fn get_mut(&mut self, name: &str) -> (r: Option<&mut Symbol>)
        ensures
            match r {
                Some(s) => {
                    &&& has_named(old(self).symbols@, name@)
                    &&& *s == old(self).symbols@[first_named(old(self).symbols@, name@)]
                    &&& final(self).symbols@ == old(self).symbols@.update(
                        first_named(old(self).symbols@, name@),
                        *final(s),
                    )
                },
                None => !has_named(old(self).symbols@, name@) && final(self).symbols@ == old(self).symbols@,
            },
    {
        let key = String::from_str(name);
        match find_symbol(&self.symbols, &key) {
            Some(i) => {
                proof { lemma_first_named(self.symbols@, name@, i as int); }
                Some(&mut self.symbols[i])
            },
            None => None,
        }
    }
}

/// An instance of a generic type: the type it made and its typed declaration.
pub struct TypeInstance {
    pub type_id: TypeId,
    pub decl: TypedDecl,
}

/// An instantiation of a generic function or type: its name and the concrete types.
pub type GenericInstanceKey = (String, Vec<TypeId>);

/// An instantiation of a generic method: the type, the method and the argument types.
pub type MethodInstanceKey = (TypeId, String, Vec<TypeId>);

/// The plain value of an instance key.
pub open spec fn key_view(k: GenericInstanceKey) -> (Seq<char>, Seq<TypeId>) {
    (k.0@, k.1@)
}

pub open spec fn method_key_view(k: MethodInstanceKey) -> (TypeId, Seq<char>, Seq<TypeId>) {
    (k.0, k.1@, k.2@)
}

/// Whether two type lists are the same.
pub fn same_types(a: &Vec<TypeId>, b: &Vec<TypeId>) -> (r: bool)
    ensures
        r == (a@ == b@),
{
    if a.len() != b.len() {
        return false;
    }
    let mut i: usize = 0;
    while i < a.len()
        invariant
            a@.len() == b@.len(),
            i <= a@.len(),
            forall|j: int| 0 <= j < i ==> a@[j] == b@[j],
        decreases a.len() - i,
    {
        if a[i] != b[i] {
            return false;
        }
        i = i + 1;
    }
    assert(a@ =~= b@);
    true
}

/// The symbol `name` resolves to: the one of the innermost scope that has it.
pub open spec fn lookup_in(scopes: Seq<Scope>, name: Seq<char>) -> Option<Symbol>
    decreases scopes.len(),
{
    if scopes.len() == 0 {
        None
    } else {
        let ss = scopes.last().symbols@;
        if has_named(ss, name) {
            Some(ss[first_named(ss, name)])
        } else {
            lookup_in(scopes.drop_last(), name)
        }
    }
}

/// The index of the innermost scope that has `name`.
pub open spec fn scope_of(scopes: Seq<Scope>, name: Seq<char>) -> Option<int>
    decreases scopes.len(),
{
    if scopes.len() == 0 {
        None
    } else if has_named(scopes.last().symbols@, name) {
        Some(scopes.len() - 1)
    } else {
        scope_of(scopes.drop_last(), name)
    }
}

/// Every symbol of every scope mentions only the first `n` types.
pub open spec fn scopes_valid(scopes: Seq<Scope>, n: nat) -> bool {
    forall|i: int, j: int|
        0 <= i < scopes.len() && 0 <= j < scopes[i].symbols@.len() ==> symbol_type_valid(
            #[trigger] scopes[i].symbols@[j].ty,
            n,
        )
}

pub proof fn lemma_scopes_valid_mono(scopes: Seq<Scope>, n: nat, m: nat)
    requires
        scopes_valid(scopes, n),
        n <= m,
    ensures
        scopes_valid(scopes, m),
{
    assert forall|i: int, j: int|
        0 <= i < scopes.len() && 0 <= j < scopes[i].symbols@.len() implies symbol_type_valid(
        #[trigger] scopes[i].symbols@[j].ty,
        m,
    ) by {
        lemma_symbol_type_valid_mono(scopes[i].symbols@[j].ty, n, m);
    }
}

proof fn lemma_lookup_valid(scopes: Seq<Scope>, name: Seq<char>, n: nat)
    requires
        scopes_valid(scopes, n),
    ensures
        match lookup_in(scopes, name) {
            Some(s) => symbol_type_valid(s.ty, n),
            None => true,
        },
    decreases scopes.len(),
{
    if scopes.len() > 0 {
        let ss = scopes.last().symbols@;
        if has_named(ss, name) {
            let k = choose|i: int| 0 <= i < ss.len() && (#[trigger] ss[i]).name@ == name;
            lemma_has_first(ss, name, k);
            let f = first_named(ss, name);
            assert(symbol_type_valid(scopes[scopes.len() - 1].symbols@[f].ty, n));
        } else {
            let rest = scopes.drop_last();
            assert forall|i: int, j: int|
                0 <= i < rest.len() && 0 <= j < rest[i].symbols@.len() implies symbol_type_valid(
                #[trigger] rest[i].symbols@[j].ty,
                n,
            ) by {
                assert(rest[i] == scopes[i]);
            }
            lemma_lookup_valid(rest, name, n);
        }
    }
}

/// A name that occurs in a list has a first occurrence.
pub proof fn lemma_has_first(ss: Seq<Symbol>, name: Seq<char>, k: int)
    requires
        0 <= k < ss.len(),
        ss[k].name@ == name,
    ensures
        is_first_named(ss, name, first_named(ss, name)),
    decreases k,
{
    if forall|j: int| 0 <= j < k ==> (#[trigger] ss[j]).name@ != name {
        assert(is_first_named(ss, name, k));
    } else {
        let j = choose|j: int| 0 <= j < k && (#[trigger] ss[j]).name@ != name == false;
        lemma_has_first(ss, name, j);
    }
}

/// The state the analysis carries: scopes, types, what is being analysed, and
/// the generic declarations with the instances made of them.
pub struct SemanticContext {
    pub scopes: Vec<Scope>,
    pub types: TypeTable,
    pub current_method: Option<String>,
    pub current_type: Option<TypeId>,
    pub current_function_return: Option<TypeId>,
    /// Generic functions by name.
    pub generic_decls: Vec<(String, Decl)>,
    /// Instances of generic functions, in the order they were made.
    pub generic_instances: Vec<(GenericInstanceKey, TypedDecl)>,
    pub in_progress_instances: Vec<GenericInstanceKey>,
    /// Generic types by name.
    pub generic_type_decls: Vec<(String, Decl)>,
    /// Instances of generic types, in the order they were made.
    pub generic_type_instances: Vec<(GenericInstanceKey, TypeInstance)>,
    pub in_progress_types: Vec<GenericInstanceKey>,
    /// Methods with unannotated parameters, by type and name.
    pub pending_generic_methods: Vec<(TypeId, String, TypeFeatures)>,
    /// Instances of generic methods, in the order they were made.
    pub generic_method_instances: Vec<(MethodInstanceKey, TypedDecl)>,
    pub in_progress_methods: Vec<MethodInstanceKey>,
    /// How many more instantiations may be nested inside the current one.
    pub instantiation_budget: usize,
}

/// How deeply instantiations of generic functions, types and methods may nest.
pub const INSTANTIATION_DEPTH: usize = 64;

/// `i` is the first index of `k` among the keys of `entries`.
pub open spec fn is_first_key<V>(entries: Seq<(GenericInstanceKey, V)>, k: (Seq<char>, Seq<TypeId>), i: int) -> bool {
    &&& 0 <= i < entries.len()
    &&& key_view(entries[i].0) == k
    &&& forall|j: int| 0 <= j < i ==> key_view((#[trigger] entries[j]).0) != k
}

/// The entry recorded for `k` (the first one with that key), if any.
pub open spec fn entry_of<V>(entries: Seq<(GenericInstanceKey, V)>, k: (Seq<char>, Seq<TypeId>)) -> Option<V> {
    if exists|i: int| is_first_key(entries, k, i) {
        Some(entries[choose|i: int| is_first_key(entries, k, i)].1)
    } else {
        None
    }
}

/// `entries` after recording `v` for `key`: in place of the first entry of
/// that key when there is one, else at the end.
pub open spec fn record_entry<V>(entries: Seq<(GenericInstanceKey, V)>, key: GenericInstanceKey, v: V) -> Seq<(GenericInstanceKey, V)> {
    if exists|i: int| is_first_key(entries, key_view(key), i) {
        entries.update(choose|i: int| is_first_key(entries, key_view(key), i), (key, v))
    } else {
        entries.push((key, v))
    }
}

/// No key occurs twice among `entries`.
pub open spec fn keys_distinct<V>(entries: Seq<(GenericInstanceKey, V)>) -> bool {
    forall|i: int, j: int|
        0 <= i < j < entries.len() ==> key_view((#[trigger] entries[i]).0) != key_view((#[trigger] entries[j]).0)
}

/// The first occurrence of a key is the one `choose` picks.
pub proof fn lemma_first_key_chosen<V>(entries: Seq<(GenericInstanceKey, V)>, k: (Seq<char>, Seq<TypeId>), i: int)
    requires
        is_first_key(entries, k, i),
    ensures
        (choose|c: int| is_first_key(entries, k, c)) == i,
{
    let c = choose|c: int| is_first_key(entries, k, c);
    assert(is_first_key(entries, k, c));
    if c < i {
        assert(key_view(entries[c].0) != k);
    }
    if i < c {
        assert(key_view(entries[i].0) != k);
    }
}

pub proof fn lemma_first_key<V>(entries: Seq<(GenericInstanceKey, V)>, k: (Seq<char>, Seq<TypeId>), i: int)
    requires
        is_first_key(entries, k, i),
    ensures
        entry_of(entries, k) == Some(entries[i].1),
{
    let c = choose|c: int| is_first_key(entries, k, c);
    assert(is_first_key(entries, k, c));
    if c < i {
        assert(key_view(entries[c].0) != k);
    }
    if i < c {
        assert(key_view(entries[i].0) != k);
    }
}

pub proof fn lemma_no_key<V>(entries: Seq<(GenericInstanceKey, V)>, k: (Seq<char>, Seq<TypeId>))
    requires
        forall|j: int| 0 <= j < entries.len() ==> key_view((#[trigger] entries[j]).0) != k,
    ensures
        entry_of(entries, k) is None,
{
}

/// A key that occurs has a first occurrence.
pub proof fn lemma_some_first_key<V>(entries: Seq<(GenericInstanceKey, V)>, k: (Seq<char>, Seq<TypeId>), j: int)
    requires
        0 <= j < entries.len(),
        key_view(entries[j].0) == k,
    ensures
        exists|i: int| is_first_key(entries, k, i),
    decreases j,
{
    if exists|m: int| 0 <= m < j && key_view((#[trigger] entries[m]).0) == k {
        let m = choose|m: int| 0 <= m < j && key_view((#[trigger] entries[m]).0) == k;
        lemma_some_first_key(entries, k, m);
    } else {
        assert(is_first_key(entries, k, j));
    }
}

/// Writing the entry of one key (in place of its first occurrence, or at
/// the end) leaves the entry of every other key as it was.
pub proof fn lemma_other_key_kept<V>(
    before: Seq<(GenericInstanceKey, V)>,
    after: Seq<(GenericInstanceKey, V)>,
    kv: (Seq<char>, Seq<TypeId>),
    k: (Seq<char>, Seq<TypeId>),
)
    requires
        k != kv,
        after.len() == before.len() || after.len() == before.len() + 1,
        forall|j: int| 0 <= j < before.len() && key_view((#[trigger] before[j]).0) != kv ==> after[j] == before[j],
        forall|j: int| 0 <= j < before.len() && key_view((#[trigger] before[j]).0) == kv ==> key_view(after[j].0) == kv,
        after.len() == before.len() + 1 ==> key_view(after[before.len() as int].0) == kv,
    ensures
        entry_of(after, k) == entry_of(before, k),
{
    if exists|c: int| is_first_key(before, k, c) {
        let c = choose|c: int| is_first_key(before, k, c);
        assert(after[c] == before[c]);
        assert(is_first_key(after, k, c)) by {
            assert forall|j: int| 0 <= j < c implies key_view((#[trigger] after[j]).0) != k by {
                if key_view(before[j].0) != kv {
                    assert(after[j] == before[j]);
                }
            }
        }
        lemma_first_key(before, k, c);
        lemma_first_key(after, k, c);
    } else {
        assert forall|j: int| 0 <= j < after.len() implies key_view((#[trigger] after[j]).0) != k by {
            if j < before.len() {
                if key_view(before[j].0) == k {
                    lemma_some_first_key(before, k, j);
                }
                if key_view(before[j].0) != kv {
                    assert(after[j] == before[j]);
                }
            }
        }
        lemma_no_key(after, k);
    }
}

/// A key that occurs has a first occurrence.
proof fn lemma_some_first_method_key<V>(entries: Seq<(MethodInstanceKey, V)>, k: (TypeId, Seq<char>, Seq<TypeId>), j: int)
    requires
        0 <= j < entries.len(),
        method_key_view(entries[j].0) == k,
    ensures
        exists|i: int| is_first_method_key(entries, k, i),
    decreases j,
{
    if exists|m: int| 0 <= m < j && method_key_view((#[trigger] entries[m]).0) == k {
        let m = choose|m: int| 0 <= m < j && method_key_view((#[trigger] entries[m]).0) == k;
        lemma_some_first_method_key(entries, k, m);
    } else {
        assert(is_first_method_key(entries, k, j));
    }
}

/// Writing the entry of one method key leaves every other key's entry as it was.
pub proof fn lemma_other_method_key_kept<V>(
    before: Seq<(MethodInstanceKey, V)>,
    after: Seq<(MethodInstanceKey, V)>,
    kv: (TypeId, Seq<char>, Seq<TypeId>),
    k: (TypeId, Seq<char>, Seq<TypeId>),
)
    requires
        k != kv,
        after.len() == before.len() || after.len() == before.len() + 1,
        forall|j: int| 0 <= j < before.len() && method_key_view((#[trigger] before[j]).0) != kv ==> after[j] == before[j],
        forall|j: int| 0 <= j < before.len() && method_key_view((#[trigger] before[j]).0) == kv ==> method_key_view(after[j].0) == kv,
        after.len() == before.len() + 1 ==> method_key_view(after[before.len() as int].0) == kv,
    ensures
        method_entry_of(after, k) == method_entry_of(before, k),
{
    if exists|c: int| is_first_method_key(before, k, c) {
        let c = choose|c: int| is_first_method_key(before, k, c);
        assert(after[c] == before[c]);
        assert(is_first_method_key(after, k, c)) by {
            assert forall|j: int| 0 <= j < c implies method_key_view((#[trigger] after[j]).0) != k by {
                if method_key_view(before[j].0) != kv {
                    assert(after[j] == before[j]);
                }
            }
        }
        lemma_first_method_key(before, k, c);
        lemma_first_method_key(after, k, c);
    } else {
        assert forall|j: int| 0 <= j < after.len() implies method_key_view((#[trigger] after[j]).0) != k by {
            if j < before.len() {
                if method_key_view(before[j].0) == k {
                    lemma_some_first_method_key(before, k, j);
                }
                if method_key_view(before[j].0) != kv {
                    assert(after[j] == before[j]);
                }
            }
        }
        lemma_no_method_key(after, k);
    }
}

/// `i` is the first index of `k` among the keys of `entries`.
pub open spec fn is_first_method_key<V>(entries: Seq<(MethodInstanceKey, V)>, k: (TypeId, Seq<char>, Seq<TypeId>), i: int) -> bool {
    &&& 0 <= i < entries.len()
    &&& method_key_view(entries[i].0) == k
    &&& forall|j: int| 0 <= j < i ==> method_key_view((#[trigger] entries[j]).0) != k
}

/// The entry recorded for `k` (the first one with that key), if any.
pub open spec fn method_entry_of<V>(entries: Seq<(MethodInstanceKey, V)>, k: (TypeId, Seq<char>, Seq<TypeId>)) -> Option<V> {
    if exists|i: int| is_first_method_key(entries, k, i) {
        Some(entries[choose|i: int| is_first_method_key(entries, k, i)].1)
    } else {
        None
    }
}

pub proof fn lemma_first_method_key<V>(entries: Seq<(MethodInstanceKey, V)>, k: (TypeId, Seq<char>, Seq<TypeId>), i: int)
    requires
        is_first_method_key(entries, k, i),
    ensures
        method_entry_of(entries, k) == Some(entries[i].1),
{
    let c = choose|c: int| is_first_method_key(entries, k, c);
    assert(is_first_method_key(entries, k, c));
    if c < i {
        assert(method_key_view(entries[c].0) != k);
    }
    if i < c {
        assert(method_key_view(entries[i].0) != k);
    }
}

pub proof fn lemma_no_method_key<V>(entries: Seq<(MethodInstanceKey, V)>, k: (TypeId, Seq<char>, Seq<TypeId>))
    requires
        forall|j: int| 0 <= j < entries.len() ==> method_key_view((#[trigger] entries[j]).0) != k,
    ensures
        method_entry_of(entries, k) is None,
{
}

/// Whether a key has the given name and types.
pub fn key_matches(k: &GenericInstanceKey, name: &str, tys: &Vec<TypeId>) -> (r: bool)
    ensures
        r == (key_view(*k) == (name@, tys@)),
{
    let n = String::from_str(name);
    if k.0 != n {
        return false;
    }
    same_types(&k.1, tys)
}

/// Whether a method key has the given type, name and types.
pub fn method_key_matches(k: &MethodInstanceKey, type_id: TypeId, name: &str, tys: &Vec<TypeId>) -> (r: bool)
    ensures
        r == (method_key_view(*k) == (type_id, name@, tys@)),
{
    if k.0 != type_id {
        return false;
    }
    let n = String::from_str(name);
    if k.1 != n {
        return false;
    }
    same_types(&k.2, tys)
}

/// The name of an instance: the base name followed by `$` and the name of
/// each concrete type.
pub open spec fn mangled_name(t: Seq<crate::types::TypeInfo>, base: Seq<char>, tys: Seq<TypeId>) -> Seq<char>
    decreases tys.len(),
{
    if tys.len() == 0 {
        base
    } else {
        mangled_name(t, base, tys.drop_last()) + "$"@ + t[tys.last().0 as int].name@
    }
}

pub open spec fn keys_contain(keys: Seq<GenericInstanceKey>, k: (Seq<char>, Seq<TypeId>)) -> bool {
    exists|i: int| 0 <= i < keys.len() && key_view(#[trigger] keys[i]) == k
}

pub open spec fn method_keys_contain(keys: Seq<MethodInstanceKey>, k: (TypeId, Seq<char>, Seq<TypeId>)) -> bool {
    exists|i: int| 0 <= i < keys.len() && method_key_view(#[trigger] keys[i]) == k
}

/// Two function declarations with the same name, parameters (names and
/// annotations) and body kind and place.
pub open spec fn same_function_text(a: Decl, b: Decl) -> bool {
    &&& a.node->Function_name@ == b.node->Function_name@
    &&& a.node->Function_params@.len() == b.node->Function_params@.len()
    &&& forall|i: int|
        0 <= i < b.node->Function_params@.len() ==> (#[trigger] a.node->Function_params@[i]).0@ == b.node->Function_params@[i].0@
            && a.node->Function_params@[i].1 == b.node->Function_params@[i].1
    &&& a.node->Function_body.span == b.node->Function_body.span
    &&& crate::ast::expr_tag(a.node->Function_body) == crate::ast::expr_tag(b.node->Function_body)
}

/// Two methods with the same parameters (names and annotations) and body
/// kind and place.
pub open spec fn same_method_text(a: TypeFeatures, b: TypeFeatures) -> bool {
    &&& a.node->Method_params@.len() == b.node->Method_params@.len()
    &&& forall|i: int|
        0 <= i < b.node->Method_params@.len() ==> (#[trigger] a.node->Method_params@[i]).0@ == b.node->Method_params@[i].0@
            && a.node->Method_params@[i].1 == b.node->Method_params@[i].1
    &&& a.node->Method_body.span == b.node->Method_body.span
    &&& crate::ast::expr_tag(a.node->Method_body) == crate::ast::expr_tag(b.node->Method_body)
}

/// `i` is the first position of a method with unannotated parameters kept
/// for type `type_id` under `name`.
pub open spec fn is_first_pending(pending: Seq<(TypeId, String, TypeFeatures)>, type_id: TypeId, name: Seq<char>, i: int) -> bool {
    &&& 0 <= i < pending.len()
    &&& pending[i].0 == type_id && pending[i].1@ == name
    &&& forall|j: int| 0 <= j < i ==> !((#[trigger] pending[j]).0 == type_id && pending[j].1@ == name)
}

/// `i` is the first position of a generic function registered under `name`.
pub open spec fn is_first_generic(decls: Seq<(String, Decl)>, name: Seq<char>, i: int) -> bool {
    &&& 0 <= i < decls.len()
    &&& decls[i].0@ == name
    &&& forall|j: int| 0 <= j < i ==> (#[trigger] decls[j]).0@ != name
}

/// Some generic function is registered under `name`.
pub open spec fn has_generic_named(decls: Seq<(String, Decl)>, name: Seq<char>) -> bool {
    exists|i: int| 0 <= i < decls.len() && (#[trigger] decls[i]).0@ == name
}

/// Some method with unannotated parameters of `type_id` is kept under `name`.
pub open spec fn has_pending_method(pending: Seq<(TypeId, String, TypeFeatures)>, type_id: TypeId, name: Seq<char>) -> bool {
    exists|i: int| 0 <= i < pending.len() && (#[trigger] pending[i]).0 == type_id && pending[i].1@ == name
}

/// A typed function declaration whose return type is one of the first `n` types.
pub open spec fn function_decl_valid(d: TypedDecl, n: nat) -> bool {
    match d.node {
        TypedDeclKind::Function { return_type, .. } => return_type.0 < n,
        _ => false,
    }
}

impl SemanticContext {
    /// The scopes and records mention only types of the table.
    pub open spec fn wf(&self) -> bool {
        &&& self.types.wf()
        &&& self.scopes@.len() >= 1
        &&& scopes_valid(self.scopes@, self.types.infos@.len())
        &&& crate::symbols::opt_id_below(self.current_type, self.types.infos@.len())
        &&& crate::symbols::opt_id_below(self.current_function_return, self.types.infos@.len())
        &&& forall|i: int| 0 <= i < self.generic_decls@.len() ==> (#[trigger] self.generic_decls@[i]).1.node is Function
        &&& forall|i: int| 0 <= i < self.generic_type_decls@.len() ==> (#[trigger] self.generic_type_decls@[i]).1.node is Type
        &&& forall|i: int|
            0 <= i < self.pending_generic_methods@.len() ==> (#[trigger] self.pending_generic_methods@[i]).2.node is Method
        &&& forall|i: int|
            0 <= i < self.generic_instances@.len() ==> function_decl_valid(
                #[trigger] self.generic_instances@[i].1,
                self.types.infos@.len(),
            )
        &&& forall|i: int|
            0 <= i < self.generic_type_instances@.len() ==> (#[trigger] self.generic_type_instances@[i]).1.type_id.0
                < self.types.infos@.len()
        &&& forall|i: int|
            0 <= i < self.generic_method_instances@.len() ==> function_decl_valid(
                #[trigger] self.generic_method_instances@[i].1,
                self.types.infos@.len(),
            )
    }

    /// The symbol `name` resolves to.
    pub open spec fn spec_lookup(&self, name: Seq<char>) -> Option<Symbol> {
        lookup_in(self.scopes@, name)
    }

    /// A context with the builtin types, one empty scope and nothing generic.
    pub fn new() -> (c: SemanticContext)
        ensures
            c.wf(),
            c.scopes@.len() == 1,
            c.scopes@[0].symbols@.len() == 0,
            c.types.infos@.len() == 4,
            c.current_type is None,
            c.current_method is None,
            c.current_function_return is None,
            c.generic_decls@.len() == 0,
            c.generic_instances@.len() == 0,
            c.in_progress_instances@.len() == 0,
            c.generic_type_decls@.len() == 0,
            c.generic_type_instances@.len() == 0,
            c.in_progress_types@.len() == 0,
            c.pending_generic_methods@.len() == 0,
            c.generic_method_instances@.len() == 0,
            c.in_progress_methods@.len() == 0,
            c.instantiation_budget == INSTANTIATION_DEPTH,
    {
        let mut scopes: Vec<Scope> = Vec::new();
        scopes.push(Scope { symbols: Vec::new() });
        let c = SemanticContext {
            scopes,
            types: TypeTable::new(),
            current_method: None,
            current_type: None,
            current_function_return: None,
            generic_decls: Vec::new(),
            generic_instances: Vec::new(),
            in_progress_instances: Vec::new(),
            generic_type_decls: Vec::new(),
            generic_type_instances: Vec::new(),
            in_progress_types: Vec::new(),
            pending_generic_methods: Vec::new(),
            generic_method_instances: Vec::new(),
            in_progress_methods: Vec::new(),
            instantiation_budget: INSTANTIATION_DEPTH,
        };
        c
    }

    /// Opens a new, empty, innermost scope.
    pub fn push_scope(&mut self)
        requires
            old(self).wf(),
        ensures
            final(self).wf(),
            final(self).scopes@ == old(self).scopes@.push(Scope { symbols: final(self).scopes@.last().symbols }),
            final(self).scopes@.last().symbols@.len() == 0,
            final(self).types == old(self).types,
            final(self).current_type == old(self).current_type,
            final(self).current_method == old(self).current_method,
            final(self).current_function_return == old(self).current_function_return,
            final(self).generic_instances == old(self).generic_instances,
            final(self).generic_type_instances == old(self).generic_type_instances,
            final(self).generic_method_instances == old(self).generic_method_instances,
            final(self).instantiation_budget == old(self).instantiation_budget,
            final(self).generic_decls == old(self).generic_decls,
    {
        self.scopes.push(Scope { symbols: Vec::new() });
        proof {
            let n = self.types.infos@.len();
            let s = self.scopes@;
            assert forall|i: int, j: int|
                0 <= i < s.len() && 0 <= j < s[i].symbols@.len() implies symbol_type_valid(
                #[trigger] s[i].symbols@[j].ty,
                n,
            ) by {
                assert(s[i] == old(self).scopes@[i]);
            }
        }
    }

    /// Closes the innermost scope.
    pub fn pop_scope(&mut self)
        requires
            old(self).wf(),
            old(self).scopes@.len() >= 2,
        ensures
            final(self).wf(),
            final(self).scopes@ == old(self).scopes@.drop_last(),
            final(self).types == old(self).types,
            final(self).current_type == old(self).current_type,
            final(self).current_method == old(self).current_method,
            final(self).current_function_return == old(self).current_function_return,
            final(self).generic_instances == old(self).generic_instances,
            final(self).generic_type_instances == old(self).generic_type_instances,
            final(self).generic_method_instances == old(self).generic_method_instances,
            final(self).instantiation_budget == old(self).instantiation_budget,
            final(self).generic_decls == old(self).generic_decls,
    {
        let _ = self.scopes.pop();
        proof {
            let n = self.types.infos@.len();
            let s = self.scopes@;
            assert forall|i: int, j: int|
                0 <= i < s.len() && 0 <= j < s[i].symbols@.len() implies symbol_type_valid(
                #[trigger] s[i].symbols@[j].ty,
                n,
            ) by {
                assert(s[i] == old(self).scopes@[i]);
            }
        }
    }

    /// Declares a symbol in the innermost scope; refused (`false`, nothing
    /// changes) when that scope already has a symbol of that name.
    pub fn declare(&mut self, symbol: Symbol) -> (ok: bool)
        requires
            old(self).wf(),
            symbol_type_valid(symbol.ty, old(self).types.infos@.len()),
        ensures
            final(self).wf(),
            ok == !has_named(old(self).scopes@.last().symbols@, symbol.name@),
            !ok ==> *final(self) == *old(self),
            !ok ==> final(self).scopes@ == old(self).scopes@,
            ok ==> final(self).scopes@ == old(self).scopes@.update(
                old(self).scopes@.len() - 1,
                Scope { symbols: final(self).scopes@.last().symbols },
            ),
            ok ==> final(self).scopes@.last().symbols@ == old(self).scopes@.last().symbols@.push(symbol),
            ok ==> final(self).spec_lookup(symbol.name@) == Some(symbol),
            forall|n: Seq<char>| n != symbol.name@ ==> #[trigger] final(self).spec_lookup(n) == old(self).spec_lookup(n),
            final(self).types == old(self).types,
            final(self).current_type == old(self).current_type,
            final(self).current_method == old(self).current_method,
            final(self).current_function_return == old(self).current_function_return,
            final(self).generic_decls == old(self).generic_decls,
            final(self).generic_instances == old(self).generic_instances,
            final(self).in_progress_instances == old(self).in_progress_instances,
            final(self).generic_type_decls == old(self).generic_type_decls,
            final(self).generic_type_instances == old(self).generic_type_instances,
            final(self).in_progress_types == old(self).in_progress_types,
            final(self).pending_generic_methods == old(self).pending_generic_methods,
            final(self).generic_method_instances == old(self).generic_method_instances,
            final(self).in_progress_methods == old(self).in_progress_methods,
            final(self).instantiation_budget == old(self).instantiation_budget,
    {
        let last = self.scopes.len() - 1;
        if find_symbol(&self.scopes[last].symbols, &symbol.name).is_some() {
            return false;
        }
        let ghost name = symbol.name@;
        let ghost sym = symbol;
        self.scopes[last].symbols.push(symbol);
        proof {
            let n = self.types.infos@.len();
            let s = self.scopes@;
            assert(s =~= old(self).scopes@.update(last as int, Scope { symbols: s.last().symbols }));
            assert forall|i: int, j: int|
                0 <= i < s.len() && 0 <= j < s[i].symbols@.len() implies symbol_type_valid(
                #[trigger] s[i].symbols@[j].ty,
                n,
            ) by {
                if i != last {
                    assert(s[i] == old(self).scopes@[i]);
                } else if j < old(self).scopes@[i].symbols@.len() {
                    assert(s[i].symbols@[j] == old(self).scopes@[i].symbols@[j]);
                }
            }
            let ss = s.last().symbols@;
            assert(is_first_named(ss, name, ss.len() - 1));
            lemma_first_named(ss, name, ss.len() - 1);
            assert(s.drop_last() =~= old(self).scopes@.drop_last());
            assert forall|n: Seq<char>| n != name implies #[trigger] lookup_in(s, n) == lookup_in(old(self).scopes@, n) by {
                lemma_lookup_push_other(old(self).scopes@, s, sym, n);
            }
        }
        true
    }

    /// The symbol `name` resolves to: that of the innermost scope declaring it.
    pub fn lookup(&self, name: &str) -> (r: Option<&Symbol>)
        requires
            self.wf(),
        ensures
            match r {
                Some(s) => self.spec_lookup(name@) == Some(*s) && symbol_type_valid(s.ty, self.types.infos@.len()),
                None => self.spec_lookup(name@) is None,
            },
    {
        proof { lemma_lookup_valid(self.scopes@, name@, self.types.infos@.len()); }
        let key = String::from_str(name);
        let mut i: usize = self.scopes.len();
        assert(self.scopes@.take(i as int) =~= self.scopes@);
        while i > 0
            invariant
                self.wf(),
                i <= self.scopes@.len(),
                key@ == name@,
                lookup_in(self.scopes@, name@) == lookup_in(self.scopes@.take(i as int), name@),
            decreases i,
        {
            let ghost pre = self.scopes@.take(i as int);
            assert(pre.drop_last() =~= self.scopes@.take(i - 1));
            assert(pre.last() == self.scopes@[i - 1]);
            match find_symbol(&self.scopes[i - 1].symbols, &key) {
                Some(j) => {
                    proof {
                        let ss = self.scopes@[i - 1].symbols@;
                        lemma_first_named(ss, name@, j as int);
                        assert(ss[j as int].name@ == name@);
                        assert(has_named(ss, name@));
                        assert(symbol_type_valid(self.scopes@[i - 1].symbols@[j as int].ty, self.types.infos@.len()));
                    }
                    return Some(&self.scopes[i - 1].symbols[j]);
                },
                None => {},
            }
            i = i - 1;
        }
        None
    }

    /// Gives the symbol `name` resolves to a new type; `false` when no scope declares it.
    pub fn update_symbol_type(&mut self, name: &str, new_ty: SymbolType) -> (found: bool)
        requires
            old(self).wf(),
            symbol_type_valid(new_ty, old(self).types.infos@.len()),
        ensures
            final(self).wf(),
            found == (old(self).spec_lookup(name@) is Some),
            !found ==> final(self).scopes@ == old(self).scopes@,
            found ==> final(self).spec_lookup(name@) == Some(
                Symbol { ty: new_ty, ..old(self).spec_lookup(name@)->0 },
            ),
            forall|n: Seq<char>| n != name@ ==> #[trigger] final(self).spec_lookup(n) == old(self).spec_lookup(n),
            final(self).scopes@.len() == old(self).scopes@.len(),
            final(self).types == old(self).types,
            final(self).current_type == old(self).current_type,
            final(self).current_method == old(self).current_method,
            final(self).current_function_return == old(self).current_function_return,
            final(self).generic_instances == old(self).generic_instances,
            final(self).generic_type_instances == old(self).generic_type_instances,
            final(self).generic_method_instances == old(self).generic_method_instances,
            final(self).instantiation_budget == old(self).instantiation_budget,
            final(self).generic_decls == old(self).generic_decls,
    {
        let key = String::from_str(name);
        let mut i: usize = self.scopes.len();
        assert(self.scopes@.take(i as int) =~= self.scopes@);
        while i > 0
            invariant
                self == old(self),
                self.wf(),
                symbol_type_valid(new_ty, self.types.infos@.len()),
                i <= self.scopes@.len(),
                key@ == name@,
                lookup_in(self.scopes@, name@) == lookup_in(self.scopes@.take(i as int), name@),
                forall|k: int| i <= k < self.scopes@.len() ==> !has_named(#[trigger] self.scopes@[k].symbols@, name@),
            decreases i,
        {
            let ghost pre = self.scopes@.take(i as int);
            assert(pre.drop_last() =~= self.scopes@.take(i - 1));
            assert(pre.last() == self.scopes@[i - 1]);
            match find_symbol(&self.scopes[i - 1].symbols, &key) {
                Some(j) => {
                    proof {
                        let ss = self.scopes@[i - 1].symbols@;
                        lemma_first_named(ss, name@, j as int);
                        assert(ss[j as int].name@ == name@);
                    }
                    let ghost old_sym = self.scopes@[i - 1].symbols@[j as int];
                    self.scopes[i - 1].symbols[j].ty = new_ty;
                    proof {
                        let n = self.types.infos@.len();
                        let s = self.scopes@;
                        let k = i - 1;
                        assert(s[k].symbols@ =~= old(self).scopes@[k].symbols@.update(j as int, Symbol { ty: new_ty, ..old_sym }));
                        assert forall|a: int, b: int|
                            0 <= a < s.len() && 0 <= b < s[a].symbols@.len() implies symbol_type_valid(
                            #[trigger] s[a].symbols@[b].ty,
                            n,
                        ) by {
                            if a != k {
                                assert(s[a] == old(self).scopes@[a]);
                            } else if b != j {
                                assert(s[a].symbols@[b] == old(self).scopes@[a].symbols@[b]);
                            } else {
                                assert(s[a].symbols@[b].ty == new_ty);
                            }
                        }
                        lemma_lookup_update(old(self).scopes@, s, k as int, j as int, name@, new_ty);
                        assert forall|n: Seq<char>| n != name@ implies #[trigger] lookup_in(s, n) == lookup_in(old(self).scopes@, n) by {
                            lemma_lookup_update_other(old(self).scopes@, s, k as int, j as int, name@, new_ty, n);
                        }
                    }
                    return true;
                },
                None => {},
            }
            i = i - 1;
        }
        proof {
            assert(self.scopes@.take(0) =~= Seq::<Scope>::empty());
        }
        false
    }

    /// Adds the class that instantiates a generic type, under its mangled name.
    pub fn insert_type_instantiation(&mut self, mangled_name: String) -> (id: TypeId)
        requires
            old(self).wf(),
        ensures
            final(self).wf(),
            id.0 == old(self).types.infos@.len(),
            final(self).types.infos@.len() == old(self).types.infos@.len() + 1,
            forall|i: int| 0 <= i < old(self).types.infos@.len() ==> #[trigger] final(self).types.infos@[i] == old(self).types.infos@[i],
            crate::types::fresh_class(final(self).types.infos@[id.0 as int], mangled_name@, None),
            final(self).scopes == old(self).scopes,
            final(self).current_type == old(self).current_type,
            final(self).current_method == old(self).current_method,
            final(self).current_function_return == old(self).current_function_return,
            final(self).generic_instances == old(self).generic_instances,
            final(self).generic_type_instances == old(self).generic_type_instances,
            final(self).generic_method_instances == old(self).generic_method_instances,
            final(self).instantiation_budget == old(self).instantiation_budget,
            final(self).generic_decls == old(self).generic_decls,
    {
        let ghost n = self.types.infos@.len();
        let id = self.types.insert_instantiation(mangled_name, None);
        proof {
            lemma_scopes_valid_mono(self.scopes@, n, n + 1);
            assert forall|i: int| 0 <= i < n implies #[trigger] self.types.infos@[i] == old(self).types.infos@[i] by {
                assert(self.types.infos@.subrange(0, n as int)[i] == self.types.infos@[i]);
            }
        }
        id
    }

    /// Registers a class or a protocol under a new name (`None`, nothing
    /// changes, when the name is taken).
    pub fn insert_named_type(&mut self, name: String, protocol: bool) -> (r: Option<TypeId>)
        requires
            old(self).wf(),
        ensures
            final(self).wf(),
            r is None <==> old(self).types.spec_resolve(name@) is Some,
            r is None ==> final(self).types.infos@ == old(self).types.infos@,
            match r {
                Some(id) => {
                    &&& id.0 == old(self).types.infos@.len()
                    &&& final(self).types.infos@.len() == old(self).types.infos@.len() + 1
                    &&& final(self).types.infos@[id.0 as int].name@ == name@
                    &&& (final(self).types.infos@[id.0 as int].kind is Protocol) == protocol
                    &&& final(self).types.infos@[id.0 as int].parent is None
                },
                None => true,
            },
            forall|i: int| 0 <= i < old(self).types.infos@.len() ==> #[trigger] final(self).types.infos@[i] == old(self).types.infos@[i],
            final(self).scopes == old(self).scopes,
            final(self).current_type == old(self).current_type,
            final(self).current_method == old(self).current_method,
            final(self).current_function_return == old(self).current_function_return,
            final(self).generic_instances == old(self).generic_instances,
            final(self).generic_type_instances == old(self).generic_type_instances,
            final(self).generic_method_instances == old(self).generic_method_instances,
            final(self).instantiation_budget == old(self).instantiation_budget,
            final(self).generic_decls == old(self).generic_decls,
    {
        let ghost n = self.types.infos@.len();
        let r = if protocol {
            self.types.insert_protocol_placeholder(name)
        } else {
            self.types.insert(name, None)
        };
        proof {
            if r is Some {
                lemma_scopes_valid_mono(self.scopes@, n, n + 1);
                assert forall|i: int| 0 <= i < n implies #[trigger] self.types.infos@[i] == old(self).types.infos@[i] by {
                    assert(self.types.infos@.subrange(0, n as int)[i] == self.types.infos@[i]);
                }
            }
        }
        r
    }

    /// Records a generic function declaration under its name.
    pub fn register_generic_decl(&mut self, name: String, decl: Decl)
        requires
            old(self).wf(),
            decl.node is Function,
        ensures
            final(self).wf(),
            final(self).generic_decls@ == old(self).generic_decls@.push((name, decl)),
            final(self).scopes == old(self).scopes,
            final(self).types == old(self).types,
            final(self).current_type == old(self).current_type,
            final(self).current_method == old(self).current_method,
            final(self).current_function_return == old(self).current_function_return,
            final(self).generic_instances == old(self).generic_instances,
            final(self).generic_type_instances == old(self).generic_type_instances,
            final(self).generic_method_instances == old(self).generic_method_instances,
            final(self).instantiation_budget == old(self).instantiation_budget,
    {
        self.generic_decls.push((name, decl));
    }

    /// A copy of the generic function declaration recorded under `name`.
    pub fn get_generic_decl(&self, name: &str) -> (r: Option<Decl>)
        requires
            self.wf(),
        ensures
            r is Some ==> r->0.node is Function,
            r is Some == exists|i: int| 0 <= i < self.generic_decls@.len() && (#[trigger] self.generic_decls@[i]).0@ == name@,
            r is Some ==> forall|i: int|
                #[trigger] is_first_generic(self.generic_decls@, name@, i) ==> r->0.node->Function_return_type
                    == self.generic_decls@[i].1.node->Function_return_type && same_function_text(r->0, self.generic_decls@[i].1),
    {
        let key = String::from_str(name);
        let mut i: usize = 0;
        while i < self.generic_decls.len()
            invariant
                self.wf(),
                i <= self.generic_decls@.len(),
                key@ == name@,
                forall|j: int| 0 <= j < i ==> (#[trigger] self.generic_decls@[j]).0@ != name@,
            decreases self.generic_decls.len() - i,
        {
            if self.generic_decls[i].0 == key {
                let d = crate::ast::copy_decl(&self.generic_decls[i].1);
                proof {
                    assert(is_first_generic(self.generic_decls@, name@, i as int));
                    assert forall|j: int| #[trigger] is_first_generic(self.generic_decls@, name@, j) implies j == i by {
                        if j < i {
                        } else if j > i {
                            assert(self.generic_decls@[i as int].0@ != name@);
                        }
                    }
                }
                return Some(d);
            }
            i = i + 1;
        }
        None
    }

    /// Whether a generic function is recorded under `name`.
    pub fn has_generic_decl(&self, name: &str) -> (r: bool)
        requires
            self.wf(),
        ensures
            r == exists|i: int| 0 <= i < self.generic_decls@.len() && (#[trigger] self.generic_decls@[i]).0@ == name@,
    {
        let key = String::from_str(name);
        let mut i: usize = 0;
        while i < self.generic_decls.len()
            invariant
                self.wf(),
                i <= self.generic_decls@.len(),
                key@ == name@,
                forall|j: int| 0 <= j < i ==> (#[trigger] self.generic_decls@[j]).0@ != name@,
            decreases self.generic_decls.len() - i,
        {
            if self.generic_decls[i].0 == key {
                return true;
            }
            i = i + 1;
        }
        false
    }

    /// Records a generic type declaration under its name.
    pub fn register_generic_type_decl(&mut self, name: String, decl: Decl)
        requires
            old(self).wf(),
            decl.node is Type,
        ensures
            final(self).wf(),
            final(self).generic_type_decls@ == old(self).generic_type_decls@.push((name, decl)),
            final(self).generic_decls == old(self).generic_decls,
            final(self).scopes == old(self).scopes,
            final(self).types == old(self).types,
            final(self).current_type == old(self).current_type,
            final(self).current_method == old(self).current_method,
            final(self).current_function_return == old(self).current_function_return,
            final(self).generic_instances == old(self).generic_instances,
            final(self).generic_type_instances == old(self).generic_type_instances,
            final(self).generic_method_instances == old(self).generic_method_instances,
            final(self).instantiation_budget == old(self).instantiation_budget,
    {
        self.generic_type_decls.push((name, decl));
    }

    /// A copy of the generic type declaration recorded under `name`.
    pub fn get_generic_type_decl(&self, name: &str) -> (r: Option<Decl>)
        requires
            self.wf(),
        ensures
            r is Some ==> r->0.node is Type,
            r is Some == exists|i: int| 0 <= i < self.generic_type_decls@.len() && (#[trigger] self.generic_type_decls@[i]).0@ == name@,
    {
        let key = String::from_str(name);
        let mut i: usize = 0;
        while i < self.generic_type_decls.len()
            invariant
                self.wf(),
                i <= self.generic_type_decls@.len(),
                key@ == name@,
                forall|j: int| 0 <= j < i ==> (#[trigger] self.generic_type_decls@[j]).0@ != name@,
            decreases self.generic_type_decls.len() - i,
        {
            if self.generic_type_decls[i].0 == key {
                return Some(crate::ast::copy_decl(&self.generic_type_decls[i].1));
            }
            i = i + 1;
        }
        None
    }

    /// The instance of a generic function recorded for `key`.
    pub fn get_instance(&self, key: &GenericInstanceKey) -> (r: Option<&TypedDecl>)
        ensures
            match r {
                Some(d) => entry_of(self.generic_instances@, key_view(*key)) == Some(*d),
                None => entry_of(self.generic_instances@, key_view(*key)) is None,
            },
    {
        let mut i: usize = 0;
        while i < self.generic_instances.len()
            invariant
                i <= self.generic_instances@.len(),
                forall|j: int| 0 <= j < i ==> key_view((#[trigger] self.generic_instances@[j]).0) != key_view(*key),
            decreases self.generic_instances.len() - i,
        {
            if key_matches(&self.generic_instances[i].0, key.0.as_str(), &key.1) {
                proof { lemma_first_key(self.generic_instances@, key_view(*key), i as int); }
                return Some(&self.generic_instances[i].1);
            }
            i = i + 1;
        }
        proof { lemma_no_key(self.generic_instances@, key_view(*key)); }
        None
    }

    /// Records the instance of a generic function made for `key`: a new key
    /// goes last; a key recorded before has its instance replaced in place.
    pub fn insert_instance(&mut self, key: GenericInstanceKey, typed_decl: TypedDecl)
        requires
            old(self).wf(),
            function_decl_valid(typed_decl, old(self).types.infos@.len()),
        ensures
            final(self).wf(),
            entry_of(final(self).generic_instances@, key_view(key)) == Some(typed_decl),
            forall|k: (Seq<char>, Seq<TypeId>)| k != key_view(key) ==> #[trigger] entry_of(final(self).generic_instances@, k) == entry_of(old(self).generic_instances@, k),
            final(self).in_progress_instances == old(self).in_progress_instances,
            entry_of(old(self).generic_instances@, key_view(key)) is None ==> final(self).generic_instances@.len()
                == old(self).generic_instances@.len() + 1,
            entry_of(old(self).generic_instances@, key_view(key)) is Some ==> final(self).generic_instances@.len()
                == old(self).generic_instances@.len(),
            final(self).scopes == old(self).scopes,
            final(self).types == old(self).types,
            final(self).current_type == old(self).current_type,
            final(self).current_method == old(self).current_method,
            final(self).current_function_return == old(self).current_function_return,
            final(self).generic_type_instances == old(self).generic_type_instances,
            final(self).generic_method_instances == old(self).generic_method_instances,
            final(self).instantiation_budget == old(self).instantiation_budget,
            entry_of(old(self).generic_instances@, key_view(key)) is None ==> final(self).generic_instances@ == old(self).generic_instances@.push((key, typed_decl)),
            final(self).generic_instances@ == record_entry(old(self).generic_instances@, key, typed_decl),
            forall|j: int|
                0 <= j < old(self).generic_instances@.len() && key_view((#[trigger] old(self).generic_instances@[j]).0) != key_view(key)
                    ==> final(self).generic_instances@[j] == old(self).generic_instances@[j],
            final(self).generic_decls == old(self).generic_decls,
            final(self).generic_type_decls == old(self).generic_type_decls,
            final(self).in_progress_types == old(self).in_progress_types,
            final(self).pending_generic_methods == old(self).pending_generic_methods,
            final(self).in_progress_methods == old(self).in_progress_methods,
    {
        let ghost kv = key_view(key);
        let ghost d = typed_decl;
        let mut i: usize = 0;
        while i < self.generic_instances.len()
            invariant
                self == old(self),
                self.wf(),
                function_decl_valid(typed_decl, self.types.infos@.len()),
                i <= self.generic_instances@.len(),
                kv == key_view(key),
                forall|j: int| 0 <= j < i ==> key_view((#[trigger] self.generic_instances@[j]).0) != kv,
            decreases self.generic_instances.len() - i,
        {
            if key_matches(&self.generic_instances[i].0, key.0.as_str(), &key.1) {
                proof {
                    lemma_first_key(old(self).generic_instances@, kv, i as int);
                    lemma_first_key_chosen(old(self).generic_instances@, kv, i as int);
                }
                self.generic_instances.set(i, (key, typed_decl));
                proof {
                    let e = self.generic_instances@;
                    assert(is_first_key(e, kv, i as int)) by {
                        assert forall|j: int| 0 <= j < i implies key_view((#[trigger] e[j]).0) != kv by {
                            assert(e[j] == old(self).generic_instances@[j]);
                        }
                    }
                    lemma_first_key(e, kv, i as int);
                    assert forall|j: int| 0 <= j < e.len() implies function_decl_valid(#[trigger] e[j].1, self.types.infos@.len()) by {
                        if j != i {
                            assert(e[j] == old(self).generic_instances@[j]);
                        }
                    }
                    assert forall|k: (Seq<char>, Seq<TypeId>)| k != kv implies #[trigger] entry_of(e, k) == entry_of(old(self).generic_instances@, k) by {
                        let o = old(self).generic_instances@;
                        assert forall|j: int| 0 <= j < o.len() && key_view((#[trigger] o[j]).0) != kv implies e[j] == o[j] by {}
                        assert forall|j: int| 0 <= j < o.len() && key_view((#[trigger] o[j]).0) == kv implies key_view(e[j].0) == kv by {}
                        lemma_other_key_kept(o, e, kv, k);
                    }
                }
                return;
            }
            i = i + 1;
        }
        proof { lemma_no_key(old(self).generic_instances@, kv); }
        self.generic_instances.push((key, typed_decl));
        proof {
            let e = self.generic_instances@;
            assert(is_first_key(e, kv, i as int)) by {
                assert forall|j: int| 0 <= j < i implies key_view((#[trigger] e[j]).0) != kv by {
                    assert(e[j] == old(self).generic_instances@[j]);
                }
            }
            lemma_first_key(e, kv, i as int);
            assert forall|j: int| 0 <= j < e.len() implies function_decl_valid(#[trigger] e[j].1, self.types.infos@.len()) by {
                if j != i {
                    assert(e[j] == old(self).generic_instances@[j]);
                }
            }
            assert forall|k: (Seq<char>, Seq<TypeId>)| k != kv implies #[trigger] entry_of(e, k) == entry_of(old(self).generic_instances@, k) by {
                let o = old(self).generic_instances@;
                assert forall|j: int| 0 <= j < o.len() && key_view((#[trigger] o[j]).0) != kv implies e[j] == o[j] by {}
                assert forall|j: int| 0 <= j < o.len() && key_view((#[trigger] o[j]).0) == kv implies key_view(e[j].0) == kv by {}
                lemma_other_key_kept(o, e, kv, k);
            }
        }
    }

    /// The instance of a generic method recorded for `key`.
    pub fn get_method_instance(&self, key: &MethodInstanceKey) -> (r: Option<&TypedDecl>)
        ensures
            match r {
                Some(d) => method_entry_of(self.generic_method_instances@, method_key_view(*key)) == Some(*d),
                None => method_entry_of(self.generic_method_instances@, method_key_view(*key)) is None,
            },
    {
        let mut i: usize = 0;
        while i < self.generic_method_instances.len()
            invariant
                i <= self.generic_method_instances@.len(),
                forall|j: int| 0 <= j < i ==> method_key_view((#[trigger] self.generic_method_instances@[j]).0) != method_key_view(*key),
            decreases self.generic_method_instances.len() - i,
        {
            if method_key_matches(&self.generic_method_instances[i].0, key.0, key.1.as_str(), &key.2) {
                proof { lemma_first_method_key(self.generic_method_instances@, method_key_view(*key), i as int); }
                return Some(&self.generic_method_instances[i].1);
            }
            i = i + 1;
        }
        proof { lemma_no_method_key(self.generic_method_instances@, method_key_view(*key)); }
        None
    }

    /// Records the instance of a generic method made for `key`: a new key
    /// goes last; a key recorded before has its instance replaced in place.
    pub fn insert_method_instance(&mut self, key: MethodInstanceKey, typed_decl: TypedDecl)
        requires
            old(self).wf(),
            function_decl_valid(typed_decl, old(self).types.infos@.len()),
        ensures
            final(self).wf(),
            method_entry_of(final(self).generic_method_instances@, method_key_view(key)) == Some(typed_decl),
            forall|k: (TypeId, Seq<char>, Seq<TypeId>)| k != method_key_view(key) ==> #[trigger] method_entry_of(final(self).generic_method_instances@, k) == method_entry_of(old(self).generic_method_instances@, k),
            method_entry_of(old(self).generic_method_instances@, method_key_view(key)) is None ==> final(self).generic_method_instances@.len()
                == old(self).generic_method_instances@.len() + 1,
            method_entry_of(old(self).generic_method_instances@, method_key_view(key)) is Some ==> final(self).generic_method_instances@.len()
                == old(self).generic_method_instances@.len(),
            final(self).scopes == old(self).scopes,
            final(self).types == old(self).types,
            final(self).current_type == old(self).current_type,
            final(self).current_method == old(self).current_method,
            final(self).current_function_return == old(self).current_function_return,
            final(self).generic_type_instances == old(self).generic_type_instances,
            final(self).generic_instances == old(self).generic_instances,
            final(self).instantiation_budget == old(self).instantiation_budget,
            method_entry_of(old(self).generic_method_instances@, method_key_view(key)) is None ==> final(self).generic_method_instances@
                == old(self).generic_method_instances@.push((key, typed_decl)),
            forall|j: int|
                0 <= j < old(self).generic_method_instances@.len() && method_key_view((#[trigger] old(self).generic_method_instances@[j]).0)
                    != method_key_view(key) ==> final(self).generic_method_instances@[j] == old(self).generic_method_instances@[j],
            final(self).generic_decls == old(self).generic_decls,
            final(self).in_progress_instances == old(self).in_progress_instances,
            final(self).generic_type_decls == old(self).generic_type_decls,
            final(self).in_progress_types == old(self).in_progress_types,
            final(self).pending_generic_methods == old(self).pending_generic_methods,
            final(self).in_progress_methods == old(self).in_progress_methods,
    {
        let ghost kv = method_key_view(key);
        let ghost d = typed_decl;
        let mut i: usize = 0;
        while i < self.generic_method_instances.len()
            invariant
                self == old(self),
                self.wf(),
                function_decl_valid(typed_decl, self.types.infos@.len()),
                i <= self.generic_method_instances@.len(),
                kv == method_key_view(key),
                forall|j: int| 0 <= j < i ==> method_key_view((#[trigger] self.generic_method_instances@[j]).0) != kv,
            decreases self.generic_method_instances.len() - i,
        {
            if method_key_matches(&self.generic_method_instances[i].0, key.0, key.1.as_str(), &key.2) {
                proof { lemma_first_method_key(old(self).generic_method_instances@, kv, i as int); }
                self.generic_method_instances.set(i, (key, typed_decl));
                proof {
                    let e = self.generic_method_instances@;
                    assert(is_first_method_key(e, kv, i as int)) by {
                        assert forall|j: int| 0 <= j < i implies method_key_view((#[trigger] e[j]).0) != kv by {
                            assert(e[j] == old(self).generic_method_instances@[j]);
                        }
                    }
                    lemma_first_method_key(e, kv, i as int);
                    assert forall|j: int| 0 <= j < e.len() implies function_decl_valid(#[trigger] e[j].1, self.types.infos@.len()) by {
                        if j != i {
                            assert(e[j] == old(self).generic_method_instances@[j]);
                        }
                    }
                    assert forall|k: (TypeId, Seq<char>, Seq<TypeId>)| k != kv implies #[trigger] method_entry_of(e, k) == method_entry_of(old(self).generic_method_instances@, k) by {
                        let o = old(self).generic_method_instances@;
                        assert forall|j: int| 0 <= j < o.len() && method_key_view((#[trigger] o[j]).0) != kv implies e[j] == o[j] by {}
                        assert forall|j: int| 0 <= j < o.len() && method_key_view((#[trigger] o[j]).0) == kv implies method_key_view(e[j].0) == kv by {}
                        lemma_other_method_key_kept(o, e, kv, k);
                    }
                }
                return;
            }
            i = i + 1;
        }
        proof { lemma_no_method_key(old(self).generic_method_instances@, kv); }
        self.generic_method_instances.push((key, typed_decl));
        proof {
            let e = self.generic_method_instances@;
            assert(is_first_method_key(e, kv, i as int)) by {
                assert forall|j: int| 0 <= j < i implies method_key_view((#[trigger] e[j]).0) != kv by {
                    assert(e[j] == old(self).generic_method_instances@[j]);
                }
            }
            lemma_first_method_key(e, kv, i as int);
            assert forall|j: int| 0 <= j < e.len() implies function_decl_valid(#[trigger] e[j].1, self.types.infos@.len()) by {
                if j != i {
                    assert(e[j] == old(self).generic_method_instances@[j]);
                }
            }
            assert forall|k: (TypeId, Seq<char>, Seq<TypeId>)| k != kv implies #[trigger] method_entry_of(e, k) == method_entry_of(old(self).generic_method_instances@, k) by {
                let o = old(self).generic_method_instances@;
                assert forall|j: int| 0 <= j < o.len() && method_key_view((#[trigger] o[j]).0) != kv implies e[j] == o[j] by {}
                assert forall|j: int| 0 <= j < o.len() && method_key_view((#[trigger] o[j]).0) == kv implies method_key_view(e[j].0) == kv by {}
                lemma_other_method_key_kept(o, e, kv, k);
            }
        }
    }

    /// The instance of a generic type recorded for `key`.
    pub fn get_type_instance(&self, key: &GenericInstanceKey) -> (r: Option<TypeId>)
        ensures
            match r {
                Some(id) => entry_of(self.generic_type_instances@, key_view(*key)) is Some
                    && entry_of(self.generic_type_instances@, key_view(*key))->0.type_id == id,
                None => entry_of(self.generic_type_instances@, key_view(*key)) is None,
            },
    {
        let mut i: usize = 0;
        while i < self.generic_type_instances.len()
            invariant
                i <= self.generic_type_instances@.len(),
                forall|j: int| 0 <= j < i ==> key_view((#[trigger] self.generic_type_instances@[j]).0) != key_view(*key),
            decreases self.generic_type_instances.len() - i,
        {
            if key_matches(&self.generic_type_instances[i].0, key.0.as_str(), &key.1) {
                proof { lemma_first_key(self.generic_type_instances@, key_view(*key), i as int); }
                return Some(self.generic_type_instances[i].1.type_id);
            }
            i = i + 1;
        }
        proof { lemma_no_key(self.generic_type_instances@, key_view(*key)); }
        None
    }

    /// Records the instance of a generic type made for `key`: a new key
    /// goes last; a key recorded before has its instance replaced in place.
    pub fn insert_type_instance(&mut self, key: GenericInstanceKey, type_id: TypeId, typed_decl: TypedDecl)
        requires
            old(self).wf(),
            type_id.0 < old(self).types.infos@.len(),
        ensures
            final(self).wf(),
            entry_of(final(self).generic_type_instances@, key_view(key)) == Some((TypeInstance { type_id, decl: typed_decl })),
            forall|k: (Seq<char>, Seq<TypeId>)| k != key_view(key) ==> #[trigger] entry_of(final(self).generic_type_instances@, k) == entry_of(old(self).generic_type_instances@, k),
            entry_of(old(self).generic_type_instances@, key_view(key)) is None ==> final(self).generic_type_instances@.len()
                == old(self).generic_type_instances@.len() + 1,
            entry_of(old(self).generic_type_instances@, key_view(key)) is Some ==> final(self).generic_type_instances@.len()
                == old(self).generic_type_instances@.len(),
            final(self).scopes == old(self).scopes,
            final(self).types == old(self).types,
            final(self).current_type == old(self).current_type,
            final(self).current_method == old(self).current_method,
            final(self).current_function_return == old(self).current_function_return,
            final(self).generic_instances == old(self).generic_instances,
            final(self).generic_method_instances == old(self).generic_method_instances,
            final(self).instantiation_budget == old(self).instantiation_budget,
            entry_of(old(self).generic_type_instances@, key_view(key)) is None ==> final(self).generic_type_instances@
                == old(self).generic_type_instances@.push((key, TypeInstance { type_id, decl: typed_decl })),
            final(self).generic_type_instances@ == record_entry(
                old(self).generic_type_instances@,
                key,
                TypeInstance { type_id, decl: typed_decl },
            ),
            forall|j: int|
                0 <= j < old(self).generic_type_instances@.len() && key_view((#[trigger] old(self).generic_type_instances@[j]).0) != key_view(key)
                    ==> final(self).generic_type_instances@[j] == old(self).generic_type_instances@[j],
            final(self).generic_decls == old(self).generic_decls,
            final(self).in_progress_instances == old(self).in_progress_instances,
            final(self).generic_type_decls == old(self).generic_type_decls,
            final(self).in_progress_types == old(self).in_progress_types,
            final(self).pending_generic_methods == old(self).pending_generic_methods,
            final(self).in_progress_methods == old(self).in_progress_methods,
    {
        let ghost kv = key_view(key);
        
        let mut i: usize = 0;
        while i < self.generic_type_instances.len()
            invariant
                self == old(self),
                self.wf(),
                type_id.0 < self.types.infos@.len(),
                i <= self.generic_type_instances@.len(),
                kv == key_view(key),
                forall|j: int| 0 <= j < i ==> key_view((#[trigger] self.generic_type_instances@[j]).0) != kv,
            decreases self.generic_type_instances.len() - i,
        {
            if key_matches(&self.generic_type_instances[i].0, key.0.as_str(), &key.1) {
                proof {
                    lemma_first_key(old(self).generic_type_instances@, kv, i as int);
                    lemma_first_key_chosen(old(self).generic_type_instances@, kv, i as int);
                }
                self.generic_type_instances.set(i, (key, TypeInstance { type_id, decl: typed_decl }));
                proof {
                    let e = self.generic_type_instances@;
                    assert(is_first_key(e, kv, i as int)) by {
                        assert forall|j: int| 0 <= j < i implies key_view((#[trigger] e[j]).0) != kv by {
                            assert(e[j] == old(self).generic_type_instances@[j]);
                        }
                    }
                    lemma_first_key(e, kv, i as int);
                    assert forall|j: int| 0 <= j < e.len() implies (#[trigger] e[j]).1.type_id.0 < self.types.infos@.len() by {
                        if j != i {
                            assert(e[j] == old(self).generic_type_instances@[j]);
                        }
                    }
                    assert forall|k: (Seq<char>, Seq<TypeId>)| k != kv implies #[trigger] entry_of(e, k) == entry_of(old(self).generic_type_instances@, k) by {
                        let o = old(self).generic_type_instances@;
                        assert forall|j: int| 0 <= j < o.len() && key_view((#[trigger] o[j]).0) != kv implies e[j] == o[j] by {}
                        assert forall|j: int| 0 <= j < o.len() && key_view((#[trigger] o[j]).0) == kv implies key_view(e[j].0) == kv by {}
                        lemma_other_key_kept(o, e, kv, k);
                    }
                }
                return;
            }
            i = i + 1;
        }
        proof { lemma_no_key(old(self).generic_type_instances@, kv); }
        self.generic_type_instances.push((key, TypeInstance { type_id, decl: typed_decl }));
        proof {
            let e = self.generic_type_instances@;
            assert(is_first_key(e, kv, i as int)) by {
                assert forall|j: int| 0 <= j < i implies key_view((#[trigger] e[j]).0) != kv by {
                    assert(e[j] == old(self).generic_type_instances@[j]);
                }
            }
            lemma_first_key(e, kv, i as int);
            assert forall|j: int| 0 <= j < e.len() implies (#[trigger] e[j]).1.type_id.0 < self.types.infos@.len() by {
                if j != i {
                    assert(e[j] == old(self).generic_type_instances@[j]);
                }
            }
            assert forall|k: (Seq<char>, Seq<TypeId>)| k != kv implies #[trigger] entry_of(e, k) == entry_of(old(self).generic_type_instances@, k) by {
                let o = old(self).generic_type_instances@;
                assert forall|j: int| 0 <= j < o.len() && key_view((#[trigger] o[j]).0) != kv implies e[j] == o[j] by {}
                assert forall|j: int| 0 <= j < o.len() && key_view((#[trigger] o[j]).0) == kv implies key_view(e[j].0) == kv by {}
                lemma_other_key_kept(o, e, kv, k);
            }
        }
    }

    /// Marks the instance for `key` as being made.
    pub fn mark_in_progress(&mut self, key: GenericInstanceKey)
        requires
            old(self).wf(),
        ensures
            final(self).wf(),
            keys_contain(final(self).in_progress_instances@, key_view(key)),
            forall|k: (Seq<char>, Seq<TypeId>)|
                keys_contain(old(self).in_progress_instances@, k) ==> keys_contain(final(self).in_progress_instances@, k),
            forall|k: (Seq<char>, Seq<TypeId>)|
                k != key_view(key) && keys_contain(final(self).in_progress_instances@, k) ==> keys_contain(old(self).in_progress_instances@, k),
            final(self).scopes == old(self).scopes,
            final(self).types == old(self).types,
            final(self).current_type == old(self).current_type,
            final(self).current_method == old(self).current_method,
            final(self).current_function_return == old(self).current_function_return,
            final(self).generic_instances == old(self).generic_instances,
            final(self).generic_type_instances == old(self).generic_type_instances,
            final(self).generic_method_instances == old(self).generic_method_instances,
            final(self).instantiation_budget == old(self).instantiation_budget,
            final(self).generic_decls == old(self).generic_decls,
    {
        let ghost kv = key_view(key);
        self.in_progress_instances.push(key);
        proof {
            let e = self.in_progress_instances@;
            assert(key_view(e[e.len() - 1]) == kv);
            assert forall|k: (Seq<char>, Seq<TypeId>)|
                keys_contain(old(self).in_progress_instances@, k) implies keys_contain(e, k) by {
                let i = choose|i: int| 0 <= i < old(self).in_progress_instances@.len() && key_view(#[trigger] old(self).in_progress_instances@[i]) == k;
                assert(e[i] == old(self).in_progress_instances@[i]);
            }
            assert forall|k: (Seq<char>, Seq<TypeId>)|
                k != kv && keys_contain(e, k) implies keys_contain(old(self).in_progress_instances@, k) by {
                let i = choose|i: int| 0 <= i < e.len() && key_view(#[trigger] e[i]) == k;
                assert(e[i] == old(self).in_progress_instances@[i]);
            }
        }
    }

    /// Removes the mark on `key`.
    pub fn unmark_in_progress(&mut self, key: &GenericInstanceKey)
        requires
            old(self).wf(),
        ensures
            final(self).wf(),
            !keys_contain(final(self).in_progress_instances@, key_view(*key)),
            forall|k: (Seq<char>, Seq<TypeId>)|
                k != key_view(*key) ==> (keys_contain(final(self).in_progress_instances@, k) == keys_contain(
                    old(self).in_progress_instances@,
                    k,
                )),
            final(self).scopes == old(self).scopes,
            final(self).types == old(self).types,
            final(self).current_type == old(self).current_type,
            final(self).current_method == old(self).current_method,
            final(self).current_function_return == old(self).current_function_return,
            final(self).generic_instances == old(self).generic_instances,
            final(self).generic_type_instances == old(self).generic_type_instances,
            final(self).generic_method_instances == old(self).generic_method_instances,
            final(self).instantiation_budget == old(self).instantiation_budget,
            final(self).generic_decls == old(self).generic_decls,
    {
        let ghost kv = key_view(*key);
        let ghost e0 = self.in_progress_instances@;
        let mut kept: Vec<GenericInstanceKey> = Vec::new();
        let mut i: usize = 0;
        while i < self.in_progress_instances.len()
            invariant
                self == old(self),
                e0 == self.in_progress_instances@,
                kv == key_view(*key),
                i <= e0.len(),
                !keys_contain(kept@, kv),
                forall|k: (Seq<char>, Seq<TypeId>)|
                    k != kv ==> (keys_contain(kept@, k) == exists|j: int| 0 <= j < i && key_view(#[trigger] e0[j]) == k),
            decreases e0.len() - i,
        {
            let ghost before = kept@;
            if !key_matches(&self.in_progress_instances[i], key.0.as_str(), &key.1) {
                let k = (self.in_progress_instances[i].0.clone(), self.in_progress_instances[i].1.clone());
                assert(k.1@ == self.in_progress_instances@[i as int].1@);
                kept.push(k);
                proof {
                    let a = kept@;
                    assert(key_view(a[a.len() - 1]) == key_view(e0[i as int]));
                    assert forall|k: (Seq<char>, Seq<TypeId>)|
                        k != kv implies (keys_contain(a, k) == exists|j: int| 0 <= j < i + 1 && key_view(#[trigger] e0[j]) == k) by {
                        if keys_contain(a, k) {
                            let j = choose|j: int| 0 <= j < a.len() && key_view(#[trigger] a[j]) == k;
                            if j < before.len() {
                                assert(a[j] == before[j]);
                                assert(keys_contain(before, k));
                            }
                        }
                        if exists|j: int| 0 <= j < i + 1 && key_view(#[trigger] e0[j]) == k {
                            let j = choose|j: int| 0 <= j < i + 1 && key_view(#[trigger] e0[j]) == k;
                            if j < i {
                                assert(keys_contain(before, k));
                                let m = choose|m: int| 0 <= m < before.len() && key_view(#[trigger] before[m]) == k;
                                assert(a[m] == before[m]);
                            } else {
                                assert(key_view(a[a.len() - 1]) == k);
                            }
                        }
                    }
                    assert(!keys_contain(a, kv)) by {
                        if keys_contain(a, kv) {
                            let j = choose|j: int| 0 <= j < a.len() && key_view(#[trigger] a[j]) == kv;
                            if j < before.len() {
                                assert(a[j] == before[j]);
                            }
                        }
                    }
                }
            } else {
                proof {
                    assert forall|k: (Seq<char>, Seq<TypeId>)|
                        k != kv implies (keys_contain(kept@, k) == exists|j: int| 0 <= j < i + 1 && key_view(#[trigger] e0[j]) == k) by {
                        if exists|j: int| 0 <= j < i + 1 && key_view(#[trigger] e0[j]) == k {
                            let j = choose|j: int| 0 <= j < i + 1 && key_view(#[trigger] e0[j]) == k;
                            assert(j < i);
                        }
                    }
                }
            }
            i = i + 1;
        }
        self.in_progress_instances = kept;
    }

    /// Whether the instance for `key` is being made.
    pub fn is_in_progress(&self, key: &GenericInstanceKey) -> (r: bool)
        ensures
            r == keys_contain(self.in_progress_instances@, key_view(*key)),
    {
        let mut i: usize = 0;
        while i < self.in_progress_instances.len()
            invariant
                i <= self.in_progress_instances@.len(),
                forall|j: int| 0 <= j < i ==> key_view(#[trigger] self.in_progress_instances@[j]) != key_view(*key),
            decreases self.in_progress_instances.len() - i,
        {
            if key_matches(&self.in_progress_instances[i], key.0.as_str(), &key.1) {
                return true;
            }
            i = i + 1;
        }
        false
    }

    /// Marks the type instance for `key` as being made.
    pub fn mark_type_in_progress(&mut self, key: GenericInstanceKey)
        requires
            old(self).wf(),
        ensures
            final(self).wf(),
            keys_contain(final(self).in_progress_types@, key_view(key)),
            forall|k: (Seq<char>, Seq<TypeId>)|
                keys_contain(old(self).in_progress_types@, k) ==> keys_contain(final(self).in_progress_types@, k),
            forall|k: (Seq<char>, Seq<TypeId>)|
                k != key_view(key) && keys_contain(final(self).in_progress_types@, k) ==> keys_contain(old(self).in_progress_types@, k),
            final(self).scopes == old(self).scopes,
            final(self).types == old(self).types,
            final(self).current_type == old(self).current_type,
            final(self).current_method == old(self).current_method,
            final(self).current_function_return == old(self).current_function_return,
            final(self).generic_instances == old(self).generic_instances,
            final(self).generic_type_instances == old(self).generic_type_instances,
            final(self).generic_method_instances == old(self).generic_method_instances,
            final(self).instantiation_budget == old(self).instantiation_budget,
            final(self).generic_decls == old(self).generic_decls,
    {
        let ghost kv = key_view(key);
        self.in_progress_types.push(key);
        proof {
            let e = self.in_progress_types@;
            assert(key_view(e[e.len() - 1]) == kv);
            assert forall|k: (Seq<char>, Seq<TypeId>)|
                keys_contain(old(self).in_progress_types@, k) implies keys_contain(e, k) by {
                let i = choose|i: int| 0 <= i < old(self).in_progress_types@.len() && key_view(#[trigger] old(self).in_progress_types@[i]) == k;
                assert(e[i] == old(self).in_progress_types@[i]);
            }
            assert forall|k: (Seq<char>, Seq<TypeId>)|
                k != kv && keys_contain(e, k) implies keys_contain(old(self).in_progress_types@, k) by {
                let i = choose|i: int| 0 <= i < e.len() && key_view(#[trigger] e[i]) == k;
                assert(e[i] == old(self).in_progress_types@[i]);
            }
        }
    }

    /// Removes the mark on `key`.
    pub fn unmark_type_in_progress(&mut self, key: &GenericInstanceKey)
        requires
            old(self).wf(),
        ensures
            final(self).wf(),
            !keys_contain(final(self).in_progress_types@, key_view(*key)),
            forall|k: (Seq<char>, Seq<TypeId>)|
                k != key_view(*key) ==> (keys_contain(final(self).in_progress_types@, k) == keys_contain(
                    old(self).in_progress_types@,
                    k,
                )),
            final(self).scopes == old(self).scopes,
            final(self).types == old(self).types,
            final(self).current_type == old(self).current_type,
            final(self).current_method == old(self).current_method,
            final(self).current_function_return == old(self).current_function_return,
            final(self).generic_instances == old(self).generic_instances,
            final(self).generic_type_instances == old(self).generic_type_instances,
            final(self).generic_method_instances == old(self).generic_method_instances,
            final(self).instantiation_budget == old(self).instantiation_budget,
            final(self).generic_decls == old(self).generic_decls,
    {
        let ghost kv = key_view(*key);
        let ghost e0 = self.in_progress_types@;
        let mut kept: Vec<GenericInstanceKey> = Vec::new();
        let mut i: usize = 0;
        while i < self.in_progress_types.len()
            invariant
                self == old(self),
                e0 == self.in_progress_types@,
                kv == key_view(*key),
                i <= e0.len(),
                !keys_contain(kept@, kv),
                forall|k: (Seq<char>, Seq<TypeId>)|
                    k != kv ==> (keys_contain(kept@, k) == exists|j: int| 0 <= j < i && key_view(#[trigger] e0[j]) == k),
            decreases e0.len() - i,
        {
            let ghost before = kept@;
            if !key_matches(&self.in_progress_types[i], key.0.as_str(), &key.1) {
                let k = (self.in_progress_types[i].0.clone(), self.in_progress_types[i].1.clone());
                assert(k.1@ == self.in_progress_types@[i as int].1@);
                kept.push(k);
                proof {
                    let a = kept@;
                    assert(key_view(a[a.len() - 1]) == key_view(e0[i as int]));
                    assert forall|k: (Seq<char>, Seq<TypeId>)|
                        k != kv implies (keys_contain(a, k) == exists|j: int| 0 <= j < i + 1 && key_view(#[trigger] e0[j]) == k) by {
                        if keys_contain(a, k) {
                            let j = choose|j: int| 0 <= j < a.len() && key_view(#[trigger] a[j]) == k;
                            if j < before.len() {
                                assert(a[j] == before[j]);
                                assert(keys_contain(before, k));
                            }
                        }
                        if exists|j: int| 0 <= j < i + 1 && key_view(#[trigger] e0[j]) == k {
                            let j = choose|j: int| 0 <= j < i + 1 && key_view(#[trigger] e0[j]) == k;
                            if j < i {
                                assert(keys_contain(before, k));
                                let m = choose|m: int| 0 <= m < before.len() && key_view(#[trigger] before[m]) == k;
                                assert(a[m] == before[m]);
                            } else {
                                assert(key_view(a[a.len() - 1]) == k);
                            }
                        }
                    }
                    assert(!keys_contain(a, kv)) by {
                        if keys_contain(a, kv) {
                            let j = choose|j: int| 0 <= j < a.len() && key_view(#[trigger] a[j]) == kv;
                            if j < before.len() {
                                assert(a[j] == before[j]);
                            }
                        }
                    }
                }
            } else {
                proof {
                    assert forall|k: (Seq<char>, Seq<TypeId>)|
                        k != kv implies (keys_contain(kept@, k) == exists|j: int| 0 <= j < i + 1 && key_view(#[trigger] e0[j]) == k) by {
                        if exists|j: int| 0 <= j < i + 1 && key_view(#[trigger] e0[j]) == k {
                            let j = choose|j: int| 0 <= j < i + 1 && key_view(#[trigger] e0[j]) == k;
                            assert(j < i);
                        }
                    }
                }
            }
            i = i + 1;
        }
        self.in_progress_types = kept;
    }

    /// Whether the type instance for `key` is being made.
    pub fn is_type_in_progress(&self, key: &GenericInstanceKey) -> (r: bool)
        ensures
            r == keys_contain(self.in_progress_types@, key_view(*key)),
    {
        let mut i: usize = 0;
        while i < self.in_progress_types.len()
            invariant
                i <= self.in_progress_types@.len(),
                forall|j: int| 0 <= j < i ==> key_view(#[trigger] self.in_progress_types@[j]) != key_view(*key),
            decreases self.in_progress_types.len() - i,
        {
            if key_matches(&self.in_progress_types[i], key.0.as_str(), &key.1) {
                return true;
            }
            i = i + 1;
        }
        false
    }

    /// Marks the method instance for `key` as being made.
    pub fn mark_method_in_progress(&mut self, key: MethodInstanceKey)
        requires
            old(self).wf(),
        ensures
            final(self).wf(),
            method_keys_contain(final(self).in_progress_methods@, method_key_view(key)),
            forall|k: (TypeId, Seq<char>, Seq<TypeId>)|
                method_keys_contain(old(self).in_progress_methods@, k) ==> method_keys_contain(final(self).in_progress_methods@, k),
            forall|k: (TypeId, Seq<char>, Seq<TypeId>)|
                k != method_key_view(key) && method_keys_contain(final(self).in_progress_methods@, k) ==> method_keys_contain(old(self).in_progress_methods@, k),
            final(self).scopes == old(self).scopes,
            final(self).types == old(self).types,
            final(self).current_type == old(self).current_type,
            final(self).current_method == old(self).current_method,
            final(self).current_function_return == old(self).current_function_return,
            final(self).generic_instances == old(self).generic_instances,
            final(self).generic_type_instances == old(self).generic_type_instances,
            final(self).generic_method_instances == old(self).generic_method_instances,
            final(self).instantiation_budget == old(self).instantiation_budget,
            final(self).generic_decls == old(self).generic_decls,
    {
        let ghost kv = method_key_view(key);
        self.in_progress_methods.push(key);
        proof {
            let e = self.in_progress_methods@;
            assert(method_key_view(e[e.len() - 1]) == kv);
            assert forall|k: (TypeId, Seq<char>, Seq<TypeId>)|
                method_keys_contain(old(self).in_progress_methods@, k) implies method_keys_contain(e, k) by {
                let i = choose|i: int| 0 <= i < old(self).in_progress_methods@.len() && method_key_view(#[trigger] old(self).in_progress_methods@[i]) == k;
                assert(e[i] == old(self).in_progress_methods@[i]);
            }
            assert forall|k: (TypeId, Seq<char>, Seq<TypeId>)|
                k != kv && method_keys_contain(e, k) implies method_keys_contain(old(self).in_progress_methods@, k) by {
                let i = choose|i: int| 0 <= i < e.len() && method_key_view(#[trigger] e[i]) == k;
                assert(e[i] == old(self).in_progress_methods@[i]);
            }
        }
    }

    /// Removes the mark on `key`.
    pub fn unmark_method_in_progress(&mut self, key: &MethodInstanceKey)
        requires
            old(self).wf(),
        ensures
            final(self).wf(),
            !method_keys_contain(final(self).in_progress_methods@, method_key_view(*key)),
            forall|k: (TypeId, Seq<char>, Seq<TypeId>)|
                k != method_key_view(*key) ==> (method_keys_contain(final(self).in_progress_methods@, k) == method_keys_contain(
                    old(self).in_progress_methods@,
                    k,
                )),
            final(self).scopes == old(self).scopes,
            final(self).types == old(self).types,
            final(self).current_type == old(self).current_type,
            final(self).current_method == old(self).current_method,
            final(self).current_function_return == old(self).current_function_return,
            final(self).generic_instances == old(self).generic_instances,
            final(self).generic_type_instances == old(self).generic_type_instances,
            final(self).generic_method_instances == old(self).generic_method_instances,
            final(self).instantiation_budget == old(self).instantiation_budget,
            final(self).generic_decls == old(self).generic_decls,
    {
        let ghost kv = method_key_view(*key);
        let ghost e0 = self.in_progress_methods@;
        let mut kept: Vec<MethodInstanceKey> = Vec::new();
        let mut i: usize = 0;
        while i < self.in_progress_methods.len()
            invariant
                self == old(self),
                e0 == self.in_progress_methods@,
                kv == method_key_view(*key),
                i <= e0.len(),
                !method_keys_contain(kept@, kv),
                forall|k: (TypeId, Seq<char>, Seq<TypeId>)|
                    k != kv ==> (method_keys_contain(kept@, k) == exists|j: int| 0 <= j < i && method_key_view(#[trigger] e0[j]) == k),
            decreases e0.len() - i,
        {
            let ghost before = kept@;
            if !method_key_matches(&self.in_progress_methods[i], key.0, key.1.as_str(), &key.2) {
                let k = (self.in_progress_methods[i].0, self.in_progress_methods[i].1.clone(), self.in_progress_methods[i].2.clone());
                assert(k.2@ == self.in_progress_methods@[i as int].2@);
                kept.push(k);
                proof {
                    let a = kept@;
                    assert(method_key_view(a[a.len() - 1]) == method_key_view(e0[i as int]));
                    assert forall|k: (TypeId, Seq<char>, Seq<TypeId>)|
                        k != kv implies (method_keys_contain(a, k) == exists|j: int| 0 <= j < i + 1 && method_key_view(#[trigger] e0[j]) == k) by {
                        if method_keys_contain(a, k) {
                            let j = choose|j: int| 0 <= j < a.len() && method_key_view(#[trigger] a[j]) == k;
                            if j < before.len() {
                                assert(a[j] == before[j]);
                                assert(method_keys_contain(before, k));
                            }
                        }
                        if exists|j: int| 0 <= j < i + 1 && method_key_view(#[trigger] e0[j]) == k {
                            let j = choose|j: int| 0 <= j < i + 1 && method_key_view(#[trigger] e0[j]) == k;
                            if j < i {
                                assert(method_keys_contain(before, k));
                                let m = choose|m: int| 0 <= m < before.len() && method_key_view(#[trigger] before[m]) == k;
                                assert(a[m] == before[m]);
                            } else {
                                assert(method_key_view(a[a.len() - 1]) == k);
                            }
                        }
                    }
                    assert(!method_keys_contain(a, kv)) by {
                        if method_keys_contain(a, kv) {
                            let j = choose|j: int| 0 <= j < a.len() && method_key_view(#[trigger] a[j]) == kv;
                            if j < before.len() {
                                assert(a[j] == before[j]);
                            }
                        }
                    }
                }
            } else {
                proof {
                    assert forall|k: (TypeId, Seq<char>, Seq<TypeId>)|
                        k != kv implies (method_keys_contain(kept@, k) == exists|j: int| 0 <= j < i + 1 && method_key_view(#[trigger] e0[j]) == k) by {
                        if exists|j: int| 0 <= j < i + 1 && method_key_view(#[trigger] e0[j]) == k {
                            let j = choose|j: int| 0 <= j < i + 1 && method_key_view(#[trigger] e0[j]) == k;
                            assert(j < i);
                        }
                    }
                }
            }
            i = i + 1;
        }
        self.in_progress_methods = kept;
    }

    /// Whether the method instance for `key` is being made.
    pub fn is_method_in_progress(&self, key: &MethodInstanceKey) -> (r: bool)
        ensures
            r == method_keys_contain(self.in_progress_methods@, method_key_view(*key)),
    {
        let mut i: usize = 0;
        while i < self.in_progress_methods.len()
            invariant
                i <= self.in_progress_methods@.len(),
                forall|j: int| 0 <= j < i ==> method_key_view(#[trigger] self.in_progress_methods@[j]) != method_key_view(*key),
            decreases self.in_progress_methods.len() - i,
        {
            if method_key_matches(&self.in_progress_methods[i], key.0, key.1.as_str(), &key.2) {
                return true;
            }
            i = i + 1;
        }
        false
    }

    /// Records a method with unannotated parameters of a type instance.
    pub fn register_pending_generic_method(&mut self, type_id: TypeId, method_name: String, feature: TypeFeatures)
        requires
            old(self).wf(),
            feature.node is Method,
        ensures
            final(self).wf(),
            final(self).pending_generic_methods@ == old(self).pending_generic_methods@.push((type_id, method_name, feature)),
            final(self).scopes == old(self).scopes,
            final(self).types == old(self).types,
            final(self).current_type == old(self).current_type,
            final(self).current_method == old(self).current_method,
            final(self).current_function_return == old(self).current_function_return,
            final(self).generic_instances == old(self).generic_instances,
            final(self).generic_type_instances == old(self).generic_type_instances,
            final(self).generic_method_instances == old(self).generic_method_instances,
            final(self).instantiation_budget == old(self).instantiation_budget,
            final(self).generic_decls == old(self).generic_decls,
    {
        self.pending_generic_methods.push((type_id, method_name, feature));
    }

    /// A copy of the pending generic method `method_name` of type `type_id`.
    pub fn get_pending_generic_method(&self, type_id: TypeId, method_name: &str) -> (r: Option<TypeFeatures>)
        requires
            self.wf(),
        ensures
            r is Some ==> r->0.node is Method,
            r is Some == exists|i: int|
                0 <= i < self.pending_generic_methods@.len() && (#[trigger] self.pending_generic_methods@[i]).0 == type_id
                    && self.pending_generic_methods@[i].1@ == method_name@,
            r is Some ==> exists|i: int|
                0 <= i < self.pending_generic_methods@.len() && (#[trigger] self.pending_generic_methods@[i]).0 == type_id
                    && self.pending_generic_methods@[i].1@ == method_name@ && r->0.node->Method_params@.len()
                    == self.pending_generic_methods@[i].2.node->Method_params@.len(),
            r is Some ==> forall|i: int|
                #[trigger] is_first_pending(self.pending_generic_methods@, type_id, method_name@, i) ==> r->0.node->Method_return_type
                    == self.pending_generic_methods@[i].2.node->Method_return_type && same_method_text(
                    r->0,
                    self.pending_generic_methods@[i].2,
                ),
    {
        let key = String::from_str(method_name);
        let mut i: usize = 0;
        while i < self.pending_generic_methods.len()
            invariant
                self.wf(),
                i <= self.pending_generic_methods@.len(),
                key@ == method_name@,
                forall|j: int|
                    0 <= j < i ==> !((#[trigger] self.pending_generic_methods@[j]).0 == type_id
                        && self.pending_generic_methods@[j].1@ == method_name@),
            decreases self.pending_generic_methods.len() - i,
        {
            if self.pending_generic_methods[i].0 == type_id && self.pending_generic_methods[i].1 == key {
                let f = crate::ast::copy_feature(&self.pending_generic_methods[i].2);
                proof {
                    assert(is_first_pending(self.pending_generic_methods@, type_id, method_name@, i as int));
                    assert forall|j: int| #[trigger] is_first_pending(self.pending_generic_methods@, type_id, method_name@, j) implies j == i by {
                        if j > i {
                            assert(self.pending_generic_methods@[i as int].0 == type_id);
                        }
                    }
                }
                return Some(f);
            }
            i = i + 1;
        }
        None
    }

    /// The name of the instance of method `method_name` of type `type_id` for
    /// the given argument types: `Type$method$T1$...`.
    pub fn mangle_method_instance_name(&self, type_id: TypeId, method_name: &str, concrete_types: &[TypeId]) -> (r: String)
        requires
            type_id.0 < self.types.infos@.len(),
            forall|i: int| 0 <= i < concrete_types@.len() ==> (#[trigger] concrete_types@[i]).0 < self.types.infos@.len(),
        ensures
            r@ == mangled_name(
                self.types.infos@,
                self.types.infos@[type_id.0 as int].name@ + "$"@ + method_name@,
                concrete_types@,
            ),
    {
        let mut base = self.types.get(type_id).name.clone();
        base.append("$");
        base.append(method_name);
        self.mangle_instance_name(base.as_str(), concrete_types)
    }

    /// The name of the instance of `base_name` for the given types.
    pub fn mangle_instance_name(&self, base_name: &str, concrete_types: &[TypeId]) -> (r: String)
        requires
            forall|i: int| 0 <= i < concrete_types@.len() ==> (#[trigger] concrete_types@[i]).0 < self.types.infos@.len(),
        ensures
            r@ == mangled_name(self.types.infos@, base_name@, concrete_types@),
    {
        let mut mangled = String::from_str(base_name);
        let mut i: usize = 0;
        while i < concrete_types.len()
            invariant
                i <= concrete_types@.len(),
                forall|k: int| 0 <= k < concrete_types@.len() ==> (#[trigger] concrete_types@[k]).0 < self.types.infos@.len(),
                mangled@ == mangled_name(self.types.infos@, base_name@, concrete_types@.take(i as int)),
            decreases concrete_types.len() - i,
        {
            let ghost pre = concrete_types@.take(i as int + 1);
            assert(pre.drop_last() =~= concrete_types@.take(i as int));
            assert(pre.last() == concrete_types@[i as int]);
            mangled.append("$");
            let info = self.types.get(concrete_types[i]);
            mangled.append(info.name.as_str());
            i = i + 1;
        }
        assert(concrete_types@.take(i as int) =~= concrete_types@);
        mangled
    }
}

/// Adding a symbol to the innermost scope leaves what other names resolve to.
proof fn lemma_lookup_push_other(before: Seq<Scope>, after: Seq<Scope>, sym: Symbol, n: Seq<char>)
    requires
        before.len() >= 1,
        after.len() == before.len(),
        after.drop_last() == before.drop_last(),
        after.last().symbols@ == before.last().symbols@.push(sym),
        sym.name@ != n,
    ensures
        lookup_in(after, n) == lookup_in(before, n),
{
    let sb = before.last().symbols@;
    let sa = after.last().symbols@;
    if has_named(sb, n) {
        let k = choose|i: int| 0 <= i < sb.len() && (#[trigger] sb[i]).name@ == n;
        lemma_has_first(sb, n, k);
        let f = first_named(sb, n);
        assert(is_first_named(sa, n, f)) by {
            assert forall|j: int| 0 <= j < f implies (#[trigger] sa[j]).name@ != n by {
                assert(sa[j] == sb[j]);
            }
            assert(sa[f] == sb[f]);
        }
        lemma_first_named(sa, n, f);
        assert(sa[k] == sb[k]);
        assert(has_named(sa, n));
    } else {
        assert(!has_named(sa, n)) by {
            if has_named(sa, n) {
                let k = choose|i: int| 0 <= i < sa.len() && (#[trigger] sa[i]).name@ == n;
                if k < sb.len() {
                    assert(sa[k] == sb[k]);
                }
            }
        }
    }
}

/// Changing the type of the first symbol `name` of the innermost scope that
/// declares it changes what `name` resolves to, and nothing else.
proof fn lemma_lookup_update(before: Seq<Scope>, after: Seq<Scope>, k: int, j: int, name: Seq<char>, ty: SymbolType)
    requires
        0 <= k < before.len(),
        after.len() == before.len(),
        forall|a: int| 0 <= a < before.len() && a != k ==> after[a] == before[a],
        forall|a: int| k < a < before.len() ==> !has_named(#[trigger] before[a].symbols@, name),
        is_first_named(before[k].symbols@, name, j),
        after[k].symbols@ == before[k].symbols@.update(j, Symbol { ty: ty, ..before[k].symbols@[j] }),
    ensures
        lookup_in(after, name) == Some(Symbol { ty: ty, ..lookup_in(before, name)->0 }),
        lookup_in(before, name) is Some,
    decreases before.len(),
{
    lemma_first_named(before[k].symbols@, name, j);
    let sa = after[k].symbols@;
    assert(is_first_named(sa, name, j)) by {
        assert forall|b: int| 0 <= b < j implies (#[trigger] sa[b]).name@ != name by {
            assert(sa[b] == before[k].symbols@[b]);
        }
    }
    lemma_first_named(sa, name, j);
    if k == before.len() - 1 {
    } else {
        assert(after.last() == before.last());
        assert(!has_named(before.last().symbols@, name));
        let b2 = before.drop_last();
        let a2 = after.drop_last();
        assert forall|a: int| 0 <= a < b2.len() && a != k implies a2[a] == b2[a] by {
            assert(a2[a] == after[a]);
        }
        assert forall|a: int| k < a < b2.len() implies !has_named(#[trigger] b2[a].symbols@, name) by {
            assert(b2[a] == before[a]);
        }
        lemma_lookup_update(b2, a2, k, j, name, ty);
    }
}

/// Changing the type of one symbol named `name` leaves what every other
/// name resolves to as it was.
proof fn lemma_lookup_update_other(before: Seq<Scope>, after: Seq<Scope>, k: int, j: int, name: Seq<char>, ty: SymbolType, n: Seq<char>)
    requires
        n != name,
        0 <= k < before.len(),
        after.len() == before.len(),
        forall|a: int| 0 <= a < before.len() && a != k ==> after[a] == before[a],
        0 <= j < before[k].symbols@.len(),
        before[k].symbols@[j].name@ == name,
        after[k].symbols@ == before[k].symbols@.update(j, Symbol { ty: ty, ..before[k].symbols@[j] }),
    ensures
        lookup_in(after, n) == lookup_in(before, n),
    decreases before.len(),
{
    let last = before.len() - 1;
    let sb = before.last().symbols@;
    let sa = after.last().symbols@;
    if last == k {
        assert forall|i: int| 0 <= i < sa.len() && i != j implies sa[i] == sb[i] by {}
        if has_named(sb, n) {
            let w = choose|i: int| 0 <= i < sb.len() && (#[trigger] sb[i]).name@ == n;
            lemma_has_first(sb, n, w);
            let f = first_named(sb, n);
            assert(f != j);
            assert(is_first_named(sa, n, f)) by {
                assert forall|b: int| 0 <= b < f implies (#[trigger] sa[b]).name@ != n by {
                    if b != j {
                        assert(sa[b] == sb[b]);
                    }
                }
            }
            lemma_first_named(sa, n, f);
            assert(has_named(sa, n));
        } else {
            assert(!has_named(sa, n)) by {
                if has_named(sa, n) {
                    let w = choose|i: int| 0 <= i < sa.len() && (#[trigger] sa[i]).name@ == n;
                    if w != j {
                        assert(sa[w] == sb[w]);
                    }
                }
            }
            assert(after.drop_last() =~= before.drop_last()) by {
                assert forall|a: int| 0 <= a < before.drop_last().len() implies after.drop_last()[a] == before.drop_last()[a] by {
                    assert(after[a] == before[a]);
                }
            }
        }
    } else {
        assert(after.last() == before.last());
        let b2 = before.drop_last();
        let a2 = after.drop_last();
        assert forall|a: int| 0 <= a < b2.len() && a != k implies a2[a] == b2[a] by {
            assert(a2[a] == after[a]);
        }
        lemma_lookup_update_other(b2, a2, k, j, name, ty, n);
    }
}

} // verus!
