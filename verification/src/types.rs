use vstd::prelude::*;
use crate::symbols::{opt_id_below, symbol_type_valid, lemma_symbol_type_valid_mono, Symbol, SymbolType};

verus! {

/// The index of a type in the type table.
#[derive(Debug, Clone, Copy, PartialEq, Eq, Hash, Structural)]
pub struct TypeId(pub usize);

/// The builtin types occupy the first four slots of every type table.
pub const OBJECT_ID: usize = 0;
pub const NUMBER_ID: usize = 1;
pub const STRING_ID: usize = 2;
pub const BOOLEAN_ID: usize = 3;

/// A constructor parameter: its name and, when annotated, its type.
#[derive(Debug, Clone)]
pub struct ConstructorParam {
    pub name: String,
    pub ty: Option<TypeId>,
}

impl ConstructorParam {
    /// A copy of this parameter.
    pub fn duplicate(&self) -> (r: ConstructorParam)
        ensures
            r.name@ == self.name@,
            r.ty == self.ty,
    {
        ConstructorParam { name: self.name.clone(), ty: self.ty }
    }
}

/// A class, or a protocol with the protocols it extends.
#[derive(Debug, Clone)]
pub enum TypeKind {
    Class,
    Protocol { parents: Vec<TypeId> },
}

/// Everything the analysis knows of one type.
#[derive(Debug)]
pub struct TypeInfo {
    pub kind: TypeKind,
    pub name: String,
    pub parent: Option<TypeId>,
    pub declared_constructor_params: Option<Vec<ConstructorParam>>,
    pub constructor_params: Vec<ConstructorParam>,
    pub attributes: Vec<Symbol>,
    pub methods: Vec<Symbol>,
    pub is_generic_template: bool,
}

impl TypeInfo {
    /// Whether this type is a protocol.
    pub fn is_protocol(&self) -> (r: bool)
        ensures
            r == (self.kind is Protocol),
    {
        matches!(&self.kind, TypeKind::Protocol { .. })
    }
}

/// The protocols a type directly extends (none for a class).
pub open spec fn protocol_parents(info: TypeInfo) -> Seq<TypeId> {
    match info.kind {
        TypeKind::Protocol { parents } => parents@,
        TypeKind::Class => Seq::empty(),
    }
}

pub open spec fn params_valid(ps: Seq<ConstructorParam>, n: nat) -> bool {
    forall|i: int| 0 <= i < ps.len() ==> opt_id_below(#[trigger] ps[i].ty, n)
}

pub open spec fn symbols_valid(ss: Seq<Symbol>, n: nat) -> bool {
    forall|i: int| 0 <= i < ss.len() ==> symbol_type_valid(#[trigger] ss[i].ty, n)
}

/// Every type an entry of the table mentions is one of the first `n` types.
pub open spec fn info_valid(info: TypeInfo, n: nat) -> bool {
    &&& opt_id_below(info.parent, n)
    &&& forall|i: int| 0 <= i < protocol_parents(info).len() ==> (#[trigger] protocol_parents(info)[i]).0 < n
    &&& params_valid(info.constructor_params@, n)
    &&& match info.declared_constructor_params {
        Some(ps) => params_valid(ps@, n),
        None => true,
    }
    &&& symbols_valid(info.attributes@, n)
    &&& symbols_valid(info.methods@, n)
}

pub proof fn lemma_info_valid_mono(info: TypeInfo, n: nat, m: nat)
    requires
        info_valid(info, n),
        n <= m,
    ensures
        info_valid(info, m),
{
    assert forall|i: int| 0 <= i < info.attributes@.len() implies symbol_type_valid(
        #[trigger] info.attributes@[i].ty,
        m,
    ) by {
        lemma_symbol_type_valid_mono(info.attributes@[i].ty, n, m);
    }
    assert forall|i: int| 0 <= i < info.methods@.len() implies symbol_type_valid(
        #[trigger] info.methods@[i].ty,
        m,
    ) by {
        lemma_symbol_type_valid_mono(info.methods@[i].ty, n, m);
    }
}

/// The first index of a symbol with the given name, if any.
pub open spec fn is_first_named(ss: Seq<Symbol>, name: Seq<char>, i: int) -> bool {
    &&& 0 <= i < ss.len()
    &&& ss[i].name@ == name
    &&& forall|j: int| 0 <= j < i ==> (#[trigger] ss[j]).name@ != name
}

pub open spec fn has_named(ss: Seq<Symbol>, name: Seq<char>) -> bool {
    exists|i: int| 0 <= i < ss.len() && (#[trigger] ss[i]).name@ == name
}

pub open spec fn first_named(ss: Seq<Symbol>, name: Seq<char>) -> int {
    choose|i: int| is_first_named(ss, name, i)
}

pub proof fn lemma_first_named(ss: Seq<Symbol>, name: Seq<char>, i: int)
    requires
        is_first_named(ss, name, i),
    ensures
        first_named(ss, name) == i,
{
    let k = first_named(ss, name);
    assert(is_first_named(ss, name, k));
    if k < i {
        assert(ss[k].name@ != name);
    }
    if i < k {
        assert(ss[i].name@ != name);
    }
}

/// Looks for a symbol by name; gives the first index that has it.
pub fn find_symbol(ss: &Vec<Symbol>, name: &String) -> (r: Option<usize>)
    ensures
        match r {
            Some(i) => is_first_named(ss@, name@, i as int),
            None => !has_named(ss@, name@),
        },
{
    let mut i: usize = 0;
    while i < ss.len()
        invariant
            i <= ss.len(),
            forall|j: int| 0 <= j < i ==> (#[trigger] ss@[j]).name@ != name@,
        decreases ss.len() - i,
    {
        if ss[i].name == *name {
            return Some(i);
        }
        i = i + 1;
    }
    None
}

/// The ancestors of `id` (itself first), following at most `fuel` parent links.
pub open spec fn chain_ids(t: Seq<TypeInfo>, id: TypeId, fuel: nat) -> Seq<TypeId>
    decreases fuel,
{
    if fuel == 0 || id.0 >= t.len() {
        Seq::empty()
    } else {
        seq![id] + match t[id.0 as int].parent {
            Some(p) => chain_ids(t, p, (fuel - 1) as nat),
            None => Seq::empty(),
        }
    }
}

/// The rest of a chain walk that is at `cur`.
pub open spec fn chain_from(t: Seq<TypeInfo>, cur: Option<TypeId>, fuel: nat) -> Seq<TypeId> {
    match cur {
        Some(c) => chain_ids(t, c, fuel),
        None => Seq::empty(),
    }
}

/// The first symbol with `name` along a chain of types (methods or attributes).
pub open spec fn first_in_chain(t: Seq<TypeInfo>, chain: Seq<TypeId>, name: Seq<char>, methods: bool) -> Option<
    Symbol,
>
    decreases chain.len(),
{
    if chain.len() == 0 {
        None
    } else {
        let ss = if methods {
            t[chain[0].0 as int].methods@
        } else {
            t[chain[0].0 as int].attributes@
        };
        if has_named(ss, name) {
            Some(ss[first_named(ss, name)])
        } else {
            first_in_chain(t, chain.drop_first(), name, methods)
        }
    }
}

/// The signature of the first method `name` along a chain whose symbol is a function.
pub open spec fn first_method_sig(t: Seq<TypeInfo>, chain: Seq<TypeId>, name: Seq<char>) -> Option<
    (Seq<TypeId>, TypeId),
>
    decreases chain.len(),
{
    if chain.len() == 0 {
        None
    } else {
        let ss = t[chain[0].0 as int].methods@;
        if has_named(ss, name) && ss[first_named(ss, name)].ty is Function {
            match ss[first_named(ss, name)].ty {
                SymbolType::Function { params, ret } => Some((params@, ret)),
                _ => None,
            }
        } else {
            first_method_sig(t, chain.drop_first(), name)
        }
    }
}

/// The type of the first attribute `name` along a chain whose symbol is a variable.
pub open spec fn first_attribute_type(t: Seq<TypeInfo>, chain: Seq<TypeId>, name: Seq<char>) -> Option<
    TypeId,
>
    decreases chain.len(),
{
    if chain.len() == 0 {
        None
    } else {
        let ss = t[chain[0].0 as int].attributes@;
        if has_named(ss, name) && ss[first_named(ss, name)].ty is Variable {
            match ss[first_named(ss, name)].ty {
                SymbolType::Variable(ty) => Some(ty),
                _ => None,
            }
        } else {
            first_attribute_type(t, chain.drop_first(), name)
        }
    }
}

/// The protocols reachable from `s` in at most `k` protocol-extension steps.
pub open spec fn reach_set(t: Seq<TypeInfo>, s: TypeId, k: nat) -> Set<TypeId>
    decreases k,
{
    if k == 0 {
        set![s]
    } else {
        let prev = reach_set(t, s, (k - 1) as nat);
        Set::new(
            |v: TypeId|
                prev.contains(v) || exists|u: int|
                    0 <= u < t.len() && prev.contains(TypeId(u as usize)) && protocol_parents(t[u]).contains(v),
        )
    }
}

/// Whether `v` can be reached from `s` in at most `k` protocol-extension steps.
pub open spec fn reach_within(t: Seq<TypeInfo>, s: TypeId, v: TypeId, k: nat) -> bool {
    reach_set(t, s, k).contains(v)
}

pub proof fn lemma_reach_step(t: Seq<TypeInfo>, s: TypeId, v: TypeId, k: nat)
    ensures
        reach_set(t, s, (k + 1) as nat).contains(v) == (reach_set(t, s, k).contains(v) || exists|u: int|
            0 <= u < t.len() && #[trigger] reach_set(t, s, k).contains(TypeId(u as usize))
                && protocol_parents(t[u]).contains(v)),
{
    let k1 = (k + 1) as nat;
    assert((k1 - 1) as nat == k);
    let prev = reach_set(t, s, k);
    let f = |x: TypeId|
        prev.contains(x) || exists|u: int|
            0 <= u < t.len() && prev.contains(TypeId(u as usize)) && protocol_parents(t[u]).contains(x);
    assert(reach_set(t, s, k1) == Set::new(f));
    assert(Set::new(f).contains(v) == f(v));
}

proof fn lemma_round_step(t: Seq<TypeInfo>, s: TypeId, k: nat, u: int, prev: Seq<bool>, next: Seq<bool>, pps: Seq<TypeId>)
    requires
        pps == protocol_parents(t[u]),
        0 <= u < t.len(),
        prev.len() == t.len(),
        next.len() == t.len(),
        reach_set(t, s, k).contains(TypeId(u as usize)),
        forall|w: int| 0 <= w < t.len() ==> prev[w] == (reach_set(t, s, k).contains(TypeId(w as usize)) || exists|u2: int|
            0 <= u2 < u && #[trigger] reach_set(t, s, k).contains(TypeId(u2 as usize))
                && protocol_parents(t[u2]).contains(TypeId(w as usize))),
        forall|w: int| 0 <= w < t.len() ==> next[w] == (prev[w] || pps.contains(TypeId(w as usize))),
    ensures
        forall|w: int| 0 <= w < t.len() ==> next[w] == (reach_set(t, s, k).contains(TypeId(w as usize)) || exists|u2: int|
            0 <= u2 < u + 1 && #[trigger] reach_set(t, s, k).contains(TypeId(u2 as usize))
                && protocol_parents(t[u2]).contains(TypeId(w as usize))),
{
    assert forall|w: int| 0 <= w < t.len() implies next[w] == (reach_set(t, s, k).contains(TypeId(w as usize)) || exists|u2: int|
        0 <= u2 < u + 1 && #[trigger] reach_set(t, s, k).contains(TypeId(u2 as usize))
            && protocol_parents(t[u2]).contains(TypeId(w as usize))) by {
        let x = TypeId(w as usize);
        let c = protocol_parents(t[u]).contains(x);
        let old_ex = exists|u2: int| 0 <= u2 < u && #[trigger] reach_set(t, s, k).contains(TypeId(u2 as usize))
            && protocol_parents(t[u2]).contains(x);
        let new_ex = exists|u2: int| 0 <= u2 < u + 1 && #[trigger] reach_set(t, s, k).contains(TypeId(u2 as usize))
            && protocol_parents(t[u2]).contains(x);
        assert(next[w] == (prev[w] || c));
        assert(prev[w] == (reach_set(t, s, k).contains(x) || old_ex));
        if c {
            assert(new_ex);
        }
        if new_ex {
            let u2 = choose|u2: int| 0 <= u2 < u + 1 && #[trigger] reach_set(t, s, k).contains(TypeId(u2 as usize))
                && protocol_parents(t[u2]).contains(x);
            if u2 < u {
                assert(old_ex);
            } else {
                assert(c);
            }
        }
        if old_ex {
            let u2 = choose|u2: int| 0 <= u2 < u && #[trigger] reach_set(t, s, k).contains(TypeId(u2 as usize))
                && protocol_parents(t[u2]).contains(x);
            assert(new_ex);
        }
    }
}

/// The builtin types (`Object`, `Number`, `String`, `Boolean`).
pub open spec fn is_basic(id: TypeId) -> bool {
    id.0 <= 3
}

/// Subtyping, with `fuel` bounding how deeply method signatures are compared
/// when a class is checked against a protocol:
/// - every type is a subtype of itself and of `Object`, the root of the
///   hierarchy;
/// - a protocol is a subtype of the protocols it extends, directly or not;
/// - a class other than a builtin is a subtype of a protocol when, for every
///   method the protocol asks for, some method of the class or of one of its
///   ancestors has that name, the same number of parameters, a return type
///   that is a subtype of the asked one and parameter types that the asked
///   ones are subtypes of;
/// - otherwise, a type is a subtype of its ancestors.
pub open spec fn subtype(t: Seq<TypeInfo>, l: TypeId, r: TypeId, fuel: nat) -> bool
    decreases fuel, 3nat, 0nat,
{
    if l == r || r.0 == 0 {
        true
    } else if !is_basic(l) && t[r.0 as int].kind is Protocol {
        if t[l.0 as int].kind is Protocol {
            reach_within(t, l, r, t.len())
        } else {
            all_satisfied(t, l, t[r.0 as int].methods@, fuel)
        }
    } else {
        chain_ids(t, l, t.len()).contains(r)
    }
}

/// Each protocol method of `ms` is satisfied along the ancestors of `l`.
pub open spec fn all_satisfied(t: Seq<TypeInfo>, l: TypeId, ms: Seq<Symbol>, fuel: nat) -> bool
    decreases fuel, 2nat, ms.len(),
{
    ms.len() == 0 || (any_in_chain(t, chain_ids(t, l, t.len()), ms[0], fuel) && all_satisfied(
        t,
        l,
        ms.drop_first(),
        fuel,
    ))
}

/// Some method of some type of `chain` can stand for the protocol method `pm`.
pub open spec fn any_in_chain(t: Seq<TypeInfo>, chain: Seq<TypeId>, pm: Symbol, fuel: nat) -> bool
    decreases fuel, 1nat, chain.len(),
{
    chain.len() > 0 && (any_compatible(t, t[chain[0].0 as int].methods@, pm, fuel) || any_in_chain(
        t,
        chain.drop_first(),
        pm,
        fuel,
    ))
}

/// Some method of `ms` can stand for the protocol method `pm`.
pub open spec fn any_compatible(t: Seq<TypeInfo>, ms: Seq<Symbol>, pm: Symbol, fuel: nat) -> bool
    decreases fuel, 0nat, ms.len(),
{
    ms.len() > 0 && (compatible(t, ms[0], pm, fuel) || any_compatible(t, ms.drop_first(), pm, fuel))
}

/// A type's method `tm` can stand for the protocol method `pm`.
pub open spec fn compatible(t: Seq<TypeInfo>, tm: Symbol, pm: Symbol, fuel: nat) -> bool
    decreases fuel, 0nat, 0nat,
{
    if fuel == 0 {
        false
    } else {
        tm.name@ == pm.name@ && match (tm.ty, pm.ty) {
            (
                SymbolType::Function { params: p_type, ret: r_type },
                SymbolType::Function { params: p_protocol, ret: r_protocol },
            ) => {
                &&& subtype(t, r_type, r_protocol, (fuel - 1) as nat)
                &&& p_protocol@.len() == p_type@.len()
                &&& all_params(t, p_protocol@, p_type@, (fuel - 1) as nat)
            },
            _ => false,
        }
    }
}

/// Each `a[i]` is a subtype of `b[i]`.
pub open spec fn all_params(t: Seq<TypeInfo>, a: Seq<TypeId>, b: Seq<TypeId>, fuel: nat) -> bool
    decreases fuel, 4nat, a.len(),
{
    a.len() == 0 || (subtype(t, a[0], b[0], fuel) && all_params(t, a.drop_first(), b.drop_first(), fuel))
}

/// The type two types join to: the first ancestor of `b` that is also an
/// ancestor of `a`, else `Object`.
pub open spec fn join_of(t: Seq<TypeInfo>, a: TypeId, b: TypeId) -> TypeId {
    match lca_in(chain_ids(t, a, t.len()), chain_ids(t, b, t.len())) {
        Some(x) => x,
        None => TypeId(OBJECT_ID),
    }
}

/// The first ancestor of `b` (itself included) that is also an ancestor of `a`.
pub open spec fn lca_in(ancestors_a: Seq<TypeId>, chain_b: Seq<TypeId>) -> Option<TypeId>
    decreases chain_b.len(),
{
    if chain_b.len() == 0 {
        None
    } else if ancestors_a.contains(chain_b[0]) {
        Some(chain_b[0])
    } else {
        lca_in(ancestors_a, chain_b.drop_first())
    }
}

/// Every type on a chain is in the table.
pub proof fn lemma_chain_valid(t: Seq<TypeInfo>, id: TypeId, fuel: nat)
    ensures
        forall|k: int| 0 <= k < chain_ids(t, id, fuel).len() ==> (#[trigger] chain_ids(t, id, fuel)[k]).0 < t.len(),
    decreases fuel,
{
    if fuel == 0 || id.0 >= t.len() {
    } else {
        match t[id.0 as int].parent {
            Some(p) => {
                lemma_chain_valid(t, p, (fuel - 1) as nat);
                let c = chain_ids(t, id, fuel);
                assert forall|k: int| 0 <= k < c.len() implies (#[trigger] c[k]).0 < t.len() by {
                    if k > 0 {
                        assert(c[k] == chain_ids(t, p, (fuel - 1) as nat)[k - 1]);
                    }
                }
            },
            None => {},
        }
    }
}

/// Whether a list of type ids holds `id`.
pub fn contains_id(v: &Vec<TypeId>, id: TypeId) -> (b: bool)
    ensures
        b == v@.contains(id),
{
    let mut i: usize = 0;
    while i < v.len()
        invariant
            i <= v@.len(),
            forall|j: int| 0 <= j < i ==> v@[j] != id,
        decreases v.len() - i,
    {
        if v[i] == id {
            return true;
        }
        i = i + 1;
    }
    false
}

/// The first four entries are the builtin types.
#[verifier::opaque]
pub open spec fn builtin_names(t: Seq<TypeInfo>) -> bool {
    &&& t.len() >= 4
    &&& t[0].name@ == "Object"@
    &&& t[1].name@ == "Number"@
    &&& t[2].name@ == "String"@
    &&& t[3].name@ == "Boolean"@
}

/// All types known to the analysis, indexed by `TypeId`.
pub struct TypeTable {
    pub infos: Vec<TypeInfo>,
}

/// A fresh class entry.
pub open spec fn fresh_class(info: TypeInfo, name: Seq<char>, parent: Option<TypeId>) -> bool {
    &&& info.kind is Class
    &&& info.name@ == name
    &&& info.parent == parent
    &&& info.declared_constructor_params is None
    &&& info.constructor_params@.len() == 0
    &&& info.attributes@.len() == 0
    &&& info.methods@.len() == 0
    &&& !info.is_generic_template
}

fn new_info(kind: TypeKind, name: String, parent: Option<TypeId>) -> (r: TypeInfo)
    ensures
        r.kind == kind,
        r.name == name,
        r.parent == parent,
        r.declared_constructor_params is None,
        r.constructor_params@.len() == 0,
        r.attributes@.len() == 0,
        r.methods@.len() == 0,
        !r.is_generic_template,
{
    TypeInfo {
        kind,
        name,
        parent,
        declared_constructor_params: None,
        constructor_params: Vec::new(),
        attributes: Vec::new(),
        methods: Vec::new(),
        is_generic_template: false,
    }
}

impl TypeTable {
    pub open spec fn n(&self) -> nat {
        self.infos@.len()
    }

    /// The table holds the builtins and every type it mentions is in it.
    pub open spec fn wf(&self) -> bool {
        &&& self.infos@.len() >= 4
        &&& builtin_names(self.infos@)
        &&& forall|i: int| 0 <= i < self.infos@.len() ==> info_valid(#[trigger] self.infos@[i], self.infos@.len())
    }

    /// The last index whose name is `name` (a later entry shadows an earlier one).
    pub open spec fn is_resolved(&self, name: Seq<char>, i: int) -> bool {
        &&& 0 <= i < self.infos@.len()
        &&& self.infos@[i].name@ == name
        &&& forall|j: int| i < j < self.infos@.len() ==> (#[trigger] self.infos@[j]).name@ != name
    }

    pub open spec fn spec_resolve(&self, name: Seq<char>) -> Option<TypeId> {
        if exists|i: int| 0 <= i < self.infos@.len() && (#[trigger] self.infos@[i]).name@ == name {
            Some(TypeId((choose|i: int| self.is_resolved(name, i)) as usize))
        } else {
            None
        }
    }

    /// The builtin types can always be found by name.
    pub proof fn lemma_builtins_resolve(&self)
        requires
            self.wf(),
        ensures
            self.spec_resolve("Object"@) is Some,
            self.spec_resolve("Number"@) is Some,
            self.spec_resolve("String"@) is Some,
            self.spec_resolve("Boolean"@) is Some,
    {
        reveal(builtin_names);
        assert(self.infos@[0].name@ == "Object"@);
        assert(self.infos@[1].name@ == "Number"@);
        assert(self.infos@[2].name@ == "String"@);
        assert(self.infos@[3].name@ == "Boolean"@);
    }

    /// The table with the four builtin types: `Object` (the root), and
    /// `Number`, `String` and `Boolean`, whose parent is `Object`.
    pub fn new() -> (t: TypeTable)
        ensures
            t.wf(),
            t.infos@.len() == 4,
            fresh_class(t.infos@[0], "Object"@, None),
            fresh_class(t.infos@[1], "Number"@, Some(TypeId(OBJECT_ID))),
            fresh_class(t.infos@[2], "String"@, Some(TypeId(OBJECT_ID))),
            fresh_class(t.infos@[3], "Boolean"@, Some(TypeId(OBJECT_ID))),
    {
        let mut infos: Vec<TypeInfo> = Vec::new();
        infos.push(new_info(TypeKind::Class, String::from_str("Object"), None));
        infos.push(new_info(TypeKind::Class, String::from_str("Number"), Some(TypeId(0))));
        infos.push(new_info(TypeKind::Class, String::from_str("String"), Some(TypeId(0))));
        infos.push(new_info(TypeKind::Class, String::from_str("Boolean"), Some(TypeId(0))));
        let t = TypeTable { infos };
        proof { reveal(builtin_names); }
        assert forall|i: int| 0 <= i < t.infos@.len() implies info_valid(#[trigger] t.infos@[i], t.infos@.len()) by {}
        t
    }

    /// The type with this name; when several entries share it, the latest.
    pub fn resolve(&self, name: &str) -> (r: Option<TypeId>)
        ensures
            r == self.spec_resolve(name@),
            match r {
                Some(id) => self.is_resolved(name@, id.0 as int),
                None => forall|j: int| 0 <= j < self.infos@.len() ==> (#[trigger] self.infos@[j]).name@ != name@,
            },
    {
        let key = String::from_str(name);
        let mut i: usize = self.infos.len();
        while i > 0
            invariant
                i <= self.infos@.len(),
                key@ == name@,
                forall|j: int| i <= j < self.infos@.len() ==> (#[trigger] self.infos@[j]).name@ != name@,
            decreases i,
        {
            i = i - 1;
            if self.infos[i].name == key {
                proof {
                    let k = choose|k: int| self.is_resolved(name@, k);
                    assert(self.is_resolved(name@, i as int));
                    if k < i {
                        assert(self.infos@[i as int].name@ != name@);
                    }
                    if k > i {
                        assert(self.infos@[k].name@ != name@);
                    }
                }
                return Some(TypeId(i));
            }
        }
        None
    }

    /// The entry of a type.
    pub fn get(&self, id: TypeId) -> (r: &TypeInfo)
        requires
            id.0 < self.infos@.len(),
        ensures
            *r == self.infos@[id.0 as int],
    {
        &self.infos[id.0]
    }

    /// Registers a new class; refused (`None`, table unchanged) when the name is taken.
    pub fn insert(&mut self, name: String, parent: Option<TypeId>) -> (r: Option<TypeId>)
        requires
            old(self).wf(),
            opt_id_below(parent, old(self).infos@.len()),
        ensures
            final(self).wf(),
            match r {
                None => old(self).spec_resolve(name@) is Some && final(self).infos@ == old(self).infos@,
                Some(id) => {
                    &&& old(self).spec_resolve(name@) is None
                    &&& id.0 == old(self).infos@.len()
                    &&& final(self).infos@.len() == old(self).infos@.len() + 1
                    &&& final(self).infos@.subrange(0, id.0 as int) == old(self).infos@
                    &&& fresh_class(final(self).infos@[id.0 as int], name@, parent)
                },
            },
    {
        if self.resolve(name.as_str()).is_some() {
            return None;
        }
        Some(self.insert_instantiation(name, parent))
    }

    /// Registers the class that instantiates a generic type under its mangled name.
    pub fn insert_instantiation(&mut self, mangled_name: String, parent: Option<TypeId>) -> (id: TypeId)
        requires
            old(self).wf(),
            opt_id_below(parent, old(self).infos@.len()),
        ensures
            final(self).wf(),
            id.0 == old(self).infos@.len(),
            final(self).infos@.len() == old(self).infos@.len() + 1,
            final(self).infos@.subrange(0, id.0 as int) == old(self).infos@,
            fresh_class(final(self).infos@[id.0 as int], mangled_name@, parent),
    {
        let id = TypeId(self.infos.len());
        self.push_info(new_info(TypeKind::Class, mangled_name, parent));
        id
    }

    /// Registers a protocol with no parents and no methods yet; refused when the name is taken.
    pub fn insert_protocol_placeholder(&mut self, name: String) -> (r: Option<TypeId>)
        requires
            old(self).wf(),
        ensures
            final(self).wf(),
            match r {
                None => old(self).spec_resolve(name@) is Some && final(self).infos@ == old(self).infos@,
                Some(id) => {
                    &&& old(self).spec_resolve(name@) is None
                    &&& id.0 == old(self).infos@.len()
                    &&& final(self).infos@.len() == old(self).infos@.len() + 1
                    &&& final(self).infos@.subrange(0, id.0 as int) == old(self).infos@
                    &&& final(self).infos@[id.0 as int].name@ == name@
                    &&& protocol_parents(final(self).infos@[id.0 as int]).len() == 0
                    &&& final(self).infos@[id.0 as int].kind is Protocol
                    &&& final(self).infos@[id.0 as int].parent is None
                    &&& final(self).infos@[id.0 as int].methods@.len() == 0
                },
            },
    {
        if self.resolve(name.as_str()).is_some() {
            return None;
        }
        let id = TypeId(self.infos.len());
        self.push_info(new_info(TypeKind::Protocol { parents: Vec::new() }, name, None));
        Some(id)
    }

    /// Changes the parent of a type (nothing happens for an unknown id).
    pub fn set_parent(&mut self, type_id: TypeId, parent_id: Option<TypeId>)
        requires
            old(self).wf(),
            opt_id_below(parent_id, old(self).infos@.len()),
        ensures
            final(self).wf(),
            final(self).infos@.len() == old(self).infos@.len(),
            forall|j: int| 0 <= j < old(self).infos@.len() && j != type_id.0 ==> final(self).infos@[j] == old(self).infos@[j],
            type_id.0 < old(self).infos@.len() ==> final(self).infos@[type_id.0 as int] == (TypeInfo { parent: parent_id, ..old(self).infos@[type_id.0 as int] }),
    {
        if type_id.0 < self.infos.len() {
            proof { assert(info_valid(self.infos@[type_id.0 as int], self.infos@.len())); }
            self.infos[type_id.0].parent = parent_id;
            proof {
                let k = type_id.0 as int;
                let a = old(self).infos@[k];
                let b = self.infos@[k];
                assert(b.kind == a.kind);
                assert(b.attributes == a.attributes);
                assert(b.methods == a.methods);
                assert(b.constructor_params == a.constructor_params);
                assert(b.declared_constructor_params == a.declared_constructor_params);
                assert(protocol_parents(b) == protocol_parents(a));
                assert(info_valid(b, self.infos@.len()));
                self.lemma_wf_after_update(*old(self), type_id.0 as int);
            }
        }
    }

    /// Adds an attribute to a type; refused (`false`, table unchanged) when
    /// the type itself already has an attribute of that name.
    pub fn insert_attribute(&mut self, id: TypeId, attr: Symbol) -> (ok: bool)
        requires
            old(self).wf(),
            id.0 < old(self).infos@.len(),
            symbol_type_valid(attr.ty, old(self).infos@.len()),
        ensures
            final(self).wf(),
            ok == !has_named(old(self).infos@[id.0 as int].attributes@, attr.name@),
            !ok ==> final(self).infos@ == old(self).infos@,
            ok ==> final(self).infos@ == old(self).infos@.update(
                id.0 as int,
                TypeInfo { attributes: final(self).infos@[id.0 as int].attributes, ..old(self).infos@[id.0 as int] },
            ),
            ok ==> final(self).infos@[id.0 as int].attributes@ == old(self).infos@[id.0 as int].attributes@.push(attr),
    {
        if find_symbol(&self.infos[id.0].attributes, &attr.name).is_some() {
            return false;
        }
        proof { assert(info_valid(self.infos@[id.0 as int], self.infos@.len())); }
        self.infos[id.0].attributes.push(attr);
        proof {
            let k = id.0 as int;
            assert(self.infos@ =~= old(self).infos@.update(k, TypeInfo { attributes: self.infos@[k].attributes, ..old(self).infos@[k] }));
            assert(protocol_parents(self.infos@[k]) == protocol_parents(old(self).infos@[k]));
            assert(info_valid(self.infos@[k], self.infos@.len()));
            self.lemma_wf_after_update(*old(self), k);
        }
        true
    }

    /// Adds or replaces a method of a type. Gives `true` when the type had no
    /// method of that name before.
    pub fn insert_method(&mut self, id: TypeId, method: Symbol) -> (fresh: bool)
        requires
            old(self).wf(),
            id.0 < old(self).infos@.len(),
            symbol_type_valid(method.ty, old(self).infos@.len()),
        ensures
            final(self).wf(),
            fresh == !has_named(old(self).infos@[id.0 as int].methods@, method.name@),
            final(self).infos@ == old(self).infos@.update(
                id.0 as int,
                TypeInfo { methods: final(self).infos@[id.0 as int].methods, ..old(self).infos@[id.0 as int] },
            ),
            fresh ==> final(self).infos@[id.0 as int].methods@ == old(self).infos@[id.0 as int].methods@.push(method),
            !fresh ==> final(self).infos@[id.0 as int].methods@ == old(self).infos@[id.0 as int].methods@.update(
                first_named(old(self).infos@[id.0 as int].methods@, method.name@),
                method,
            ),
    {
        proof { assert(info_valid(self.infos@[id.0 as int], self.infos@.len())); }
        let found = find_symbol(&self.infos[id.0].methods, &method.name);
        match found {
            Some(j) => {
                proof { lemma_first_named(self.infos@[id.0 as int].methods@, method.name@, j as int); }
                self.infos[id.0].methods.set(j, method);
            },
            None => {
                self.infos[id.0].methods.push(method);
            },
        }
        proof {
            let k = id.0 as int;
            assert(self.infos@ =~= old(self).infos@.update(k, TypeInfo { methods: self.infos@[k].methods, ..old(self).infos@[k] }));
            assert(protocol_parents(self.infos@[k]) == protocol_parents(old(self).infos@[k]));
            assert(symbols_valid(self.infos@[k].methods@, self.infos@.len()));
            assert(info_valid(self.infos@[k], self.infos@.len()));
            self.lemma_wf_after_update(*old(self), k);
        }
        found.is_none()
    }

    /// Replaces all methods of a type.
    pub fn set_methods(&mut self, id: TypeId, methods: Vec<Symbol>)
        requires
            old(self).wf(),
            id.0 < old(self).infos@.len(),
            symbols_valid(methods@, old(self).infos@.len()),
        ensures
            final(self).wf(),
            final(self).infos@ == old(self).infos@.update(
                id.0 as int,
                TypeInfo { methods: methods, ..old(self).infos@[id.0 as int] },
            ),
    {
        proof { assert(info_valid(self.infos@[id.0 as int], self.infos@.len())); }
        self.infos[id.0].methods = methods;
        proof {
            let k = id.0 as int;
            assert(self.infos@ =~= old(self).infos@.update(k, TypeInfo { methods: methods, ..old(self).infos@[k] }));
            assert(protocol_parents(self.infos@[k]) == protocol_parents(old(self).infos@[k]));
            assert(info_valid(self.infos@[k], self.infos@.len()));
            self.lemma_wf_after_update(*old(self), k);
        }
    }

    /// Sets the protocols a protocol extends (nothing happens for a class).
    pub fn set_protocol_parents(&mut self, id: TypeId, parents: Vec<TypeId>)
        requires
            old(self).wf(),
            id.0 < old(self).infos@.len(),
            forall|i: int| 0 <= i < parents@.len() ==> (#[trigger] parents@[i]).0 < old(self).infos@.len(),
        ensures
            final(self).wf(),
            old(self).infos@[id.0 as int].kind is Class ==> final(self).infos@ == old(self).infos@,
            old(self).infos@[id.0 as int].kind is Protocol ==> final(self).infos@ == old(self).infos@.update(
                id.0 as int,
                TypeInfo { kind: TypeKind::Protocol { parents: parents }, ..old(self).infos@[id.0 as int] },
            ),
    {
        if !self.infos[id.0].is_protocol() {
            return;
        }
        proof { assert(info_valid(self.infos@[id.0 as int], self.infos@.len())); }
        self.infos[id.0].kind = TypeKind::Protocol { parents };
        proof {
            let k = id.0 as int;
            assert(self.infos@ =~= old(self).infos@.update(k, TypeInfo { kind: TypeKind::Protocol { parents: parents }, ..old(self).infos@[k] }));
            assert(protocol_parents(self.infos@[k]) == parents@);
            assert(info_valid(self.infos@[k], self.infos@.len()));
            self.lemma_wf_after_update(*old(self), k);
        }
    }

    /// Sets the constructor parameters a type declares (if it declares any).
    pub fn set_declared_constructor_params(&mut self, type_id: TypeId, params: Option<Vec<ConstructorParam>>)
        requires
            old(self).wf(),
            match params {
                Some(ps) => params_valid(ps@, old(self).infos@.len()),
                None => true,
            },
        ensures
            final(self).wf(),
            type_id.0 >= old(self).infos@.len() ==> final(self).infos@ == old(self).infos@,
            type_id.0 < old(self).infos@.len() ==> final(self).infos@ == old(self).infos@.update(
                type_id.0 as int,
                TypeInfo { declared_constructor_params: params, ..old(self).infos@[type_id.0 as int] },
            ),
    {
        if type_id.0 >= self.infos.len() {
            return;
        }
        proof { assert(info_valid(self.infos@[type_id.0 as int], self.infos@.len())); }
        self.infos[type_id.0].declared_constructor_params = params;
        proof {
            let k = type_id.0 as int;
            assert(self.infos@ =~= old(self).infos@.update(k, TypeInfo { declared_constructor_params: params, ..old(self).infos@[k] }));
            assert(protocol_parents(self.infos@[k]) == protocol_parents(old(self).infos@[k]));
            assert(info_valid(self.infos@[k], self.infos@.len()));
            self.lemma_wf_after_update(*old(self), k);
        }
    }

    /// Sets the constructor parameters a type effectively takes; the type
    /// becomes a generic template exactly when one of them has no type.
    pub fn set_effective_constructor_params(&mut self, type_id: TypeId, params: Vec<ConstructorParam>)
        requires
            old(self).wf(),
            params_valid(params@, old(self).infos@.len()),
        ensures
            final(self).wf(),
            type_id.0 >= old(self).infos@.len() ==> final(self).infos@ == old(self).infos@,
            type_id.0 < old(self).infos@.len() ==> final(self).infos@ == old(self).infos@.update(
                type_id.0 as int,
                TypeInfo {
                    constructor_params: params,
                    is_generic_template: exists|i: int| 0 <= i < params@.len() && (#[trigger] params@[i]).ty is None,
                    ..old(self).infos@[type_id.0 as int]
                },
            ),
    {
        if type_id.0 >= self.infos.len() {
            return;
        }
        let mut is_generic = false;
        let mut i: usize = 0;
        while i < params.len()
            invariant
                i <= params@.len(),
                is_generic == exists|j: int| 0 <= j < i && (#[trigger] params@[j]).ty is None,
            decreases params.len() - i,
        {
            if params[i].ty.is_none() {
                is_generic = true;
            }
            i = i + 1;
        }
        proof { assert(info_valid(self.infos@[type_id.0 as int], self.infos@.len())); }
        self.infos[type_id.0].constructor_params = params;
        self.infos[type_id.0].is_generic_template = is_generic;
        proof {
            let k = type_id.0 as int;
            assert(self.infos@ =~= old(self).infos@.update(k, TypeInfo {
                constructor_params: params,
                is_generic_template: is_generic,
                ..old(self).infos@[k]
            }));
            assert(protocol_parents(self.infos@[k]) == protocol_parents(old(self).infos@[k]));
            assert(info_valid(self.infos@[k], self.infos@.len()));
            self.lemma_wf_after_update(*old(self), k);
        }
    }

    proof fn lemma_wf_after_update(&self, prev: TypeTable, k: int)
        requires
            prev.wf(),
            self.infos@.len() == prev.infos@.len(),
            0 <= k < self.infos@.len(),
            forall|j: int| 0 <= j < prev.infos@.len() && j != k ==> self.infos@[j] == prev.infos@[j],
            info_valid(self.infos@[k], self.infos@.len()),
            self.infos@[k].name == prev.infos@[k].name,
        ensures
            self.wf(),
    {
        reveal(builtin_names);
        assert forall|i: int| 0 <= i < self.infos@.len() implies info_valid(#[trigger] self.infos@[i], self.infos@.len()) by {
            if i != k {
                assert(info_valid(prev.infos@[i], prev.infos@.len()));
            }
        }
    }


    /// The parent of a type.
    pub fn get_parent(&self, type_id: TypeId) -> (r: Option<TypeId>)
        requires
            type_id.0 < self.infos@.len(),
        ensures
            r == self.infos@[type_id.0 as int].parent,
    {
        self.infos[type_id.0].parent
    }

    /// The effective constructor parameters of a type.
    pub fn get_constructor_params(&self, type_id: TypeId) -> (r: &Vec<ConstructorParam>)
        requires
            type_id.0 < self.infos@.len(),
        ensures
            *r == self.infos@[type_id.0 as int].constructor_params,
    {
        &self.infos[type_id.0].constructor_params
    }

    /// Whether a type is a generic template (some constructor parameter has no type).
    pub fn is_generic_template(&self, type_id: TypeId) -> (r: bool)
        requires
            type_id.0 < self.infos@.len(),
        ensures
            r == self.infos@[type_id.0 as int].is_generic_template,
    {
        self.infos[type_id.0].is_generic_template
    }

    /// The first symbol named `name` on the type or, failing that, on its
    /// closest ancestor that has one.
    fn find_in_chain(&self, type_id: TypeId, name: &str, methods: bool) -> (r: Option<&Symbol>)
        requires
            self.wf(),
            type_id.0 < self.infos@.len(),
        ensures
            match r {
                Some(sym) => first_in_chain(self.infos@, chain_ids(self.infos@, type_id, self.infos@.len()), name@, methods) == Some(*sym)
                    && symbol_type_valid(sym.ty, self.infos@.len()),
                None => first_in_chain(self.infos@, chain_ids(self.infos@, type_id, self.infos@.len()), name@, methods) is None,
            },
    {
        let ghost t = self.infos@;
        let ghost goal = first_in_chain(t, chain_ids(t, type_id, t.len()), name@, methods);
        let key = String::from_str(name);
        let mut current = Some(type_id);
        let mut fuel = self.infos.len();
        loop
            invariant
                self.wf(),
                t == self.infos@,
                key@ == name@,
                opt_id_below(current, t.len()),
                goal == first_in_chain(t, chain_ids(t, type_id, t.len()), name@, methods),
                goal == first_in_chain(t, chain_from(t, current, fuel as nat), name@, methods),
            decreases fuel,
        {
            match current {
                None => {
                    return None;
                },
                Some(id) => {
                    if fuel == 0 {
                        return None;
                    }
                    let info = &self.infos[id.0];
                    let ghost rest = chain_from(t, info.parent, (fuel - 1) as nat);
                    assert(chain_ids(t, id, fuel as nat) == seq![id] + rest);
                    assert((seq![id] + rest).drop_first() =~= rest);
                    assert(info_valid(t[id.0 as int], t.len()));
                    let list = if methods { &info.methods } else { &info.attributes };
                    match find_symbol(list, &key) {
                        Some(i) => {
                            proof { lemma_first_named(list@, name@, i as int); }
                            return Some(&list[i]);
                        },
                        None => {},
                    }
                    current = info.parent;
                    fuel = fuel - 1;
                },
            }
        }
    }

    /// The method `name` of the type or of its closest ancestor that has it.
    pub fn get_method(&self, type_id: TypeId, name: &str) -> (r: Option<&Symbol>)
        requires
            self.wf(),
            type_id.0 < self.infos@.len(),
        ensures
            match r {
                Some(sym) => first_in_chain(self.infos@, chain_ids(self.infos@, type_id, self.infos@.len()), name@, true) == Some(*sym)
                    && symbol_type_valid(sym.ty, self.infos@.len()),
                None => first_in_chain(self.infos@, chain_ids(self.infos@, type_id, self.infos@.len()), name@, true) is None,
            },
    {
        self.find_in_chain(type_id, name, true)
    }

    /// The signature of method `name`, looked up from the type towards its ancestors.
    pub fn lookup_method(&self, type_id: TypeId, name: &str) -> (r: Option<(Vec<TypeId>, TypeId)>)
        requires
            self.wf(),
            type_id.0 < self.infos@.len(),
        ensures
            match r {
                Some((ps, ret)) => first_method_sig(self.infos@, chain_ids(self.infos@, type_id, self.infos@.len()), name@) == Some((ps@, ret))
                    && ret.0 < self.infos@.len()
                    && forall|i: int| 0 <= i < ps@.len() ==> (#[trigger] ps@[i]).0 < self.infos@.len(),
                None => first_method_sig(self.infos@, chain_ids(self.infos@, type_id, self.infos@.len()), name@) is None,
            },
    {
        let ghost t = self.infos@;
        let ghost goal = first_method_sig(t, chain_ids(t, type_id, t.len()), name@);
        let key = String::from_str(name);
        let mut current = Some(type_id);
        let mut fuel = self.infos.len();
        loop
            invariant
                self.wf(),
                t == self.infos@,
                key@ == name@,
                opt_id_below(current, t.len()),
                goal == first_method_sig(t, chain_ids(t, type_id, t.len()), name@),
                goal == first_method_sig(t, chain_from(t, current, fuel as nat), name@),
            decreases fuel,
        {
            match current {
                None => {
                    return None;
                },
                Some(id) => {
                    if fuel == 0 {
                        return None;
                    }
                    let info = &self.infos[id.0];
                    let ghost rest = chain_from(t, info.parent, (fuel - 1) as nat);
                    assert(chain_ids(t, id, fuel as nat) == seq![id] + rest);
                    assert((seq![id] + rest).drop_first() =~= rest);
                    assert(info_valid(t[id.0 as int], t.len()));
                    match find_symbol(&info.methods, &key) {
                        Some(i) => {
                            proof { lemma_first_named(info.methods@, name@, i as int); }
                            match &info.methods[i].ty {
                                SymbolType::Function { params, ret } => {
                                    let ps = params.clone();
                                    assert(ps@ =~= params@);
                                    assert(symbol_type_valid(info.methods@[i as int].ty, t.len()));
                                    return Some((ps, *ret));
                                },
                                _ => {},
                            }
                        },
                        None => {},
                    }
                    current = info.parent;
                    fuel = fuel - 1;
                },
            }
        }
    }

    /// The type of attribute `name`, looked up from the type towards its ancestors.
    pub fn lookup_attribute(&self, type_id: TypeId, name: &str) -> (r: Option<TypeId>)
        requires
            self.wf(),
            type_id.0 < self.infos@.len(),
        ensures
            r == first_attribute_type(self.infos@, chain_ids(self.infos@, type_id, self.infos@.len()), name@),
            opt_id_below(r, self.infos@.len()),
    {
        let ghost t = self.infos@;
        let ghost goal = first_attribute_type(t, chain_ids(t, type_id, t.len()), name@);
        let key = String::from_str(name);
        let mut current = Some(type_id);
        let mut fuel = self.infos.len();
        loop
            invariant
                self.wf(),
                t == self.infos@,
                key@ == name@,
                opt_id_below(current, t.len()),
                goal == first_attribute_type(t, chain_ids(t, type_id, t.len()), name@),
                goal == first_attribute_type(t, chain_from(t, current, fuel as nat), name@),
            decreases fuel,
        {
            match current {
                None => {
                    return None;
                },
                Some(id) => {
                    if fuel == 0 {
                        return None;
                    }
                    let info = &self.infos[id.0];
                    let ghost rest = chain_from(t, info.parent, (fuel - 1) as nat);
                    assert(chain_ids(t, id, fuel as nat) == seq![id] + rest);
                    assert((seq![id] + rest).drop_first() =~= rest);
                    assert(info_valid(t[id.0 as int], t.len()));
                    match find_symbol(&info.attributes, &key) {
                        Some(i) => {
                            proof { lemma_first_named(info.attributes@, name@, i as int); }
                            match &info.attributes[i].ty {
                                SymbolType::Variable(ty) => {
                                    assert(symbol_type_valid(info.attributes@[i as int].ty, t.len()));
                                    return Some(*ty);
                                },
                                _ => {},
                            }
                        },
                        None => {},
                    }
                    current = info.parent;
                    fuel = fuel - 1;
                },
            }
        }
    }

    /// Collects the ancestors of a type, itself first.
    fn ancestors(&self, type_id: TypeId) -> (r: Vec<TypeId>)
        requires
            self.wf(),
            type_id.0 < self.infos@.len(),
        ensures
            r@ == chain_ids(self.infos@, type_id, self.infos@.len()),
    {
        let ghost t = self.infos@;
        let mut out: Vec<TypeId> = Vec::new();
        let mut current = Some(type_id);
        let mut fuel = self.infos.len();
        loop
            invariant
                self.wf(),
                t == self.infos@,
                opt_id_below(current, t.len()),
                out@ + chain_from(t, current, fuel as nat) == chain_ids(t, type_id, t.len()),
            decreases fuel,
        {
            match current {
                None => {
                    assert(out@ + Seq::<TypeId>::empty() =~= out@);
                    return out;
                },
                Some(id) => {
                    if fuel == 0 {
                        assert(out@ + Seq::<TypeId>::empty() =~= out@);
                        return out;
                    }
                    let info = &self.infos[id.0];
                    let ghost rest = chain_from(t, info.parent, (fuel - 1) as nat);
                    assert(chain_ids(t, id, fuel as nat) == seq![id] + rest);
                    assert(info_valid(t[id.0 as int], t.len()));
                    let ghost prev = out@;
                    out.push(id);
                    assert(out@ + rest =~= prev + (seq![id] + rest));
                    current = info.parent;
                    fuel = fuel - 1;
                },
            }
        }
    }

    /// The closest common ancestor of two types (`Object` when there is none).
    pub fn find_lca(&self, a: TypeId, b: TypeId) -> (r: TypeId)
        requires
            self.wf(),
            a.0 < self.infos@.len(),
            b.0 < self.infos@.len(),
        ensures
            r == join_of(self.infos@, a, b),
            r.0 < self.infos@.len(),
    {
        let anc_a = self.ancestors(a);
        let anc_b = self.ancestors(b);
        proof {
            lemma_chain_valid(self.infos@, a, self.infos@.len());
            lemma_chain_valid(self.infos@, b, self.infos@.len());
        }
        let mut j: usize = 0;
        assert(anc_b@.subrange(0, anc_b@.len() as int) =~= anc_b@);
        while j < anc_b.len()
            invariant
                j <= anc_b@.len(),
                anc_a@ == chain_ids(self.infos@, a, self.infos@.len()),
                anc_b@ == chain_ids(self.infos@, b, self.infos@.len()),
                lca_in(anc_a@, anc_b@) == lca_in(anc_a@, anc_b@.subrange(j as int, anc_b@.len() as int)),
                forall|k: int| 0 <= k < anc_b@.len() ==> (#[trigger] anc_b@[k]).0 < self.infos@.len(),
            decreases anc_b.len() - j,
        {
            let ghost sub = anc_b@.subrange(j as int, anc_b@.len() as int);
            assert(sub.drop_first() =~= anc_b@.subrange(j + 1, anc_b@.len() as int));
            assert(sub[0] == anc_b@[j as int]);
            if contains_id(&anc_a, anc_b[j]) {
                return anc_b[j];
            }
            j = j + 1;
        }
        TypeId(OBJECT_ID)
    }

    /// Whether `r` is `l` or one of its ancestors.
    fn chain_contains(&self, l: TypeId, r: TypeId) -> (b: bool)
        requires
            self.wf(),
            l.0 < self.infos@.len(),
        ensures
            b == chain_ids(self.infos@, l, self.infos@.len()).contains(r),
    {
        let anc = self.ancestors(l);
        contains_id(&anc, r)
    }


    /// Whether protocol `target` can be reached from `s` through "extends"
    /// links, in at most as many steps as there are types.
    #[verifier::loop_isolation(false)]
    pub(crate) fn protocol_reaches(&self, s: TypeId, target: TypeId) -> (b: bool)
        requires
            self.wf(),
            s.0 < self.infos@.len(),
            target.0 < self.infos@.len(),
        ensures
            b == reach_within(self.infos@, s, target, self.infos@.len()),
    {
        let ghost t = self.infos@;
        let n = self.infos.len();
        let mut reached: Vec<bool> = Vec::new();
        let mut v: usize = 0;
        while v < n
            invariant
                n == t.len(),
                v <= n,
                reached@.len() == v,
                forall|w: int| 0 <= w < v ==> reached@[w] == reach_set(t, s, 0).contains(TypeId(w as usize)),
            decreases n - v,
        {
            reached.push(v == s.0);
            v = v + 1;
        }
        let mut k: usize = 0;
        while k < n
            invariant
                self.wf(),
                t == self.infos@,
                n == t.len(),
                k <= n,
                reached@.len() == n,
                forall|w: int| 0 <= w < n ==> reached@[w] == reach_set(t, s, k as nat).contains(TypeId(w as usize)),
            decreases n - k,
        {
            let mut next = reached.clone();
            assert(next@ =~= reached@);
            let mut u: usize = 0;
            while u < n
                invariant
                    self.wf(),
                    t == self.infos@,
                    n == t.len(),
                    u <= n,
                    k < n,
                    reached@.len() == n,
                    next@.len() == n,
                    forall|w: int| 0 <= w < n ==> reached@[w] == reach_set(t, s, k as nat).contains(TypeId(w as usize)),
                    forall|w: int|
                        0 <= w < n ==> next@[w] == (reach_set(t, s, k as nat).contains(TypeId(w as usize)) || exists|u2: int|
                            0 <= u2 < u && #[trigger] reach_set(t, s, k as nat).contains(TypeId(u2 as usize))
                                && protocol_parents(t[u2]).contains(TypeId(w as usize))),
                decreases n - u,
            {
                let ghost prev = next@;
                if reached[u] {
                    assert(reached@[u as int]);
                    assert(reach_set(t, s, k as nat).contains(TypeId(u as usize)));
                    match &self.infos[u].kind {
                        TypeKind::Protocol { parents } => {
                            assert(info_valid(t[u as int], n as nat));
                            assert(protocol_parents(t[u as int]) == parents@);
                            let mut p: usize = 0;
                            assert(parents@.take(0) =~= Seq::<TypeId>::empty());
                            while p < parents.len()
                                invariant
                                    n == t.len(),
                                    u < n,
                                    next@.len() == n,
                                    p <= parents@.len(),
                                    prev.len() == n,
                                    parents@ == protocol_parents(t[u as int]),
                                    forall|w: int| 0 <= w < n ==> prev[w] == (reach_set(t, s, k as nat).contains(TypeId(w as usize)) || exists|u2: int|
                                        0 <= u2 < u && #[trigger] reach_set(t, s, k as nat).contains(TypeId(u2 as usize))
                                            && protocol_parents(t[u2]).contains(TypeId(w as usize))),
                                    forall|i: int| 0 <= i < parents@.len() ==> (#[trigger] parents@[i]).0 < n,
                                    forall|w: int|
                                        0 <= w < n ==> next@[w] == (prev[w] || parents@.take(p as int).contains(TypeId(w as usize))),
                                decreases parents.len() - p,
                            {
                                let target_id = parents[p].0;
                                let ghost old_next = next@;
                                let ghost old_p = p as int;
                                next.set(target_id, true);
                                p = p + 1;
                                let ghost a = parents@.take(old_p);
                                assert(next@ == old_next.update(target_id as int, true));
                                assert(forall|w: int| 0 <= w < n ==> old_next[w] == (prev[w] || a.contains(TypeId(w as usize))));
                                assert(parents@.take(p as int) =~= a.push(parents@[old_p]));
                                assert forall|w: int| 0 <= w < n implies next@[w] == (prev[w] || parents@.take(p as int).contains(TypeId(w as usize))) by {
                                    let x = TypeId(w as usize);
                                    if a.push(parents@[old_p]).contains(x) && !a.contains(x) {
                                        let i = choose|i: int| 0 <= i < a.len() + 1 && a.push(parents@[old_p])[i] == x;
                                        if i < a.len() {
                                            assert(a[i] == x);
                                        }
                                    }
                                    if a.contains(x) {
                                        let i = choose|i: int| 0 <= i < a.len() && a[i] == x;
                                        assert(a.push(parents@[old_p])[i] == x);
                                    }
                                    if w == target_id as int {
                                        assert(a.push(parents@[old_p])[a.len() as int] == x);
                                    }
                                }
                            }
                            assert(p == parents@.len());
                            assert(forall|w: int| 0 <= w < n ==> next@[w] == (prev[w] || parents@.take(p as int).contains(TypeId(w as usize))));
                            assert(parents@.take(p as int) =~= parents@);
                            proof { lemma_round_step(t, s, k as nat, u as int, prev, next@, parents@.take(p as int)); }
                        },
                        TypeKind::Class => {
                            assert forall|w: int| 0 <= w < n implies next@[w] == (reach_set(t, s, k as nat).contains(TypeId(w as usize)) || exists|u2: int|
                                0 <= u2 < u + 1 && #[trigger] reach_set(t, s, k as nat).contains(TypeId(u2 as usize))
                                    && protocol_parents(t[u2]).contains(TypeId(w as usize))) by {
                                assert(protocol_parents(t[u as int]) =~= Seq::<TypeId>::empty());
                            }
                        },
                    }
                } else {
                    assert forall|w: int| 0 <= w < n implies next@[w] == (reach_set(t, s, k as nat).contains(TypeId(w as usize)) || exists|u2: int|
                        0 <= u2 < u + 1 && #[trigger] reach_set(t, s, k as nat).contains(TypeId(u2 as usize))
                            && protocol_parents(t[u2]).contains(TypeId(w as usize))) by {
                        assert(!reach_set(t, s, k as nat).contains(TypeId(u as usize)));
                    }
                }
                u = u + 1;
            }
            assert forall|w: int| 0 <= w < n implies next@[w] == reach_set(t, s, (k + 1) as nat).contains(TypeId(w as usize)) by {
                lemma_reach_step(t, s, TypeId(w as usize), k as nat);
            }
            reached = next;
            k = k + 1;
        }
        reached[target.0]
    }


    /// Whether `left` is a subtype of `right` (see `subtype`), comparing
    /// method signatures at most as deeply as there are types.
    pub fn is_subtype_of(&self, left: TypeId, right: TypeId) -> (b: bool)
        requires
            self.wf(),
            left.0 < self.infos@.len(),
            right.0 < self.infos@.len(),
        ensures
            b == subtype(self.infos@, left, right, self.infos@.len()),
    {
        self.subtype_fuel(left, right, self.infos.len())
    }

    fn subtype_fuel(&self, l: TypeId, r: TypeId, fuel: usize) -> (b: bool)
        requires
            self.wf(),
            l.0 < self.infos@.len(),
            r.0 < self.infos@.len(),
        ensures
            b == subtype(self.infos@, l, r, fuel as nat),
        decreases fuel, 3nat, 0nat,
    {
        if l == r || r.0 == 0 {
            return true;
        }
        if !(l.0 <= 3) && self.infos[r.0].is_protocol() {
            if self.infos[l.0].is_protocol() {
                return self.protocol_reaches(l, r);
            }
            let pms = &self.infos[r.0].methods;
            assert(info_valid(self.infos@[r.0 as int], self.infos@.len()));
            let ghost t = self.infos@;
            let ghost goal = all_satisfied(t, l, pms@, fuel as nat);
            let mut ok = true;
            let mut i: usize = 0;
            assert(pms@.subrange(0, pms@.len() as int) =~= pms@);
            while i < pms.len()
                invariant
                    self.wf(),
                    t == self.infos@,
                    l.0 < t.len(),
                    symbols_valid(pms@, t.len()),
                    i <= pms@.len(),
                    goal == all_satisfied(t, l, pms@, fuel as nat),
                    goal == (ok && all_satisfied(t, l, pms@.subrange(i as int, pms@.len() as int), fuel as nat)),
                decreases pms.len() - i,
            {
                let ghost sub = pms@.subrange(i as int, pms@.len() as int);
                assert(sub.drop_first() =~= pms@.subrange(i + 1, pms@.len() as int));
                assert(sub[0] == pms@[i as int]);
                let sat = self.satisfied_fuel(l, &pms[i], fuel);
                if !sat {
                    ok = false;
                }
                i = i + 1;
            }
            assert(pms@.subrange(i as int, pms@.len() as int).len() == 0);
            return ok;
        }
        self.chain_contains(l, r)
    }

    fn satisfied_fuel(&self, l: TypeId, pm: &Symbol, fuel: usize) -> (b: bool)
        requires
            self.wf(),
            l.0 < self.infos@.len(),
            symbol_type_valid(pm.ty, self.infos@.len()),
        ensures
            b == any_in_chain(self.infos@, chain_ids(self.infos@, l, self.infos@.len()), *pm, fuel as nat),
        decreases fuel, 2nat, 0nat,
    {
        let ghost t = self.infos@;
        let ghost goal = any_in_chain(t, chain_ids(t, l, t.len()), *pm, fuel as nat);
        let mut current = Some(l);
        let mut steps: usize = self.infos.len();
        loop
            invariant
                self.wf(),
                t == self.infos@,
                symbol_type_valid(pm.ty, t.len()),
                opt_id_below(current, t.len()),
                goal == any_in_chain(t, chain_ids(t, l, t.len()), *pm, fuel as nat),
                goal == any_in_chain(t, chain_from(t, current, steps as nat), *pm, fuel as nat),
            decreases steps,
        {
            let id = match current {
                None => {
                    return false;
                },
                Some(id) => id,
            };
            if steps == 0 {
                return false;
            }
            let info = &self.infos[id.0];
            let ghost rest = chain_from(t, info.parent, (steps - 1) as nat);
            assert(chain_ids(t, id, steps as nat) == seq![id] + rest);
            assert((seq![id] + rest).drop_first() =~= rest);
            assert((seq![id] + rest)[0] == id);
            assert(info_valid(t[id.0 as int], t.len()));
            let ghost ms = info.methods@;
            let ghost here = any_compatible(t, ms, *pm, fuel as nat);
            assert(here ==> goal);
            let mut j: usize = 0;
            assert(ms.subrange(0, ms.len() as int) =~= ms);
            while j < info.methods.len()
                invariant
                    self.wf(),
                    t == self.infos@,
                    symbol_type_valid(pm.ty, t.len()),
                    ms == info.methods@,
                    symbols_valid(ms, t.len()),
                    j <= ms.len(),
                    here == any_compatible(t, ms, *pm, fuel as nat),
                    here ==> goal,
                    goal == any_in_chain(t, chain_ids(t, l, t.len()), *pm, fuel as nat),
                    here == any_compatible(t, ms.subrange(j as int, ms.len() as int), *pm, fuel as nat),
                decreases info.methods.len() - j,
            {
                let ghost sub = ms.subrange(j as int, ms.len() as int);
                assert(sub.drop_first() =~= ms.subrange(j + 1, ms.len() as int));
                assert(sub[0] == ms[j as int]);
                if self.compatible_fuel(&info.methods[j], pm, fuel) {
                    assert(here);
                    return true;
                }
                j = j + 1;
            }
            assert(!here);
            current = info.parent;
            steps = steps - 1;
        }
    }

    fn compatible_fuel(&self, tm: &Symbol, pm: &Symbol, fuel: usize) -> (b: bool)
        requires
            self.wf(),
            symbol_type_valid(tm.ty, self.infos@.len()),
            symbol_type_valid(pm.ty, self.infos@.len()),
        ensures
            b == compatible(self.infos@, *tm, *pm, fuel as nat),
        decreases fuel, 1nat, 0nat,
    {
        if fuel == 0 {
            return false;
        }
        if tm.name != pm.name {
            return false;
        }
        match (&tm.ty, &pm.ty) {
            (SymbolType::Function { params: p_type, ret: r_type }, SymbolType::Function { params: p_protocol, ret: r_protocol }) => {
                if !self.subtype_fuel(*r_type, *r_protocol, fuel - 1) {
                    return false;
                }
                if p_protocol.len() != p_type.len() {
                    return false;
                }
                let ghost t = self.infos@;
                let ghost goal = all_params(t, p_protocol@, p_type@, (fuel - 1) as nat);
                let mut ok = true;
                let mut i: usize = 0;
                assert(p_protocol@.subrange(0, p_protocol@.len() as int) =~= p_protocol@);
                assert(p_type@.subrange(0, p_type@.len() as int) =~= p_type@);
                while i < p_type.len()
                    invariant
                        self.wf(),
                        t == self.infos@,
                        fuel > 0,
                        p_protocol@.len() == p_type@.len(),
                        forall|k: int| 0 <= k < p_type@.len() ==> (#[trigger] p_type@[k]).0 < t.len(),
                        forall|k: int| 0 <= k < p_protocol@.len() ==> (#[trigger] p_protocol@[k]).0 < t.len(),
                        i <= p_type@.len(),
                        goal == all_params(t, p_protocol@, p_type@, (fuel - 1) as nat),
                        goal == (ok && all_params(
                            t,
                            p_protocol@.subrange(i as int, p_protocol@.len() as int),
                            p_type@.subrange(i as int, p_type@.len() as int),
                            (fuel - 1) as nat,
                        )),
                    decreases p_type.len() - i,
                {
                    let ghost sa = p_protocol@.subrange(i as int, p_protocol@.len() as int);
                    let ghost sb = p_type@.subrange(i as int, p_type@.len() as int);
                    assert(sa.drop_first() =~= p_protocol@.subrange(i + 1, p_protocol@.len() as int));
                    assert(sb.drop_first() =~= p_type@.subrange(i + 1, p_type@.len() as int));
                    assert(sa[0] == p_protocol@[i as int]);
                    assert(sb[0] == p_type@[i as int]);
                    if !self.subtype_fuel(p_protocol[i], p_type[i], fuel - 1) {
                        ok = false;
                    }
                    i = i + 1;
                }
                ok
            },
            _ => false,
        }
    }

    fn push_info(&mut self, info: TypeInfo)
        requires
            old(self).wf(),
            info_valid(info, old(self).infos@.len() + 1),
        ensures
            final(self).wf(),
            final(self).infos@ == old(self).infos@.push(info),
    {
        let ghost n = self.infos@.len();
        self.infos.push(info);
        proof { reveal(builtin_names); }
        assert forall|i: int| 0 <= i < self.infos@.len() implies info_valid(
            #[trigger] self.infos@[i],
            self.infos@.len(),
        ) by {
            if i < n {
                assert(info_valid(old(self).infos@[i], n));
                lemma_info_valid_mono(self.infos@[i], n, n + 1);
            }
        }
    }
}

} // verus!
