use vstd::prelude::*;
use crate::span::Span;
use crate::types::TypeId;

verus! {

/// What a name in scope stands for.
#[derive(Debug, Clone, Copy, PartialEq, Eq)]
pub enum SymbolKind {
    Variable,
    Function,
    Parameter,
    Attribute,
}

/// The type a symbol carries. A generic function has an unknown type for
/// each unannotated parameter (and, for parameters annotated with a
/// protocol, that protocol as a constraint).
#[derive(Debug, Clone)]
pub enum SymbolType {
    Variable(TypeId),
    Function { params: Vec<TypeId>, ret: TypeId },
    GenericFunction {
        param_types: Vec<Option<TypeId>>,
        param_protocol_constraints: Vec<Option<TypeId>>,
        ret_type: Option<TypeId>,
    },
}

/// A type id below `n` (if there is one).
pub open spec fn opt_id_below(o: Option<TypeId>, n: nat) -> bool {
    match o {
        Some(id) => id.0 < n,
        None => true,
    }
}

/// Every type this symbol type mentions is one of the first `n` types.
pub open spec fn symbol_type_valid(t: SymbolType, n: nat) -> bool {
    match t {
        SymbolType::Variable(id) => id.0 < n,
        SymbolType::Function { params, ret } => ret.0 < n && forall|i: int|
            0 <= i < params@.len() ==> (#[trigger] params@[i]).0 < n,
        SymbolType::GenericFunction { param_types, param_protocol_constraints, ret_type } => {
            &&& opt_id_below(ret_type, n)
            &&& forall|i: int| 0 <= i < param_types@.len() ==> opt_id_below(#[trigger] param_types@[i], n)
            &&& forall|i: int|
                0 <= i < param_protocol_constraints@.len() ==> opt_id_below(
                    #[trigger] param_protocol_constraints@[i],
                    n,
                )
        },
    }
}

/// Two symbol types that carry the same information.
pub open spec fn same_symbol_type(a: SymbolType, b: SymbolType) -> bool {
    match (a, b) {
        (SymbolType::Variable(x), SymbolType::Variable(y)) => x == y,
        (SymbolType::Function { params: p1, ret: r1 }, SymbolType::Function { params: p2, ret: r2 }) => p1@
            == p2@ && r1 == r2,
        (
            SymbolType::GenericFunction {
                param_types: a1,
                param_protocol_constraints: b1,
                ret_type: c1,
            },
            SymbolType::GenericFunction { param_types: a2, param_protocol_constraints: b2, ret_type: c2 },
        ) => a1@ == a2@ && b1@ == b2@ && c1 == c2,
        _ => false,
    }
}

pub proof fn lemma_same_symbol_type_valid(a: SymbolType, b: SymbolType, n: nat)
    requires
        same_symbol_type(a, b),
        symbol_type_valid(a, n),
    ensures
        symbol_type_valid(b, n),
{
}

pub proof fn lemma_symbol_type_valid_mono(a: SymbolType, n: nat, m: nat)
    requires
        symbol_type_valid(a, n),
        n <= m,
    ensures
        symbol_type_valid(a, m),
{
}

impl SymbolType {
    /// Whether this is the type of a generic function.
    pub fn is_generic(&self) -> (r: bool)
        ensures
            r == (self is GenericFunction),
    {
        matches!(self, SymbolType::GenericFunction { .. })
    }

    /// A copy of this symbol type.
    pub fn duplicate(&self) -> (r: SymbolType)
        ensures
            same_symbol_type(*self, r),
    {
        match self {
            SymbolType::Variable(id) => SymbolType::Variable(*id),
            SymbolType::Function { params, ret } => {
                let p = params.clone();
                assert(p@ =~= params@);
                SymbolType::Function { params: p, ret: *ret }
            },
            SymbolType::GenericFunction { param_types, param_protocol_constraints, ret_type } => {
                let a = param_types.clone();
                let b = param_protocol_constraints.clone();
                assert(a@ =~= param_types@);
                assert(b@ =~= param_protocol_constraints@);
                SymbolType::GenericFunction {
                    param_types: a,
                    param_protocol_constraints: b,
                    ret_type: *ret_type,
                }
            },
        }
    }
}

/// A named entity: a variable, a parameter, a function, a method or an attribute.
#[derive(Debug, Clone)]
pub struct Symbol {
    pub name: String,
    pub kind: SymbolKind,
    pub ty: SymbolType,
    pub span: Span,
}

/// Two symbols that carry the same information.
pub open spec fn same_symbol(a: Symbol, b: Symbol) -> bool {
    &&& a.name@ == b.name@
    &&& a.kind == b.kind
    &&& same_symbol_type(a.ty, b.ty)
    &&& a.span == b.span
}

impl Symbol {
    /// A copy of this symbol.
    pub fn duplicate(&self) -> (r: Symbol)
        ensures
            same_symbol(*self, r),
    {
        Symbol { name: self.name.clone(), kind: self.kind, ty: self.ty.duplicate(), span: self.span }
    }
}

} // verus!
