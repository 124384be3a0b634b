use vstd::prelude::*;
use crate::context::SemanticContext;
use crate::span::Span;
use crate::symbols::{Symbol, SymbolKind, SymbolType};
use crate::types::TypeId;

verus! {

/// `s` is a function symbol with the given signature.
pub open spec fn is_function_symbol(s: Option<Symbol>, params: Seq<TypeId>, ret: TypeId) -> bool {
    match s {
        Some(sym) => sym.kind == SymbolKind::Function && match sym.ty {
            SymbolType::Function { params: p, ret: r } => p@ == params && r == ret,
            _ => false,
        },
        None => false,
    }
}

/// `s` is a variable symbol of the given type.
pub open spec fn is_variable_symbol(s: Option<Symbol>, ty: TypeId) -> bool {
    match s {
        Some(sym) => sym.kind == SymbolKind::Variable && sym.ty == SymbolType::Variable(ty),
        None => false,
    }
}

fn declare_builtin_function(ctx: &mut SemanticContext, name: &str, params: Vec<TypeId>, ret: TypeId)
    requires
        old(ctx).wf(),
        ret.0 < old(ctx).types.infos@.len(),
        forall|i: int| 0 <= i < params@.len() ==> (#[trigger] params@[i]).0 < old(ctx).types.infos@.len(),
    ensures
        final(ctx).wf(),
        final(ctx).types == old(ctx).types,
        final(ctx).scopes@.len() == old(ctx).scopes@.len(),
        old(ctx).spec_lookup(name@) is None ==> is_function_symbol(final(ctx).spec_lookup(name@), params@, ret),
        forall|n: Seq<char>| n != name@ ==> #[trigger] final(ctx).spec_lookup(n) == old(ctx).spec_lookup(n),
{
    let ghost ps = params@;
    let sym = Symbol {
        name: String::from_str(name),
        kind: SymbolKind::Function,
        ty: SymbolType::Function { params, ret },
        span: Span::new(0, 0),
    };
    proof {
        if old(ctx).spec_lookup(name@) is None {
            assert(!crate::types::has_named(old(ctx).scopes@.last().symbols@, name@)) by {
                if crate::types::has_named(old(ctx).scopes@.last().symbols@, name@) {
                    assert(old(ctx).spec_lookup(name@) is Some);
                }
            }
        }
    }
    let _ = ctx.declare(sym);
}

fn declare_builtin_constant(ctx: &mut SemanticContext, name: &str, ty: TypeId)
    requires
        old(ctx).wf(),
        ty.0 < old(ctx).types.infos@.len(),
    ensures
        final(ctx).wf(),
        final(ctx).types == old(ctx).types,
        final(ctx).scopes@.len() == old(ctx).scopes@.len(),
        old(ctx).spec_lookup(name@) is None ==> is_variable_symbol(final(ctx).spec_lookup(name@), ty),
        forall|n: Seq<char>| n != name@ ==> #[trigger] final(ctx).spec_lookup(n) == old(ctx).spec_lookup(n),
{
    let sym = Symbol {
        name: String::from_str(name),
        kind: SymbolKind::Variable,
        ty: SymbolType::Variable(ty),
        span: Span::new(0, 0),
    };
    proof {
        if old(ctx).spec_lookup(name@) is None {
            assert(!crate::types::has_named(old(ctx).scopes@.last().symbols@, name@)) by {
                if crate::types::has_named(old(ctx).scopes@.last().symbols@, name@) {
                    assert(old(ctx).spec_lookup(name@) is Some);
                }
            }
        }
    }
    let _ = ctx.declare(sym);
}

/// Declares the runtime's functions and constants in the innermost scope:
/// `sqrt`, `sin`, `cos`, `exp` (one number to a number), `log` (two numbers
/// to a number), `rand` (no argument, a number), `print` (a string to a
/// string), and the numbers `PI` and `E`. A name already declared in the
/// innermost scope is left as it is.
pub fn install_builtins(ctx: &mut SemanticContext)
    requires
        old(ctx).wf(),
        old(ctx).types.spec_resolve("Number"@) is Some,
        old(ctx).types.spec_resolve("String"@) is Some,
    ensures
        final(ctx).wf(),
        final(ctx).types == old(ctx).types,
        final(ctx).scopes@.len() == old(ctx).scopes@.len(),
        ({
            let number = old(ctx).types.spec_resolve("Number"@)->0;
            let string = old(ctx).types.spec_resolve("String"@)->0;
            &&& old(ctx).spec_lookup("sqrt"@) is None ==> is_function_symbol(final(ctx).spec_lookup("sqrt"@), seq![number], number)
            &&& old(ctx).spec_lookup("sin"@) is None ==> is_function_symbol(final(ctx).spec_lookup("sin"@), seq![number], number)
            &&& old(ctx).spec_lookup("cos"@) is None ==> is_function_symbol(final(ctx).spec_lookup("cos"@), seq![number], number)
            &&& old(ctx).spec_lookup("exp"@) is None ==> is_function_symbol(final(ctx).spec_lookup("exp"@), seq![number], number)
            &&& old(ctx).spec_lookup("log"@) is None ==> is_function_symbol(final(ctx).spec_lookup("log"@), seq![number, number], number)
            &&& old(ctx).spec_lookup("rand"@) is None ==> is_function_symbol(final(ctx).spec_lookup("rand"@), Seq::empty(), number)
            &&& old(ctx).spec_lookup("print"@) is None ==> is_function_symbol(final(ctx).spec_lookup("print"@), seq![string], string)
            &&& old(ctx).spec_lookup("PI"@) is None ==> is_variable_symbol(final(ctx).spec_lookup("PI"@), number)
            &&& old(ctx).spec_lookup("E"@) is None ==> is_variable_symbol(final(ctx).spec_lookup("E"@), number)
        }),
{
    proof {
        reveal_strlit("sqrt");
        reveal_strlit("sin");
        reveal_strlit("cos");
        reveal_strlit("exp");
        reveal_strlit("log");
        reveal_strlit("rand");
        reveal_strlit("print");
        reveal_strlit("PI");
        reveal_strlit("E");
        assert("sin"@ != "sqrt"@) by { assert("sin"@.len() != "sqrt"@.len()); }
        assert("cos"@ != "sqrt"@) by { assert("cos"@.len() != "sqrt"@.len()); }
        assert("cos"@ != "sin"@) by { assert("cos"@[0] != "sin"@[0]); }
        assert("cos"@ != "exp"@) by { assert("cos"@[0] != "exp"@[0]); }
        assert("cos"@ != "log"@) by { assert("cos"@[0] != "log"@[0]); }
        assert("cos"@ != "rand"@) by { assert("cos"@.len() != "rand"@.len()); }
        assert("cos"@ != "print"@) by { assert("cos"@.len() != "print"@.len()); }
        assert("exp"@ != "sqrt"@) by { assert("exp"@.len() != "sqrt"@.len()); }
        assert("exp"@ != "sin"@) by { assert("exp"@[0] != "sin"@[0]); }
        assert("exp"@ != "log"@) by { assert("exp"@[0] != "log"@[0]); }
        assert("exp"@ != "rand"@) by { assert("exp"@.len() != "rand"@.len()); }
        assert("exp"@ != "print"@) by { assert("exp"@.len() != "print"@.len()); }
        assert("log"@ != "sqrt"@) by { assert("log"@.len() != "sqrt"@.len()); }
        assert("log"@ != "sin"@) by { assert("log"@[0] != "sin"@[0]); }
        assert("log"@ != "rand"@) by { assert("log"@.len() != "rand"@.len()); }
        assert("log"@ != "print"@) by { assert("log"@.len() != "print"@.len()); }
        assert("rand"@ != "sqrt"@) by { assert("rand"@[0] != "sqrt"@[0]); }
        assert("rand"@ != "sin"@) by { assert("rand"@.len() != "sin"@.len()); }
        assert("print"@ != "sqrt"@) by { assert("print"@.len() != "sqrt"@.len()); }
        assert("print"@ != "sin"@) by { assert("print"@.len() != "sin"@.len()); }
        assert("print"@ != "rand"@) by { assert("print"@.len() != "rand"@.len()); }
        assert("PI"@ != "sqrt"@) by { assert("PI"@.len() != "sqrt"@.len()); }
        assert("PI"@ != "sin"@) by { assert("PI"@.len() != "sin"@.len()); }
        assert("PI"@ != "cos"@) by { assert("PI"@.len() != "cos"@.len()); }
        assert("PI"@ != "exp"@) by { assert("PI"@.len() != "exp"@.len()); }
        assert("PI"@ != "log"@) by { assert("PI"@.len() != "log"@.len()); }
        assert("PI"@ != "rand"@) by { assert("PI"@.len() != "rand"@.len()); }
        assert("PI"@ != "print"@) by { assert("PI"@.len() != "print"@.len()); }
        assert("E"@ != "sqrt"@) by { assert("E"@.len() != "sqrt"@.len()); }
        assert("E"@ != "sin"@) by { assert("E"@.len() != "sin"@.len()); }
        assert("E"@ != "cos"@) by { assert("E"@.len() != "cos"@.len()); }
        assert("E"@ != "exp"@) by { assert("E"@.len() != "exp"@.len()); }
        assert("E"@ != "log"@) by { assert("E"@.len() != "log"@.len()); }
        assert("E"@ != "rand"@) by { assert("E"@.len() != "rand"@.len()); }
        assert("E"@ != "print"@) by { assert("E"@.len() != "print"@.len()); }
        assert("E"@ != "PI"@) by { assert("E"@.len() != "PI"@.len()); }
    }
    let number = ctx.types.resolve("Number").unwrap();
    let string = ctx.types.resolve("String").unwrap();
    let ghost c0 = *ctx;
    assert(c0 == *old(ctx));
    let mut p: Vec<TypeId> = Vec::new();
    p.push(number);
    assert(p@ =~= seq![number]);
    declare_builtin_function(ctx, "sqrt", p, number);
    let ghost c1 = *ctx;
    let mut p: Vec<TypeId> = Vec::new();
    p.push(number);
    assert(p@ =~= seq![number]);
    declare_builtin_function(ctx, "sin", p, number);
    let ghost c2 = *ctx;
    let mut p: Vec<TypeId> = Vec::new();
    p.push(number);
    assert(p@ =~= seq![number]);
    declare_builtin_function(ctx, "cos", p, number);
    let ghost c3 = *ctx;
    let mut p: Vec<TypeId> = Vec::new();
    p.push(number);
    assert(p@ =~= seq![number]);
    declare_builtin_function(ctx, "exp", p, number);
    let ghost c4 = *ctx;
    let mut p: Vec<TypeId> = Vec::new();
    p.push(number);
    p.push(number);
    assert(p@ =~= seq![number, number]);
    declare_builtin_function(ctx, "log", p, number);
    let ghost c5 = *ctx;
    let p: Vec<TypeId> = Vec::new();
    assert(p@ =~= Seq::<TypeId>::empty());
    declare_builtin_function(ctx, "rand", p, number);
    let ghost c6 = *ctx;
    let mut p: Vec<TypeId> = Vec::new();
    p.push(string);
    assert(p@ =~= seq![string]);
    declare_builtin_function(ctx, "print", p, string);
    let ghost c7 = *ctx;
    declare_builtin_constant(ctx, "PI", number);
    let ghost c8 = *ctx;
    declare_builtin_constant(ctx, "E", number);
    let ghost c9 = *ctx;
    proof {
        assert(c2.spec_lookup("sqrt"@) == c1.spec_lookup("sqrt"@));
        assert(c3.spec_lookup("sqrt"@) == c2.spec_lookup("sqrt"@));
        assert(c4.spec_lookup("sqrt"@) == c3.spec_lookup("sqrt"@));
        assert(c5.spec_lookup("sqrt"@) == c4.spec_lookup("sqrt"@));
        assert(c6.spec_lookup("sqrt"@) == c5.spec_lookup("sqrt"@));
        assert(c7.spec_lookup("sqrt"@) == c6.spec_lookup("sqrt"@));
        assert(c8.spec_lookup("sqrt"@) == c7.spec_lookup("sqrt"@));
        assert(c9.spec_lookup("sqrt"@) == c8.spec_lookup("sqrt"@));
        assert(c3.spec_lookup("sin"@) == c2.spec_lookup("sin"@));
        assert(c4.spec_lookup("sin"@) == c3.spec_lookup("sin"@));
        assert(c5.spec_lookup("sin"@) == c4.spec_lookup("sin"@));
        assert(c6.spec_lookup("sin"@) == c5.spec_lookup("sin"@));
        assert(c7.spec_lookup("sin"@) == c6.spec_lookup("sin"@));
        assert(c8.spec_lookup("sin"@) == c7.spec_lookup("sin"@));
        assert(c9.spec_lookup("sin"@) == c8.spec_lookup("sin"@));
        assert(c1.spec_lookup("sin"@) == c0.spec_lookup("sin"@));
        assert(c4.spec_lookup("cos"@) == c3.spec_lookup("cos"@));
        assert(c5.spec_lookup("cos"@) == c4.spec_lookup("cos"@));
        assert(c6.spec_lookup("cos"@) == c5.spec_lookup("cos"@));
        assert(c7.spec_lookup("cos"@) == c6.spec_lookup("cos"@));
        assert(c8.spec_lookup("cos"@) == c7.spec_lookup("cos"@));
        assert(c9.spec_lookup("cos"@) == c8.spec_lookup("cos"@));
        assert(c1.spec_lookup("cos"@) == c0.spec_lookup("cos"@));
        assert(c2.spec_lookup("cos"@) == c1.spec_lookup("cos"@));
        assert(c5.spec_lookup("exp"@) == c4.spec_lookup("exp"@));
        assert(c6.spec_lookup("exp"@) == c5.spec_lookup("exp"@));
        assert(c7.spec_lookup("exp"@) == c6.spec_lookup("exp"@));
        assert(c8.spec_lookup("exp"@) == c7.spec_lookup("exp"@));
        assert(c9.spec_lookup("exp"@) == c8.spec_lookup("exp"@));
        assert(c1.spec_lookup("exp"@) == c0.spec_lookup("exp"@));
        assert(c2.spec_lookup("exp"@) == c1.spec_lookup("exp"@));
        assert(c3.spec_lookup("exp"@) == c2.spec_lookup("exp"@));
        assert(c6.spec_lookup("log"@) == c5.spec_lookup("log"@));
        assert(c7.spec_lookup("log"@) == c6.spec_lookup("log"@));
        assert(c8.spec_lookup("log"@) == c7.spec_lookup("log"@));
        assert(c9.spec_lookup("log"@) == c8.spec_lookup("log"@));
        assert(c1.spec_lookup("log"@) == c0.spec_lookup("log"@));
        assert(c2.spec_lookup("log"@) == c1.spec_lookup("log"@));
        assert(c3.spec_lookup("log"@) == c2.spec_lookup("log"@));
        assert(c4.spec_lookup("log"@) == c3.spec_lookup("log"@));
        assert(c7.spec_lookup("rand"@) == c6.spec_lookup("rand"@));
        assert(c8.spec_lookup("rand"@) == c7.spec_lookup("rand"@));
        assert(c9.spec_lookup("rand"@) == c8.spec_lookup("rand"@));
        assert(c1.spec_lookup("rand"@) == c0.spec_lookup("rand"@));
        assert(c2.spec_lookup("rand"@) == c1.spec_lookup("rand"@));
        assert(c3.spec_lookup("rand"@) == c2.spec_lookup("rand"@));
        assert(c4.spec_lookup("rand"@) == c3.spec_lookup("rand"@));
        assert(c5.spec_lookup("rand"@) == c4.spec_lookup("rand"@));
        assert(c8.spec_lookup("print"@) == c7.spec_lookup("print"@));
        assert(c9.spec_lookup("print"@) == c8.spec_lookup("print"@));
        assert(c1.spec_lookup("print"@) == c0.spec_lookup("print"@));
        assert(c2.spec_lookup("print"@) == c1.spec_lookup("print"@));
        assert(c3.spec_lookup("print"@) == c2.spec_lookup("print"@));
        assert(c4.spec_lookup("print"@) == c3.spec_lookup("print"@));
        assert(c5.spec_lookup("print"@) == c4.spec_lookup("print"@));
        assert(c6.spec_lookup("print"@) == c5.spec_lookup("print"@));
        assert(c9.spec_lookup("PI"@) == c8.spec_lookup("PI"@));
        assert(c1.spec_lookup("PI"@) == c0.spec_lookup("PI"@));
        assert(c2.spec_lookup("PI"@) == c1.spec_lookup("PI"@));
        assert(c3.spec_lookup("PI"@) == c2.spec_lookup("PI"@));
        assert(c4.spec_lookup("PI"@) == c3.spec_lookup("PI"@));
        assert(c5.spec_lookup("PI"@) == c4.spec_lookup("PI"@));
        assert(c6.spec_lookup("PI"@) == c5.spec_lookup("PI"@));
        assert(c7.spec_lookup("PI"@) == c6.spec_lookup("PI"@));
        assert(c1.spec_lookup("E"@) == c0.spec_lookup("E"@));
        assert(c2.spec_lookup("E"@) == c1.spec_lookup("E"@));
        assert(c3.spec_lookup("E"@) == c2.spec_lookup("E"@));
        assert(c4.spec_lookup("E"@) == c3.spec_lookup("E"@));
        assert(c5.spec_lookup("E"@) == c4.spec_lookup("E"@));
        assert(c6.spec_lookup("E"@) == c5.spec_lookup("E"@));
        assert(c7.spec_lookup("E"@) == c6.spec_lookup("E"@));
        assert(c8.spec_lookup("E"@) == c7.spec_lookup("E"@));
    }
}


} // verus!
