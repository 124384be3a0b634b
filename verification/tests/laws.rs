use hulk_semantic::context::SemanticContext;
use hulk_semantic::error::{decimal_string, SemanticError, SemanticErrorKind};
use hulk_semantic::hir::{DeclSpanned, TypedDeclKind, TypedExprKind, TypedSpanned};
use hulk_semantic::span::Span;
use hulk_semantic::symbols::{Symbol, SymbolKind, SymbolType};
use hulk_semantic::types::{TypeId, TypeTable};

const OBJECT: TypeId = TypeId(0);
const NUMBER: TypeId = TypeId(1);
const STRING: TypeId = TypeId(2);
const BOOLEAN: TypeId = TypeId(3);

fn variable(name: &str, ty: TypeId) -> Symbol {
    Symbol { name: name.to_string(), kind: SymbolKind::Variable, ty: SymbolType::Variable(ty), span: Span::new(0, 0) }
}

fn type_of(sym: Option<&Symbol>) -> Option<TypeId> {
    match sym {
        Some(Symbol { ty: SymbolType::Variable(t), .. }) => Some(*t),
        _ => None,
    }
}

/// Object <- A <- B, A <- C, Object <- D.
fn hierarchy() -> (TypeTable, TypeId, TypeId, TypeId, TypeId) {
    let mut t = TypeTable::new();
    let a = t.insert("A".to_string(), Some(OBJECT)).unwrap();
    let b = t.insert("B".to_string(), Some(a)).unwrap();
    let c = t.insert("C".to_string(), Some(a)).unwrap();
    let d = t.insert("D".to_string(), None).unwrap();
    (t, a, b, c, d)
}

#[test]
fn builtin_types_come_first() {
    let t = TypeTable::new();
    assert_eq!(t.resolve("Object"), Some(OBJECT));
    assert_eq!(t.resolve("Number"), Some(NUMBER));
    assert_eq!(t.resolve("String"), Some(STRING));
    assert_eq!(t.resolve("Boolean"), Some(BOOLEAN));
    assert_eq!(t.resolve("Missing"), None);
    assert_eq!(t.get_parent(NUMBER), Some(OBJECT));
    assert_eq!(t.get_parent(OBJECT), None);
}

#[test]
fn law_subtype_reflexive_on_values() {
    let (t, a, b, _, d) = hierarchy();
    for id in [OBJECT, NUMBER, STRING, BOOLEAN, a, b, d] {
        assert!(t.is_subtype_of(id, id));
    }
}

#[test]
fn law_object_is_top_on_values() {
    let (t, a, b, c, d) = hierarchy();
    for id in [NUMBER, STRING, BOOLEAN, a, b, c, d] {
        assert!(t.is_subtype_of(id, OBJECT));
    }
    assert!(!t.is_subtype_of(OBJECT, NUMBER));
}

#[test]
fn law_ancestor_is_supertype_on_values() {
    let (t, a, b, c, d) = hierarchy();
    assert!(t.is_subtype_of(b, a));
    assert!(t.is_subtype_of(c, a));
    assert!(!t.is_subtype_of(a, b));
    assert!(!t.is_subtype_of(b, c));
    assert!(!t.is_subtype_of(d, a));
    assert!(!t.is_subtype_of(NUMBER, STRING));
}

#[test]
fn law_common_ancestor_on_values() {
    let (t, a, b, c, d) = hierarchy();
    assert_eq!(t.find_lca(b, b), b);
    assert_eq!(t.find_lca(b, c), a);
    assert_eq!(t.find_lca(c, b), a);
    assert_eq!(t.find_lca(b, a), a);
    assert_eq!(t.find_lca(b, NUMBER), OBJECT);
    assert_eq!(t.find_lca(b, d), OBJECT);
    let j = t.find_lca(b, c);
    assert!(t.is_subtype_of(b, j) && t.is_subtype_of(c, j));
}

#[test]
fn law_inserted_type_resolves_on_values() {
    let mut t = TypeTable::new();
    let a = t.insert("A".to_string(), None);
    assert_eq!(a, Some(TypeId(4)));
    assert_eq!(t.resolve("A"), Some(TypeId(4)));
    assert_eq!(t.insert("A".to_string(), None), None);
    assert_eq!(t.insert("Number".to_string(), None), None);
    assert_eq!(t.get(TypeId(4)).name, "A");
}

#[test]
fn protocol_extension_is_subtyping() {
    let mut t = TypeTable::new();
    let p = t.insert_protocol_placeholder("P".to_string()).unwrap();
    let q = t.insert_protocol_placeholder("Q".to_string()).unwrap();
    t.set_protocol_parents(q, vec![p]);
    assert!(t.is_subtype_of(q, p));
    assert!(!t.is_subtype_of(p, q));
    assert!(t.get(p).is_protocol());
}

#[test]
fn law_closed_scope_forgets_on_values() {
    let mut c = SemanticContext::new();
    assert!(c.declare(variable("x", NUMBER)));
    c.push_scope();
    assert!(c.declare(variable("x", STRING)));
    assert!(c.declare(variable("y", BOOLEAN)));
    assert_eq!(type_of(c.lookup("x")), Some(STRING));
    c.pop_scope();
    assert_eq!(type_of(c.lookup("x")), Some(NUMBER));
    assert!(c.lookup("y").is_none());
}

#[test]
fn law_no_redeclaration_on_values() {
    let mut c = SemanticContext::new();
    assert!(c.declare(variable("x", NUMBER)));
    assert!(!c.declare(variable("x", STRING)));
    assert_eq!(type_of(c.lookup("x")), Some(NUMBER));
}

#[test]
fn update_symbol_type_changes_innermost() {
    let mut c = SemanticContext::new();
    assert!(c.declare(variable("x", NUMBER)));
    assert!(c.update_symbol_type("x", SymbolType::Variable(STRING)));
    assert_eq!(type_of(c.lookup("x")), Some(STRING));
    assert!(!c.update_symbol_type("z", SymbolType::Variable(STRING)));
}

#[test]
fn law_mark_then_unmark_restores_on_values() {
    let mut c = SemanticContext::new();
    let k1 = ("f".to_string(), vec![NUMBER]);
    let k2 = ("f".to_string(), vec![STRING]);
    c.mark_in_progress(k2.clone());
    assert!(!c.is_in_progress(&k1));
    c.mark_in_progress(k1.clone());
    assert!(c.is_in_progress(&k1));
    c.unmark_in_progress(&k1);
    assert!(!c.is_in_progress(&k1));
    assert!(c.is_in_progress(&k2));
}

#[test]
fn mangled_names() {
    let c = SemanticContext::new();
    assert_eq!(c.mangle_instance_name("id", &[]), "id");
    assert_eq!(c.mangle_instance_name("id", &[NUMBER]), "id$Number");
    assert_eq!(c.mangle_instance_name("pair", &[NUMBER, STRING]), "pair$Number$String");
    assert_eq!(c.mangle_method_instance_name(BOOLEAN, "f", &[OBJECT]), "Boolean$f$Object");
}

#[test]
fn decimal_strings() {
    assert_eq!(decimal_string(0), "0");
    assert_eq!(decimal_string(7), "7");
    assert_eq!(decimal_string(42), "42");
    assert_eq!(decimal_string(1000), "1000");
}

#[test]
fn error_messages() {
    let k = SemanticErrorKind::DuplicateType { name: "A".to_string() };
    assert_eq!(k.message(), "duplicate type 'A'");
    let k = SemanticErrorKind::TypeMismatch { expected: "Number".to_string(), found: "Boolean".to_string() };
    assert_eq!(k.message(), "type mismatch: expected 'Number', found 'Boolean'");
    assert_eq!(SemanticErrorKind::InvalidAssignmentTarget.message(), "invalid assignment target");
    let k = SemanticErrorKind::InvalidCast { from: "Number".to_string(), to: "String".to_string() };
    assert_eq!(k.message(), "cannot cast expression of type 'Number' to completely unrelated type 'String'");
    let k = SemanticErrorKind::UndefinedFunction { name: "g".to_string() };
    assert_eq!(k.message(), "function or method 'g' is not defined in this scope");
    let k = SemanticErrorKind::InvalidInheritanceArity { parent: "B".to_string(), expected: 1, found: 12 };
    assert_eq!(k.message(), "type 'B' expects '1' arguments in its constructor, but '12' were passed");
    let k = SemanticErrorKind::FunctionArgumentTypeMismatch {
        name: "f".to_string(),
        index: 2,
        expected: "Number".to_string(),
        found: "String".to_string(),
    };
    assert_eq!(k.message(), "type mismatch in call to 'f': argument '2' expects 'Number', found 'String'");
}

#[test]
fn error_new_keeps_kind_and_span() {
    let e = SemanticError::new(SemanticErrorKind::InvalidAssignmentTarget, Span::new(3, 9));
    assert_eq!(e.kind, SemanticErrorKind::InvalidAssignmentTarget);
    assert_eq!(e.span, Span::new(3, 9));
}

#[test]
fn span_union_covers_both() {
    let s = Span::new(4, 8).union(&Span::new(2, 6));
    assert_eq!(s, Span::new(2, 8));
}

fn instance(name: &str, ret: TypeId) -> hulk_semantic::hir::TypedDecl {
    DeclSpanned::new(
        TypedDeclKind::Function {
            name: name.to_string(),
            params: vec![],
            return_type: ret,
            body: TypedSpanned::new(TypedExprKind::Block(vec![]), ret, Span::new(0, 0)),
        },
        Span::new(0, 0),
    )
}

fn instance_return(c: &SemanticContext, key: &(String, Vec<TypeId>)) -> Option<TypeId> {
    c.get_instance(key).map(|d| d.node_return_type())
}

#[test]
fn instances_read_back_what_was_written() {
    let mut c = SemanticContext::new();
    let k1 = ("f".to_string(), vec![NUMBER]);
    let k2 = ("f".to_string(), vec![STRING]);
    assert_eq!(instance_return(&c, &k1), None);
    c.insert_instance(k1.clone(), instance("f$Number", NUMBER));
    c.insert_instance(k2.clone(), instance("f$String", STRING));
    assert_eq!(instance_return(&c, &k1), Some(NUMBER));
    assert_eq!(instance_return(&c, &k2), Some(STRING));
    c.insert_instance(k1.clone(), instance("f$Number", BOOLEAN));
    assert_eq!(instance_return(&c, &k1), Some(BOOLEAN));
    assert_eq!(instance_return(&c, &k2), Some(STRING));
    assert_eq!(c.generic_instances.len(), 2);
}

fn method_sym(name: &str, params: Vec<TypeId>, ret: TypeId) -> Symbol {
    Symbol { name: name.to_string(), kind: SymbolKind::Function, ty: SymbolType::Function { params, ret }, span: Span::new(0, 0) }
}

#[test]
fn law_added_members_are_found_on_values() {
    let (mut t, a, b, _, d) = hierarchy();
    assert!(t.insert_method(a, method_sym("f", vec![NUMBER], STRING)));
    assert_eq!(t.lookup_method(a, "f"), Some((vec![NUMBER], STRING)));
    assert_eq!(t.lookup_method(b, "f"), Some((vec![NUMBER], STRING)));
    assert_eq!(t.lookup_method(d, "f"), None);
    assert_eq!(t.get_method(b, "f").map(|m| m.name.clone()), Some("f".to_string()));
    assert!(!t.insert_method(a, method_sym("f", vec![NUMBER], BOOLEAN)));
    assert_eq!(t.lookup_method(b, "f"), Some((vec![NUMBER], BOOLEAN)));
    assert!(t.insert_method(b, method_sym("f", vec![], NUMBER)));
    assert_eq!(t.lookup_method(b, "f"), Some((vec![], NUMBER)));
    assert!(t.insert_attribute(a, variable("x", NUMBER)));
    assert!(!t.insert_attribute(a, variable("x", STRING)));
    assert_eq!(t.lookup_attribute(a, "x"), Some(NUMBER));
    assert_eq!(t.lookup_attribute(b, "x"), Some(NUMBER));
    assert_eq!(t.lookup_attribute(d, "x"), None);
}

#[test]
fn class_satisfies_protocol_structurally() {
    // protocol P { f(x: Number): Object }  class A { f(x: Object): String }  class D {}
    let (mut t, a, _, _, d) = hierarchy();
    let p = t.insert_protocol_placeholder("P".to_string()).unwrap();
    assert!(t.insert_method(p, method_sym("f", vec![NUMBER], OBJECT)));
    assert!(t.insert_method(a, method_sym("f", vec![OBJECT], STRING)));
    assert!(t.is_subtype_of(a, p));
    assert!(!t.is_subtype_of(d, p));
    assert!(!t.is_subtype_of(NUMBER, p));
}

#[test]
fn law_subtype_transitive_on_values() {
    let (mut t, a, b, _, _) = hierarchy();
    let e = t.insert("E".to_string(), Some(b)).unwrap();
    assert!(t.is_subtype_of(e, b));
    assert!(t.is_subtype_of(b, a));
    assert!(t.is_subtype_of(e, a));
    assert!(t.is_subtype_of(e, OBJECT));
    assert_eq!(t.find_lca(e, a), a);
}
