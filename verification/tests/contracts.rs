use hulk_semantic::analyzer::SemanticAnalyzer;
use hulk_semantic::ast::{Decl, DeclKind, Expr, ExprKind, Literal, LiteralKind, Program, ProgramKind};
use hulk_semantic::error::SemanticErrorKind;
use hulk_semantic::span::Span;
use hulk_semantic::symbols::SymbolType;
use hulk_semantic::types::TypeId;

const OBJECT: TypeId = TypeId(0);
const NUMBER: TypeId = TypeId(1);
const STRING: TypeId = TypeId(2);

fn at(n: usize) -> Span {
    Span::new(n, n + 1)
}

fn number(text: &str) -> Expr {
    Expr { node: ExprKind::Literal(Literal { node: LiteralKind::Number(text.to_string()), span: at(0) }), span: at(0) }
}

fn function(name: &str, span: Span) -> Decl {
    Decl {
        node: DeclKind::Function { name: name.to_string(), params: vec![], return_type: None, body: number("1") },
        span,
    }
}

fn plain_type(name: &str, span: Span) -> Decl {
    Decl { node: DeclKind::Type { name: name.to_string(), params: None, parent: None, features: vec![] }, span }
}

fn param(name: &str, ty: Option<&str>) -> (String, Option<String>) {
    (name.to_string(), ty.map(|t| t.to_string()))
}

#[test]
fn duplicate_declarations_are_reported_at_the_later_one() {
    let decls = vec![function("f", at(1)), plain_type("T", at(2)), function("f", at(3)), plain_type("T", at(4))];
    let program = Program { node: ProgramKind { decls: Some(decls), body: number("42") }, span: at(0) };
    let mut analyzer = SemanticAnalyzer::new();
    let result = analyzer.analyze_program(program);
    assert!(result.is_err());
    assert_eq!(analyzer.diagnostics.len(), 2);
    assert_eq!(analyzer.diagnostics[0].kind, SemanticErrorKind::DuplicateFunction { name: "f".to_string() });
    assert_eq!(analyzer.diagnostics[0].span, at(3));
    assert_eq!(analyzer.diagnostics[1].kind, SemanticErrorKind::DuplicateType { name: "T".to_string() });
    assert_eq!(analyzer.diagnostics[1].span, at(4));
}

#[test]
fn override_lists_each_mismatched_parameter() {
    let mut analyzer = SemanticAnalyzer::new();
    let parent = SymbolType::Function { params: vec![NUMBER, STRING, NUMBER], ret: OBJECT };
    let current = vec![param("x", Some("Number")), param("y", Some("Boolean")), param("z", None)];
    analyzer.validate_method_override_arity_and_params("m", &current, &parent, at(7));
    assert_eq!(analyzer.diagnostics.len(), 2);
    assert_eq!(
        analyzer.diagnostics[0].kind,
        SemanticErrorKind::InvalidOverrideParameterType {
            method: "m".to_string(),
            param_name: "y".to_string(),
            found: "Boolean".to_string(),
            expected: "String".to_string(),
        }
    );
    assert_eq!(
        analyzer.diagnostics[1].kind,
        SemanticErrorKind::InvalidOverrideParameterType {
            method: "m".to_string(),
            param_name: "z".to_string(),
            found: "Object".to_string(),
            expected: "Number".to_string(),
        }
    );
    assert!(analyzer.diagnostics.iter().all(|e| e.span == at(7)));
}

#[test]
fn override_arity_comes_before_parameter_mismatches() {
    let mut analyzer = SemanticAnalyzer::new();
    let parent = SymbolType::Function { params: vec![NUMBER], ret: OBJECT };
    let current = vec![param("x", Some("String")), param("y", None)];
    analyzer.validate_method_override_arity_and_params("m", &current, &parent, at(2));
    assert_eq!(analyzer.diagnostics.len(), 2);
    assert_eq!(
        analyzer.diagnostics[0].kind,
        SemanticErrorKind::InvalidOverrideArity { method: "m".to_string(), found: 2, expected: 1 }
    );
    assert_eq!(
        analyzer.diagnostics[1].kind,
        SemanticErrorKind::InvalidOverrideParameterType {
            method: "m".to_string(),
            param_name: "x".to_string(),
            found: "String".to_string(),
            expected: "Number".to_string(),
        }
    );
}

#[test]
fn new_of_unknown_type_reports_it_first() {
    let mut analyzer = SemanticAnalyzer::new();
    let r = analyzer.analyze_new(&"John".to_string(), &vec![number("1")], at(5));
    assert_eq!(r.ty, OBJECT);
    assert_eq!(analyzer.diagnostics.len(), 1);
    assert_eq!(analyzer.diagnostics[0].kind, SemanticErrorKind::UnknownType { name: "John".to_string() });
    assert_eq!(analyzer.diagnostics[0].span, at(5));
}

#[test]
fn new_with_wrong_arity_reports_it_first() {
    let mut analyzer = SemanticAnalyzer::new();
    let r = analyzer.analyze_new(&"Number".to_string(), &vec![number("1")], at(6));
    assert_eq!(r.ty, NUMBER);
    assert_eq!(analyzer.diagnostics.len(), 1);
    assert_eq!(
        analyzer.diagnostics[0].kind,
        SemanticErrorKind::InvalidConstructorArity { ty_name: "Number".to_string(), expected: 0, found: 1 }
    );
}

#[test]
fn base_outside_a_method_is_invalid() {
    let mut analyzer = SemanticAnalyzer::new();
    let r = analyzer.analyze_base_call(&"base".to_string(), &vec![], at(3));
    assert_eq!(r.ty, OBJECT);
    assert_eq!(analyzer.diagnostics.len(), 1);
    assert_eq!(analyzer.diagnostics[0].kind, SemanticErrorKind::InvalidBaseUsage);
}

#[test]
fn generic_function_keeps_its_known_parameter_types() {
    let f = Decl {
        node: DeclKind::Function {
            name: "f".to_string(),
            params: vec![param("x", Some("Number")), param("y", None)],
            return_type: None,
            body: Expr { node: ExprKind::Variable("x".to_string()), span: at(0) },
        },
        span: at(1),
    };
    let program = Program { node: ProgramKind { decls: Some(vec![f]), body: number("42") }, span: at(0) };
    let mut analyzer = SemanticAnalyzer::new();
    let result = analyzer.analyze_program(program);
    assert!(result.is_ok());
    match analyzer.ctx.lookup("f").map(|s| s.ty.clone()) {
        Some(SymbolType::GenericFunction { param_types, param_protocol_constraints, ret_type }) => {
            assert_eq!(param_types, vec![Some(NUMBER), None]);
            assert_eq!(param_protocol_constraints, vec![None, None]);
            assert_eq!(ret_type, None);
        },
        other => panic!("expected a generic function, got {:?}", other),
    }
}

fn protocol(name: &str, parents: Option<Vec<&str>>, span: Span) -> Decl {
    Decl {
        node: DeclKind::Protocol {
            name: name.to_string(),
            parents: parents.map(|ps| ps.iter().map(|p| p.to_string()).collect()),
            methods: vec![],
        },
        span,
    }
}

#[test]
fn fresh_names_are_collected_without_errors() {
    let decls = vec![function("f", at(1)), plain_type("T", at(2)), protocol("P", None, at(3))];
    let mut analyzer = SemanticAnalyzer::new();
    analyzer.collect_declarations(&decls);
    assert!(analyzer.diagnostics.is_empty());
    let t = analyzer.ctx.types.resolve("T").unwrap();
    assert_eq!(analyzer.ctx.types.get(t).parent, None);
    assert!(!analyzer.ctx.types.get(t).is_protocol());
    let p = analyzer.ctx.types.resolve("P").unwrap();
    assert!(analyzer.ctx.types.get(p).is_protocol());
}

#[test]
fn extending_an_unknown_protocol_is_reported_and_stops_the_passes() {
    let decls = vec![protocol("P", Some(vec!["Missing"]), at(5)), function("f", at(6))];
    let mut analyzer = SemanticAnalyzer::new();
    analyzer.collect_declarations(&decls);
    let typed = analyzer.analyze_declarations(&decls);
    assert_eq!(typed.map(|v| v.len()), Some(0));
    assert_eq!(analyzer.diagnostics.len(), 1);
    assert_eq!(analyzer.diagnostics[0].kind, SemanticErrorKind::UnknownType { name: "Missing".to_string() });
    assert_eq!(analyzer.diagnostics[0].span, at(5));
}

#[test]
fn generic_functions_are_kept_and_not_analysed() {
    let generic = Decl {
        node: DeclKind::Function {
            name: "id".to_string(),
            params: vec![param("x", None)],
            return_type: None,
            body: number("1"),
        },
        span: at(8),
    };
    let concrete = Decl {
        node: DeclKind::Function {
            name: "f".to_string(),
            params: vec![],
            return_type: Some("Number".to_string()),
            body: number("1"),
        },
        span: at(9),
    };
    let decls = vec![generic, concrete];
    let mut analyzer = SemanticAnalyzer::new();
    analyzer.collect_declarations(&decls);
    let typed = analyzer.analyze_declarations(&decls).unwrap();
    assert_eq!(typed.len(), 1);
    assert_eq!(typed[0].span, at(9));
    assert!(analyzer.ctx.has_generic_decl("id"));
    assert!(!analyzer.ctx.has_generic_decl("f"));
}

#[test]
fn instances_are_handed_over_and_kept() {
    let generic = Decl {
        node: DeclKind::Function {
            name: "id".to_string(),
            params: vec![param("x", None)],
            return_type: None,
            body: Expr { node: ExprKind::Variable("x".to_string()), span: at(2) },
        },
        span: at(1),
    };
    let text = Expr {
        node: ExprKind::Literal(Literal { node: LiteralKind::String("a".to_string()), span: at(0) }),
        span: at(0),
    };
    let calls = vec![
        Expr { node: ExprKind::Call { name: "id".to_string(), args: vec![number("1")] }, span: at(3) },
        Expr { node: ExprKind::Call { name: "id".to_string(), args: vec![text] }, span: at(4) },
        Expr { node: ExprKind::Call { name: "id".to_string(), args: vec![number("2")] }, span: at(5) },
    ];
    let body = Expr { node: ExprKind::Block(calls), span: at(6) };
    let program = Program { node: ProgramKind { decls: Some(vec![generic]), body }, span: at(0) };
    let mut analyzer = SemanticAnalyzer::new();
    let typed = analyzer.analyze_program(program).unwrap();
    let handed: Vec<String> = typed
        .node
        .monomorphized_functions
        .iter()
        .map(|d| match &d.node {
            hulk_semantic::hir::TypedDeclKind::Function { name, .. } => name.clone(),
            _ => String::new(),
        })
        .collect();
    let kept: Vec<String> = analyzer
        .ctx
        .generic_instances
        .iter()
        .map(|(_, d)| match &d.node {
            hulk_semantic::hir::TypedDeclKind::Function { name, .. } => name.clone(),
            _ => String::new(),
        })
        .collect();
    assert_eq!(handed, vec!["id$Number".to_string(), "id$String".to_string()]);
    assert_eq!(kept, handed);
}

fn protocol_with(name: &str, parents: Option<Vec<&str>>, methods: Vec<&str>, span: Span) -> Decl {
    Decl {
        node: DeclKind::Protocol {
            name: name.to_string(),
            parents: parents.map(|ps| ps.iter().map(|p| p.to_string()).collect()),
            methods: methods
                .iter()
                .map(|m| hulk_semantic::ast::ProtocolMethod {
                    node: hulk_semantic::ast::ProtocolMethodKind {
                        name: m.to_string(),
                        params: vec![],
                        return_type: Some("Number".to_string()),
                    },
                    span,
                })
                .collect(),
        },
        span,
    }
}

#[test]
fn a_method_declared_by_two_reached_protocols_collides() {
    let decls = vec![
        protocol_with("A", None, vec!["size"], at(1)),
        protocol_with("B", Some(vec!["A"]), vec!["size", "name"], at(2)),
    ];
    let mut analyzer = SemanticAnalyzer::new();
    analyzer.collect_declarations(&decls);
    assert!(analyzer.register_signatures(&decls));
    let a = analyzer.ctx.types.resolve("A").unwrap();
    let b_id = analyzer.ctx.types.resolve("B").unwrap();
    match &analyzer.ctx.types.get(b_id).kind {
        hulk_semantic::types::TypeKind::Protocol { parents } => assert_eq!(parents, &vec![a]),
        _ => panic!("B is a protocol"),
    }
    assert!(analyzer.check_circular_protocols_extension(&decls));
    analyzer.collect_extended_methods(&decls);
    assert_eq!(analyzer.diagnostics.len(), 1);
    match &analyzer.diagnostics[0].kind {
        SemanticErrorKind::ProtocolMethodCollision { method_name, .. } => assert_eq!(method_name, "size"),
        other => panic!("unexpected error {:?}", other),
    }
    let b = analyzer.ctx.types.resolve("B").unwrap();
    let names: Vec<String> = analyzer.ctx.types.get(b).methods.iter().map(|m| m.name.clone()).collect();
    assert_eq!(names.len(), 2);
    assert!(names.contains(&"size".to_string()));
    assert!(names.contains(&"name".to_string()));
}

#[test]
fn a_cycle_of_extensions_is_reported_once() {
    let decls = vec![protocol_with("A", Some(vec!["B"]), vec![], at(1)), protocol_with("B", Some(vec!["A"]), vec![], at(2))];
    let mut analyzer = SemanticAnalyzer::new();
    analyzer.collect_declarations(&decls);
    assert!(analyzer.register_signatures(&decls));
    assert!(!analyzer.check_circular_protocols_extension(&decls));
    assert_eq!(analyzer.diagnostics.len(), 1);
    assert!(matches!(analyzer.diagnostics[0].kind, SemanticErrorKind::CyclicProtocolExtension { .. }));
}

#[test]
fn declared_constructor_parameters_are_registered() {
    let decl = Decl {
        node: DeclKind::Type {
            name: "P".to_string(),
            params: Some(vec![param("x", Some("Number")), param("y", None), param("z", Some("Nope"))]),
            parent: None,
            features: vec![],
        },
        span: at(1),
    };
    let decls = vec![decl];
    let mut analyzer = SemanticAnalyzer::new();
    analyzer.collect_declarations(&decls);
    assert!(analyzer.register_signatures(&decls));
    let p = analyzer.ctx.types.resolve("P").unwrap();
    let declared = analyzer.ctx.types.get(p).declared_constructor_params.as_ref().unwrap();
    let seen: Vec<(String, Option<TypeId>)> = declared.iter().map(|c| (c.name.clone(), c.ty)).collect();
    assert_eq!(
        seen,
        vec![("x".to_string(), Some(NUMBER)), ("y".to_string(), None), ("z".to_string(), None)]
    );
}
