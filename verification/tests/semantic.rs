use hulk_semantic::analyzer::SemanticAnalyzer;
use hulk_semantic::ast::{
    BinaryOp, BinaryOpKind, Decl, DeclKind, Expr, ExprKind, InheritInfo, InheritInfoKind, Literal, LiteralKind, Program,
    ProgramKind, TypeFeatures, TypeFeaturesKind, UnaryOp, UnaryOpKind,
};
use hulk_semantic::span::Span;

fn sp() -> Span {
    Span::new(0, 0)
}

fn ex(node: ExprKind) -> Expr {
    Expr { node, span: sp() }
}

fn num(text: &str) -> Expr {
    ex(ExprKind::Literal(Literal { node: LiteralKind::Number(text.to_string()), span: sp() }))
}

fn text(s: &str) -> Expr {
    ex(ExprKind::Literal(Literal { node: LiteralKind::String(s.to_string()), span: sp() }))
}

fn boolean(b: bool) -> Expr {
    ex(ExprKind::Literal(Literal { node: LiteralKind::Bool(b), span: sp() }))
}

fn var(name: &str) -> Expr {
    ex(ExprKind::Variable(name.to_string()))
}

fn block(es: Vec<Expr>) -> Expr {
    ex(ExprKind::Block(es))
}

fn bin(l: Expr, op: BinaryOpKind, r: Expr) -> Expr {
    ex(ExprKind::Binary { left_expr: Box::new(l), op: BinaryOp { node: op, span: sp() }, right_expr: Box::new(r) })
}

fn un(op: UnaryOpKind, e: Expr) -> Expr {
    ex(ExprKind::Unary { op: UnaryOp { node: op, span: sp() }, expr: Box::new(e) })
}

fn call(name: &str, args: Vec<Expr>) -> Expr {
    ex(ExprKind::Call { name: name.to_string(), args })
}

fn new_of(ty: &str, args: Vec<Expr>) -> Expr {
    ex(ExprKind::New { annotation: ty.to_string(), args })
}

fn let_in(name: &str, annotation: Option<&str>, value: Expr, body: Expr) -> Expr {
    ex(ExprKind::Let {
        name: name.to_string(),
        annotation: annotation.map(|a| a.to_string()),
        value: Box::new(value),
        body: Box::new(body),
    })
}

fn if_else(c: Expr, t: Expr, e: Option<Expr>) -> Expr {
    ex(ExprKind::If { condition: Box::new(c), then_branch: Box::new(t), else_branch: e.map(Box::new) })
}

fn while_do(c: Expr, body: Expr) -> Expr {
    ex(ExprKind::While { condition: Box::new(c), body: Box::new(body) })
}

fn assign(target: Expr, value: Expr) -> Expr {
    ex(ExprKind::Assign { target: Box::new(target), value: Box::new(value) })
}

fn prop(obj: Expr, name: &str) -> Expr {
    ex(ExprKind::PropertyAccess { obj: Box::new(obj), property: name.to_string() })
}

fn mcall(obj: Expr, method: &str, args: Vec<Expr>) -> Expr {
    ex(ExprKind::MethodCall { obj: Box::new(obj), method: method.to_string(), args })
}

fn is_of(e: Expr, ty: &str) -> Expr {
    ex(ExprKind::Is { expr: Box::new(e), annotation: ty.to_string() })
}

fn as_of(e: Expr, ty: &str) -> Expr {
    ex(ExprKind::As { expr: Box::new(e), annotation: ty.to_string() })
}

fn params(ps: &[(&str, Option<&str>)]) -> Vec<(String, Option<String>)> {
    ps.iter().map(|(n, t)| (n.to_string(), t.map(|x| x.to_string()))).collect()
}

fn func(name: &str, ps: &[(&str, Option<&str>)], ret: Option<&str>, body: Expr) -> Decl {
    Decl {
        node: DeclKind::Function {
            name: name.to_string(),
            params: params(ps),
            return_type: ret.map(|r| r.to_string()),
            body,
        },
        span: sp(),
    }
}

fn type_decl(
    name: &str,
    ps: Option<&[(&str, Option<&str>)]>,
    parent: Option<(&str, Option<Vec<Expr>>)>,
    features: Vec<TypeFeatures>,
) -> Decl {
    Decl {
        node: DeclKind::Type {
            name: name.to_string(),
            params: ps.map(params),
            parent: parent.map(|(p, args)| InheritInfo {
                node: InheritInfoKind { parent_name: p.to_string(), args },
                span: sp(),
            }),
            features,
        },
        span: sp(),
    }
}

fn attr(name: &str, annotation: Option<&str>, default: Option<Expr>) -> TypeFeatures {
    TypeFeatures {
        node: TypeFeaturesKind::Attribute {
            name: name.to_string(),
            annotation: annotation.map(|a| a.to_string()),
            default,
        },
        span: sp(),
    }
}

fn method(name: &str, ps: &[(&str, Option<&str>)], ret: Option<&str>, body: Expr) -> TypeFeatures {
    TypeFeatures {
        node: TypeFeaturesKind::Method {
            name: name.to_string(),
            params: params(ps),
            return_type: ret.map(|r| r.to_string()),
            body,
        },
        span: sp(),
    }
}

fn program(decls: Vec<Decl>, body: Expr) -> Program {
    let decls = if decls.is_empty() { None } else { Some(decls) };
    Program { node: ProgramKind { decls, body }, span: sp() }
}

fn analyze(p: Program) -> (SemanticAnalyzer, Result<hulk_semantic::hir::TypedProgram, Vec<hulk_semantic::error::SemanticError>>) {
    let mut analyzer = SemanticAnalyzer::new();
    let result = analyzer.analyze_program(p);
    (analyzer, result)
}
use hulk_semantic::error::SemanticErrorKind;
use hulk_semantic::hir::TypedDeclKind;

fn s(x: &str) -> String {
    x.to_string()
}

#[test]
fn semantic_unit_test_check_function_err() {
    // function a(): Number { 42; "hello"; }  42;
    let p = program(vec![func("a", &[], Some("Number"), block(vec![num("42"), text("hello")]))], num("42"));
    let (analyzer, _) = analyze(p);
    assert_eq!(analyzer.diagnostics.len(), 1);
    assert_eq!(
        analyzer.diagnostics[0].kind,
        SemanticErrorKind::FunctionReturnTypeMismatch { function: s("a"), expected: s("Number"), found: s("String") }
    );
}

#[test]
fn semantic_unit_test_check_type_err() {
    // type A(a: B, a: Number) {}  42;
    let p = program(vec![type_decl("A", Some(&[("a", Some("B")), ("a", Some("Number"))]), None, vec![])], num("42"));
    let (analyzer, result) = analyze(p);
    assert!(analyzer.diagnostics.is_empty(), "{:?}", analyzer.diagnostics);
    assert!(result.unwrap().node.monomorphized_types.is_empty());
}

#[test]
fn semantic_unit_test_check_type_inheritance_err() {
    // type B(a: Number) {}  type C inherits B(1, 2) {}  type D inherits B("hello") {}  type E inherits John {}
    let p = program(
        vec![
            type_decl("B", Some(&[("a", Some("Number"))]), None, vec![]),
            type_decl("C", None, Some(("B", Some(vec![num("1"), num("2")]))), vec![]),
            type_decl("D", None, Some(("B", Some(vec![text("hello")]))), vec![]),
            type_decl("E", None, Some(("John", None)), vec![]),
        ],
        num("42"),
    );
    let (analyzer, _) = analyze(p);
    assert_eq!(analyzer.diagnostics.len(), 3);
    assert_eq!(
        analyzer.diagnostics[0].kind,
        SemanticErrorKind::InvalidInheritanceArity { parent: s("B"), expected: 1, found: 2 }
    );
    assert_eq!(
        analyzer.diagnostics[1].kind,
        SemanticErrorKind::InheritanceArgumentTypeMismatch {
            parent: s("B"),
            param: s("a"),
            expected: s("Number"),
            found: s("String")
        }
    );
    assert_eq!(analyzer.diagnostics[2].kind, SemanticErrorKind::UnknownParentType { child: s("E"), parent: s("John") });
}

#[test]
fn semantic_unit_test_check_type_attributes_err() {
    // type E { e: John = 1; f: Number = "hello"; f = 2; }
    let p = program(
        vec![type_decl(
            "E",
            None,
            None,
            vec![
                attr("e", Some("John"), Some(num("1"))),
                attr("f", Some("Number"), Some(text("hello"))),
                attr("f", None, Some(num("2"))),
            ],
        )],
        num("42"),
    );
    let (analyzer, _) = analyze(p);
    assert_eq!(analyzer.diagnostics.len(), 3);
    assert_eq!(
        analyzer.diagnostics[0].kind,
        SemanticErrorKind::UnknownTypeInAttribute { ty_name: s("John"), attribute: s("e") }
    );
    assert_eq!(
        analyzer.diagnostics[1].kind,
        SemanticErrorKind::AttributeTypeMismatch { attribute: s("f"), expected: s("Number"), found: s("String") }
    );
    assert_eq!(analyzer.diagnostics[2].kind, SemanticErrorKind::DuplicateAttribute { ty_name: s("E"), attribute: s("f") });
}

#[test]
fn semantic_unit_test_check_type_method_err() {
    // type E { m(a: John): John => 1; n(): Number => "hello"; }
    let p = program(
        vec![type_decl(
            "E",
            None,
            None,
            vec![
                method("m", &[("a", Some("John"))], Some("John"), num("1")),
                method("n", &[], Some("Number"), text("hello")),
            ],
        )],
        num("42"),
    );
    let (analyzer, _) = analyze(p);
    assert_eq!(analyzer.diagnostics.len(), 3);
    assert_eq!(
        analyzer.diagnostics[0].kind,
        SemanticErrorKind::UnknownTypeInMethodParameter { method: s("m"), param: s("a"), ty_name: s("John") }
    );
    assert_eq!(
        analyzer.diagnostics[1].kind,
        SemanticErrorKind::UnknownReturnTypeInMethod { method: s("m"), ty_name: s("John") }
    );
    assert_eq!(
        analyzer.diagnostics[2].kind,
        SemanticErrorKind::MethodReturnTypeMismatch { method: s("n"), expected: s("Number"), found: s("String") }
    );
}

#[test]
fn semantic_unit_test_check_type_method_override_ok() {
    // type A() { f(x: Number): Number => x; }
    // type B inherits A { f(): String => "hello"; }
    // type C inherits A { f(x: Boolean): Number => 1; }
    let p = program(
        vec![
            type_decl("A", Some(&[]), None, vec![method("f", &[("x", Some("Number"))], Some("Number"), var("x"))]),
            type_decl("B", None, Some(("A", None)), vec![method("f", &[], Some("String"), text("hello"))]),
            type_decl("C", None, Some(("A", None)), vec![method("f", &[("x", Some("Boolean"))], Some("Number"), num("1"))]),
        ],
        num("42"),
    );
    let (analyzer, _) = analyze(p);
    for semantic_error in &analyzer.diagnostics {
        println!("{:?}", semantic_error);
    }
    assert_eq!(analyzer.diagnostics.len(), 3);
    assert_eq!(
        analyzer.diagnostics[0].kind,
        SemanticErrorKind::InvalidOverrideArity { method: s("f"), found: 0, expected: 1 }
    );
    assert_eq!(
        analyzer.diagnostics[1].kind,
        SemanticErrorKind::InvalidOverrideReturnType { method: s("f"), found: s("String"), expected: s("Number") }
    );
    assert_eq!(
        analyzer.diagnostics[2].kind,
        SemanticErrorKind::InvalidOverrideParameterType {
            method: s("f"),
            param_name: s("x"),
            found: s("Boolean"),
            expected: s("Number")
        }
    );
}

fn inheritance_chain(d_parent: Option<&str>) -> Program {
    program(
        vec![
            type_decl("A", None, Some(("B", None)), vec![]),
            type_decl("B", None, Some(("C", None)), vec![]),
            type_decl("C", None, Some(("D", None)), vec![]),
            type_decl("E", None, Some(("D", None)), vec![]),
            type_decl("F", None, Some(("A", None)), vec![]),
            type_decl("X", None, Some(("E", None)), vec![]),
            type_decl("D", None, d_parent.map(|p| (p, None)), vec![]),
        ],
        num("42"),
    )
}

#[test]
fn semantic_unit_test_circular_inheritance_ok() {
    let (analyzer, _) = analyze(inheritance_chain(None));
    assert_eq!(analyzer.diagnostics.len(), 0);
}

#[test]
fn semantic_unit_test_circular_inheritance_err() {
    let (analyzer, _) = analyze(inheritance_chain(Some("F")));
    assert_eq!(analyzer.diagnostics.len(), 1);
    assert_eq!(analyzer.diagnostics[0].kind, SemanticErrorKind::CyclicInheritance { name: s("A") });
}

#[test]
fn semantic_unit_test_register_inherits_primitive() {
    // type A inherits Number { a = 1; }  42;
    let p = program(vec![type_decl("A", None, Some(("Number", None)), vec![attr("a", None, Some(num("1")))])], num("42"));
    let (analyzer, _) = analyze(p);
    assert_eq!(analyzer.diagnostics.len(), 1);
    assert_eq!(
        analyzer.diagnostics[0].kind,
        SemanticErrorKind::InvalidInheritanceFromPrimitive { child: s("A"), parent: s("Number") }
    );
}

#[test]
fn semantic_unit_test_assign_err() {
    // type A { f() { self := new A(); let a: Number = 1 in { a := true; }; } }  42;
    let body = block(vec![
        assign(var("self"), new_of("A", vec![])),
        let_in("a", Some("Number"), num("1"), block(vec![assign(var("a"), boolean(true))])),
    ]);
    let p = program(vec![type_decl("A", None, None, vec![method("f", &[], None, body)])], num("42"));
    let (analyzer, _) = analyze(p);
    assert_eq!(analyzer.diagnostics.len(), 2);
    assert_eq!(analyzer.diagnostics[0].kind, SemanticErrorKind::InvalidAssignmentTarget);
    assert_eq!(
        analyzer.diagnostics[1].kind,
        SemanticErrorKind::TypeMismatch { expected: s("Number"), found: s("Boolean") }
    );
}

#[test]
fn semantic_unit_test_binary_err() {
    let body = block(vec![
        bin(num("22"), BinaryOpKind::Add, text("a")),
        bin(num("2"), BinaryOpKind::LessEqual, boolean(true)),
        bin(num("3"), BinaryOpKind::And, text("a")),
        bin(num("2"), BinaryOpKind::Concat, boolean(true)),
        bin(num("2"), BinaryOpKind::DoubleEqual, text("a")),
        is_of(num("2"), "String"),
        is_of(num("2"), "John"),
        as_of(num("2"), "String"),
        as_of(num("2"), "John"),
    ]);
    let (analyzer, _) = analyze(program(vec![], body));
    assert_eq!(analyzer.diagnostics.len(), 10);
    assert_eq!(
        analyzer.diagnostics[0].kind,
        SemanticErrorKind::InvalidOperatorOperand { operator: s("+"), expected: s("Number"), found: s("String") }
    );
    assert_eq!(
        analyzer.diagnostics[1].kind,
        SemanticErrorKind::InvalidOperatorOperand { operator: s("<="), expected: s("Number"), found: s("Boolean") }
    );
    assert_eq!(
        analyzer.diagnostics[2].kind,
        SemanticErrorKind::InvalidOperatorOperand { operator: s("&"), expected: s("Boolean"), found: s("Number") }
    );
    assert_eq!(
        analyzer.diagnostics[3].kind,
        SemanticErrorKind::InvalidOperatorOperand { operator: s("&"), expected: s("Boolean"), found: s("String") }
    );
    assert_eq!(
        analyzer.diagnostics[4].kind,
        SemanticErrorKind::InvalidBinaryOperation { operator: s("@"), left: s("Number"), right: s("Boolean") }
    );
    assert_eq!(analyzer.diagnostics[5].kind, SemanticErrorKind::IncomparableTypes { left: s("Number"), right: s("String") });
    assert_eq!(analyzer.diagnostics[6].kind, SemanticErrorKind::ImpossibleTypeCheck { expr: s("Number"), target: s("String") });
    assert_eq!(analyzer.diagnostics[7].kind, SemanticErrorKind::UnknownType { name: s("John") });
    assert_eq!(analyzer.diagnostics[8].kind, SemanticErrorKind::InvalidCast { from: s("Number"), to: s("String") });
    assert_eq!(analyzer.diagnostics[9].kind, SemanticErrorKind::UnknownType { name: s("John") });
}

#[test]
fn semantic_unit_test_assign_ok() {
    // { { 42; }; { 42; }; }
    let body = block(vec![block(vec![num("42")]), block(vec![num("42")])]);
    let (analyzer, _) = analyze(program(vec![], body));
    assert_eq!(analyzer.diagnostics.len(), 0);
}

#[test]
fn semantic_unit_test_call_function_err() {
    // type A() { B() => C(); }  { let x = 1 in { x(42); y(42); }; }
    let p = program(
        vec![type_decl("A", Some(&[]), None, vec![method("B", &[], None, call("C", vec![]))])],
        block(vec![let_in("x", None, num("1"), block(vec![call("x", vec![num("42")]), call("y", vec![num("42")])]))]),
    );
    let (analyzer, _) = analyze(p);
    assert_eq!(analyzer.diagnostics.len(), 3);
    assert_eq!(analyzer.diagnostics[0].kind, SemanticErrorKind::UndefinedFunction { name: s("C") });
    assert_eq!(analyzer.diagnostics[1].kind, SemanticErrorKind::NotAFunction { name: s("x") });
    assert_eq!(analyzer.diagnostics[2].kind, SemanticErrorKind::UndefinedFunction { name: s("y") });
}

#[test]
fn semantic_unit_test_call_function_arity_err() {
    // function A() { 42; }  function B(b) { 42; }  { A(1); B(); }
    let p = program(
        vec![func("A", &[], None, block(vec![num("42")])), func("B", &[("b", None)], None, block(vec![num("42")]))],
        block(vec![call("A", vec![num("1")]), call("B", vec![])]),
    );
    let (analyzer, _) = analyze(p);
    assert_eq!(analyzer.diagnostics.len(), 2);
    assert_eq!(analyzer.diagnostics[0].kind, SemanticErrorKind::InvalidFunctionArity { name: s("A"), expected: 0, found: 1 });
    assert_eq!(analyzer.diagnostics[1].kind, SemanticErrorKind::InvalidFunctionArity { name: s("B"), expected: 1, found: 0 });
}

#[test]
fn semantic_unit_test_call_function_type_mismatch_err() {
    // function A(a: Number, b: String, c: Boolean) { 42; }  { A(true, 1, "hello"); }
    let p = program(
        vec![func("A", &[("a", Some("Number")), ("b", Some("String")), ("c", Some("Boolean"))], None, block(vec![num("42")]))],
        block(vec![call("A", vec![boolean(true), num("1"), text("hello")])]),
    );
    let (analyzer, _) = analyze(p);
    assert_eq!(analyzer.diagnostics.len(), 3);
    assert_eq!(
        analyzer.diagnostics[0].kind,
        SemanticErrorKind::FunctionArgumentTypeMismatch { name: s("A"), index: 1, expected: s("Number"), found: s("Boolean") }
    );
    assert_eq!(
        analyzer.diagnostics[1].kind,
        SemanticErrorKind::FunctionArgumentTypeMismatch { name: s("A"), index: 2, expected: s("String"), found: s("Number") }
    );
    assert_eq!(
        analyzer.diagnostics[2].kind,
        SemanticErrorKind::FunctionArgumentTypeMismatch { name: s("A"), index: 3, expected: s("Boolean"), found: s("String") }
    );
}

#[test]
fn semantic_unit_test_call_function_base_err() {
    // type A { f() => 42; }
    // type B inherits A { a = base(); f() => base(1); g() => base(); }
    // { let x = base() in 42; }
    let p = program(
        vec![
            type_decl("A", None, None, vec![method("f", &[], None, num("42"))]),
            type_decl(
                "B",
                None,
                Some(("A", None)),
                vec![
                    attr("a", None, Some(call("base", vec![]))),
                    method("f", &[], None, call("base", vec![num("1")])),
                    method("g", &[], None, call("base", vec![])),
                ],
            ),
        ],
        block(vec![let_in("x", None, call("base", vec![]), num("42"))]),
    );
    let (analyzer, _) = analyze(p);
    assert_eq!(analyzer.diagnostics.len(), 4);
    assert_eq!(analyzer.diagnostics[0].kind, SemanticErrorKind::InvalidBaseUsage);
    assert_eq!(analyzer.diagnostics[1].kind, SemanticErrorKind::InvalidMethodArity { method: s("f"), expected: 0, found: 1 });
    assert_eq!(analyzer.diagnostics[2].kind, SemanticErrorKind::UndefinedBaseMethod { ty_name: s("B"), method: s("g") });
    assert_eq!(analyzer.diagnostics[3].kind, SemanticErrorKind::InvalidBaseUsage);
}

#[test]
fn semantic_unit_test_control_flow() {
    // { if(42) { 42; } else { 42; }; while("hello") { 42; }; }
    let body = block(vec![
        if_else(num("42"), block(vec![num("42")]), Some(block(vec![num("42")]))),
        while_do(text("hello"), block(vec![num("42")])),
    ]);
    let (analyzer, _) = analyze(program(vec![], body));
    assert_eq!(analyzer.diagnostics.len(), 2);
    assert_eq!(analyzer.diagnostics[0].kind, SemanticErrorKind::InvalidConditionType { found: s("Number") });
    assert_eq!(analyzer.diagnostics[1].kind, SemanticErrorKind::InvalidWhileCondition { found: s("String") });
}

#[test]
fn semantic_unit_test_let_expr() {
    // { let x: Number = "hello" in 42; let y: String = true in 42; let z: John = 1 in 42; }
    let body = block(vec![
        let_in("x", Some("Number"), text("hello"), num("42")),
        let_in("y", Some("String"), boolean(true), num("42")),
        let_in("z", Some("John"), num("1"), num("42")),
    ]);
    let (analyzer, _) = analyze(program(vec![], body));
    assert_eq!(analyzer.diagnostics.len(), 3);
    assert_eq!(
        analyzer.diagnostics[0].kind,
        SemanticErrorKind::LetBindingTypeMismatch { expected: s("Number"), found: s("String") }
    );
    assert_eq!(
        analyzer.diagnostics[1].kind,
        SemanticErrorKind::LetBindingTypeMismatch { expected: s("String"), found: s("Boolean") }
    );
    assert_eq!(analyzer.diagnostics[2].kind, SemanticErrorKind::UnknownTypeInLetAnnotation { name: s("John") });
}

#[test]
fn semantic_unit_test_new() {
    // type A(a: Number) { x = a; }
    // { new John(); new A(1); new A(); new A(1, "hello"); new A("hello"); }
    let p = program(
        vec![type_decl("A", Some(&[("a", Some("Number"))]), None, vec![attr("x", None, Some(var("a")))])],
        block(vec![
            new_of("John", vec![]),
            new_of("A", vec![num("1")]),
            new_of("A", vec![]),
            new_of("A", vec![num("1"), text("hello")]),
            new_of("A", vec![text("hello")]),
        ]),
    );
    let (analyzer, _) = analyze(p);
    assert_eq!(analyzer.diagnostics.len(), 4);
    assert_eq!(analyzer.diagnostics[0].kind, SemanticErrorKind::UnknownType { name: s("John") });
    assert_eq!(analyzer.diagnostics[1].kind, SemanticErrorKind::InvalidConstructorArity { ty_name: s("A"), expected: 1, found: 0 });
    assert_eq!(analyzer.diagnostics[2].kind, SemanticErrorKind::InvalidConstructorArity { ty_name: s("A"), expected: 1, found: 2 });
    assert_eq!(
        analyzer.diagnostics[3].kind,
        SemanticErrorKind::ConstructorArgumentTypeMismatch {
            ty_name: s("A"),
            param: s("a"),
            expected: s("Number"),
            found: s("String")
        }
    );
}

#[test]
fn semantic_unit_test_postfix_property_access() {
    // type A { a = "a"; f() { let p = new A() in p.a; } b = self.a; g() => self.c; h(n: Number) => n; }
    // let a = new A() in { a.h(); a.h(true); a.i(); };
    let p = program(
        vec![type_decl(
            "A",
            None,
            None,
            vec![
                attr("a", None, Some(text("a"))),
                method("f", &[], None, block(vec![let_in("p", None, new_of("A", vec![]), prop(var("p"), "a"))])),
                attr("b", None, Some(prop(var("self"), "a"))),
                method("g", &[], None, prop(var("self"), "c")),
                method("h", &[("n", Some("Number"))], None, var("n")),
            ],
        )],
        let_in(
            "a",
            None,
            new_of("A", vec![]),
            block(vec![
                mcall(var("a"), "h", vec![]),
                mcall(var("a"), "h", vec![boolean(true)]),
                mcall(var("a"), "i", vec![]),
            ]),
        ),
    );
    let (analyzer, _) = analyze(p);
    assert_eq!(analyzer.diagnostics.len(), 6);
    assert_eq!(analyzer.diagnostics[0].kind, SemanticErrorKind::InvalidPropertyAccess);
    assert_eq!(analyzer.diagnostics[1].kind, SemanticErrorKind::InvalidPropertyAccess);
    assert_eq!(analyzer.diagnostics[2].kind, SemanticErrorKind::UnknownAttribute { ty_name: s("A"), attribute: s("c") });
    assert_eq!(analyzer.diagnostics[3].kind, SemanticErrorKind::InvalidMethodArity { method: s("h"), expected: 1, found: 0 });
    assert_eq!(
        analyzer.diagnostics[4].kind,
        SemanticErrorKind::MethodArgumentTypeMismatch { method: s("h"), index: 1, expected: s("Number"), found: s("Boolean") }
    );
    assert_eq!(analyzer.diagnostics[5].kind, SemanticErrorKind::UnknownMethod { ty_name: s("A"), method: s("i") });
}

#[test]
fn semantic_unit_test_primary() {
    // function f() => 42;  let x = a in f;
    let p = program(vec![func("f", &[], None, num("42"))], let_in("x", None, var("a"), var("f")));
    let (analyzer, _) = analyze(p);
    assert_eq!(analyzer.diagnostics.len(), 2);
    assert_eq!(analyzer.diagnostics[0].kind, SemanticErrorKind::UndefinedVariable { name: s("a") });
    assert_eq!(analyzer.diagnostics[1].kind, SemanticErrorKind::NotAVariable { name: s("f") });
}

#[test]
fn semantic_unit_test_unary() {
    // { -true; !1; }
    let body = block(vec![un(UnaryOpKind::Neg, boolean(true)), un(UnaryOpKind::Not, num("1"))]);
    let (analyzer, _) = analyze(program(vec![], body));
    assert_eq!(analyzer.diagnostics.len(), 2);
    assert_eq!(analyzer.diagnostics[0].kind, SemanticErrorKind::InvalidUnaryOperation { operator: s("-"), operand: s("Boolean") });
    assert_eq!(analyzer.diagnostics[1].kind, SemanticErrorKind::InvalidUnaryOperation { operator: s("!"), operand: s("Number") });
}

#[test]
fn semantic_unit_test_builtin() {
    // function good_f() => print("" @ sqrt(sin(cos(exp(log(E,PI * rand()))))));  print(42);
    let inner = call("log", vec![var("E"), bin(var("PI"), BinaryOpKind::Mul, call("rand", vec![]))]);
    let chain = call("sqrt", vec![call("sin", vec![call("cos", vec![call("exp", vec![inner])])])]);
    let good = func("good_f", &[], None, call("print", vec![bin(text(""), BinaryOpKind::Concat, chain)]));
    let p = program(vec![good], call("print", vec![num("42")]));
    let (analyzer, _) = analyze(p);
    assert_eq!(analyzer.diagnostics.len(), 1);
    assert_eq!(
        analyzer.diagnostics[0].kind,
        SemanticErrorKind::FunctionArgumentTypeMismatch { name: s("print"), index: 1, expected: s("String"), found: s("Number") }
    );
}

fn instance_names(hir: &hulk_semantic::hir::TypedProgram) -> Vec<&str> {
    hir.node
        .monomorphized_functions
        .iter()
        .map(|d| match &d.node {
            TypedDeclKind::Function { name, .. } => name.as_str(),
            _ => panic!("expected Function in monomorphized_functions"),
        })
        .collect()
}

#[test]
fn semantic_generic_function_monomorphizes_per_concrete_type() {
    // function f(x) => x;  type Point(x: Number) { px = x; }  { f(1); f("hello"); f(new Point(1)); }
    let p = program(
        vec![
            func("f", &[("x", None)], None, var("x")),
            type_decl("Point", Some(&[("x", Some("Number"))]), None, vec![attr("px", None, Some(var("x")))]),
        ],
        block(vec![
            call("f", vec![num("1")]),
            call("f", vec![text("hello")]),
            call("f", vec![new_of("Point", vec![num("1")])]),
        ]),
    );
    let (analyzer, result) = analyze(p);
    assert!(analyzer.diagnostics.is_empty(), "expected no diagnostics, got: {:?}", analyzer.diagnostics);
    let hir = result.expect("program should analyze successfully");
    let mangled_names = instance_names(&hir);
    assert_eq!(mangled_names.len(), 3, "expected 3 instantiations of f");
    assert!(mangled_names.contains(&"f$Number"));
    assert!(mangled_names.contains(&"f$String"));
    assert!(mangled_names.contains(&"f$Point"));
}

#[test]
fn semantic_generic_function_reuses_cached_instance_for_same_type() {
    // function f(x) => x;  { f(1); f(2); f(3); }
    let p = program(
        vec![func("f", &[("x", None)], None, var("x"))],
        block(vec![call("f", vec![num("1")]), call("f", vec![num("2")]), call("f", vec![num("3")])]),
    );
    let (analyzer, result) = analyze(p);
    assert!(analyzer.diagnostics.is_empty());
    let hir = result.expect("program should analyze successfully");
    assert_eq!(
        hir.node.monomorphized_functions.len(),
        1,
        "three calls with the same concrete type should produce a single instantiation"
    );
}

#[test]
fn semantic_unused_generic_function_produces_no_instantiation() {
    // function f(x) => x;  42;
    let p = program(vec![func("f", &[("x", None)], None, var("x"))], num("42"));
    let (analyzer, result) = analyze(p);
    assert!(analyzer.diagnostics.is_empty());
    let hir = result.expect("program should analyze successfully");
    assert!(hir.node.monomorphized_functions.is_empty());
}

#[test]
fn semantic_mixed_generic_and_concrete_params() {
    // function f(x, y: Number) => x;  { f("hello", 1); f(true, 2); }
    let p = program(
        vec![func("f", &[("x", None), ("y", Some("Number"))], None, var("x"))],
        block(vec![call("f", vec![text("hello"), num("1")]), call("f", vec![boolean(true), num("2")])]),
    );
    let (analyzer, result) = analyze(p);
    assert!(analyzer.diagnostics.is_empty(), "expected no diagnostics, got: {:?}", analyzer.diagnostics);
    let hir = result.expect("program should analyze successfully");
    assert_eq!(hir.node.monomorphized_functions.len(), 2);
}

#[test]
fn semantic_mixed_generic_function_still_checks_annotated_param() {
    // function f(x, y: Number) => x;  { f("hello", "not a number"); }
    let p = program(
        vec![func("f", &[("x", None), ("y", Some("Number"))], None, var("x"))],
        block(vec![call("f", vec![text("hello"), text("not a number")])]),
    );
    let (analyzer, _) = analyze(p);
    assert_eq!(analyzer.diagnostics.len(), 1);
    assert_eq!(
        analyzer.diagnostics[0].kind,
        SemanticErrorKind::FunctionArgumentTypeMismatch { name: s("f"), index: 2, expected: s("Number"), found: s("String") }
    );
}

#[test]
fn semantic_generic_function_infers_return_type_from_body() {
    // function f(x) => 42;  { f(1); f("hello"); }
    let p = program(
        vec![func("f", &[("x", None)], None, num("42"))],
        block(vec![call("f", vec![num("1")]), call("f", vec![text("hello")])]),
    );
    let (analyzer, result) = analyze(p);
    assert!(analyzer.diagnostics.is_empty());
    let hir = result.expect("program should analyze successfully");
    for instance in &hir.node.monomorphized_functions {
        if let TypedDeclKind::Function { return_type, .. } = &instance.node {
            let number_id = analyzer.ctx.types.resolve("Number").unwrap();
            assert_eq!(*return_type, number_id);
        }
    }
}

#[test]
fn semantic_generic_function_call_arity_mismatch() {
    // function f(x) => x;  { f(); f(1, 2); }
    let p = program(
        vec![func("f", &[("x", None)], None, var("x"))],
        block(vec![call("f", vec![]), call("f", vec![num("1"), num("2")])]),
    );
    let (analyzer, _) = analyze(p);
    assert_eq!(analyzer.diagnostics.len(), 2);
    assert_eq!(analyzer.diagnostics[0].kind, SemanticErrorKind::InvalidFunctionArity { name: s("f"), expected: 1, found: 0 });
    assert_eq!(analyzer.diagnostics[1].kind, SemanticErrorKind::InvalidFunctionArity { name: s("f"), expected: 1, found: 2 });
}

fn fact_body() -> Expr {
    // if (n == 0) { 1; } else { n * fact(n - 1); }
    if_else(
        bin(var("n"), BinaryOpKind::DoubleEqual, num("0")),
        block(vec![num("1")]),
        Some(block(vec![bin(var("n"), BinaryOpKind::Mul, call("fact", vec![bin(var("n"), BinaryOpKind::Sub, num("1"))]))])),
    )
}

#[test]
fn semantic_unannotated_direct_recursion_fails_inference() {
    // function fact(n) => if (n == 0) { 1; } else { n * fact(n - 1); };  { fact(5); }
    let p = program(vec![func("fact", &[("n", None)], None, fact_body())], block(vec![call("fact", vec![num("5")])]));
    let (analyzer, _) = analyze(p);
    assert!(
        analyzer
            .diagnostics
            .iter()
            .any(|d| matches!(&d.kind, SemanticErrorKind::GenericInferenceFailed { function } if function == "fact")),
        "expected GenericInferenceFailed for 'fact', got: {:?}",
        analyzer.diagnostics
    );
}

#[test]
fn semantic_annotated_direct_recursion_compiles_fine() {
    // function fact(n: Number): Number => if (n == 0) { 1; } else { n * fact(n - 1); };  { fact(5); }
    let p = program(
        vec![func("fact", &[("n", Some("Number"))], Some("Number"), fact_body())],
        block(vec![call("fact", vec![num("5")])]),
    );
    let (analyzer, result) = analyze(p);
    assert!(analyzer.diagnostics.is_empty(), "expected no diagnostics, got: {:?}", analyzer.diagnostics);
    let hir = result.expect("program should analyze successfully");
    assert!(hir.node.monomorphized_functions.is_empty());
}

#[test]
fn semantic_generic_function_used_as_variable_is_rejected() {
    // function f(x) => x;  let y = f in 42;
    let p = program(vec![func("f", &[("x", None)], None, var("x"))], let_in("y", None, var("f"), num("42")));
    let (analyzer, _) = analyze(p);
    assert_eq!(analyzer.diagnostics.len(), 1);
    assert_eq!(analyzer.diagnostics[0].kind, SemanticErrorKind::NotAVariable { name: s("f") });
}

fn point_xy() -> Decl {
    // type Point(x, y) { x = x; y = y; }
    type_decl(
        "Point",
        Some(&[("x", None), ("y", None)]),
        None,
        vec![attr("x", None, Some(var("x"))), attr("y", None, Some(var("y")))],
    )
}

#[test]
fn semantic_generic_type_basic_instantiation() {
    let p = program(
        vec![point_xy()],
        block(vec![new_of("Point", vec![num("1"), num("2")]), new_of("Point", vec![text("a"), text("b")])]),
    );
    let (analyzer, result) = analyze(p);
    assert!(analyzer.diagnostics.is_empty(), "{:?}", analyzer.diagnostics);
    let hir = result.unwrap();
    assert_eq!(hir.node.monomorphized_types.len(), 2);
}

#[test]
fn semantic_generic_type_mixed_params() {
    // type Punto(x: Number, y) { x = x; y = y; }  { new Punto(1, "a"); new Punto(1, 2); }
    let punto = type_decl(
        "Punto",
        Some(&[("x", Some("Number")), ("y", None)]),
        None,
        vec![attr("x", None, Some(var("x"))), attr("y", None, Some(var("y")))],
    );
    let p = program(
        vec![punto],
        block(vec![new_of("Punto", vec![num("1"), text("a")]), new_of("Punto", vec![num("1"), num("2")])]),
    );
    let (analyzer, result) = analyze(p);
    assert!(analyzer.diagnostics.is_empty(), "{:?}", analyzer.diagnostics);
    assert_eq!(result.unwrap().node.monomorphized_types.len(), 2);
}

#[test]
fn semantic_generic_type_reuses_same_instance() {
    let p = program(
        vec![point_xy()],
        block(vec![new_of("Point", vec![num("1"), num("2")]), new_of("Point", vec![num("3"), num("4")])]),
    );
    let (analyzer, result) = analyze(p);
    assert!(analyzer.diagnostics.is_empty());
    assert_eq!(result.unwrap().node.monomorphized_types.len(), 1);
}

#[test]
fn semantic_generic_type_inheriting_from_generic_type() {
    // type PolarPoint(phi, rho) inherits Point(rho * sin(phi), rho * cos(phi)) {}  { new PolarPoint(1, 2); }
    let polar = type_decl(
        "PolarPoint",
        Some(&[("phi", None), ("rho", None)]),
        Some((
            "Point",
            Some(vec![
                bin(var("rho"), BinaryOpKind::Mul, call("sin", vec![var("phi")])),
                bin(var("rho"), BinaryOpKind::Mul, call("cos", vec![var("phi")])),
            ]),
        )),
        vec![],
    );
    let p = program(vec![point_xy(), polar], block(vec![new_of("PolarPoint", vec![num("1"), num("2")])]));
    let (analyzer, result) = analyze(p);
    assert!(analyzer.diagnostics.is_empty(), "{:?}", analyzer.diagnostics);
    assert_eq!(result.unwrap().node.monomorphized_types.len(), 2);
}

#[test]
fn semantic_unused_generic_type_produces_no_instantiation() {
    let p = program(vec![point_xy()], num("42"));
    let (analyzer, result) = analyze(p);
    assert!(analyzer.diagnostics.is_empty());
    assert!(result.unwrap().node.monomorphized_types.is_empty());
}

#[test]
fn conditional_joins_branch_types() {
    // type A {} type B inherits A {} type C inherits A {}  if (true) new B() else new C();
    let p = program(
        vec![
            type_decl("A", None, None, vec![]),
            type_decl("B", None, Some(("A", None)), vec![]),
            type_decl("C", None, Some(("A", None)), vec![]),
        ],
        if_else(boolean(true), new_of("B", vec![]), Some(new_of("C", vec![]))),
    );
    let (analyzer, result) = analyze(p);
    assert!(analyzer.diagnostics.is_empty(), "{:?}", analyzer.diagnostics);
    let a = analyzer.ctx.types.resolve("A").unwrap();
    assert_eq!(result.unwrap().node.body.ty, a);
}

#[test]
fn conditional_of_unrelated_types_is_object() {
    let p = program(vec![], if_else(boolean(true), num("1"), Some(text("one"))));
    let (analyzer, result) = analyze(p);
    assert!(analyzer.diagnostics.is_empty());
    let object = analyzer.ctx.types.resolve("Object").unwrap();
    assert_eq!(result.unwrap().node.body.ty, object);
}

#[test]
fn failed_analysis_returns_every_diagnostic() {
    // x + 1;  (x is undefined)   true + 1;
    let p = program(vec![], block(vec![var("x"), bin(boolean(true), BinaryOpKind::Add, num("1"))]));
    let (analyzer, result) = analyze(p);
    assert!(analyzer.has_errors());
    let errors = result.err().unwrap();
    assert_eq!(errors, analyzer.diagnostics);
    assert_eq!(errors[0].kind, SemanticErrorKind::UndefinedVariable { name: s("x") });
}

#[test]
fn successful_analysis_has_no_diagnostic() {
    let p = program(vec![func("f", &[("x", Some("Number"))], Some("Number"), var("x"))], call("f", vec![num("2")]));
    let (analyzer, result) = analyze(p);
    assert!(!analyzer.has_errors());
    let hir = result.unwrap();
    assert_eq!(hir.node.body.ty, analyzer.ctx.types.resolve("Number").unwrap());
    assert_eq!(hir.node.decls.unwrap().len(), 1);
}

#[test]
fn for_loop_is_lowered_to_an_iterator_let() {
    // for (x in 1) x;  with no Iterable protocol declared
    let e = Expr {
        node: ExprKind::For { var: s("x"), iterable: Box::new(num("1")), body: Box::new(var("x")) },
        span: Span::new(3, 17),
    };
    let mut analyzer = SemanticAnalyzer::new();
    let r = analyzer.analyze_expr(&e);
    assert_eq!(r.ty, analyzer.ctx.types.resolve("Object").unwrap());
    match &r.node {
        hulk_semantic::hir::TypedExprKind::Let { name, body, .. } => {
            assert_eq!(name, "__iter_3_17");
            assert!(matches!(body.node, hulk_semantic::hir::TypedExprKind::While { .. }));
        }
        _ => panic!("a for loop becomes a let"),
    }
    assert_eq!(analyzer.diagnostics.len(), 1);
    assert_eq!(analyzer.diagnostics[0].kind, SemanticErrorKind::UnknownType { name: s("Iterable") });
}

#[test]
fn broken_cycle_leaves_every_chain_finite() {
    let (analyzer, _) = analyze(inheritance_chain(Some("F")));
    let types = &analyzer.ctx.types;
    let a = types.resolve("A").unwrap();
    assert_eq!(types.get_parent(a), None);
    for name in ["A", "B", "C", "D", "E", "F", "X"] {
        let mut current = types.resolve(name);
        let mut steps = 0;
        while let Some(id) = current {
            current = types.get_parent(id);
            steps += 1;
            assert!(steps <= 10, "chain of {} does not end", name);
        }
    }
    let f = types.resolve("F").unwrap();
    let d = types.resolve("D").unwrap();
    assert!(types.is_subtype_of(d, f));
    assert!(types.is_subtype_of(d, a));
    assert!(!types.is_subtype_of(a, d));
}
