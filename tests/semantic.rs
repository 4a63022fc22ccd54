use gigli::ast::{Function, Parameter, AST};
use gigli::lexer::tokenize;
use gigli::parser::parse_program;
use gigli::semantic::{analyze, SemanticAnalyzer, SemanticError};

fn errors(src: &str) -> Vec<SemanticError> {
    let tokens = tokenize(src).unwrap();
    let ast = parse_program(&tokens).unwrap();
    analyze(&ast)
}

fn names_var(e: &SemanticError, n: &str) -> bool {
    match e {
        SemanticError::UndeclaredVariable(v) | SemanticError::UndeclaredReactive(v) => v == n,
        _ => false,
    }
}

fn awaits(es: &[SemanticError]) -> usize {
    es.iter().filter(|e| matches!(e, SemanticError::AwaitOutsideAsync)).count()
}

#[test]
fn reactive_binding_to_undeclared_names() {
    let es = errors("fn f() { $: y = x; }");
    assert!(!es.is_empty());
    assert!(es.iter().any(|e| names_var(e, "x") || names_var(e, "y")));
    assert!(es.iter().any(|e| matches!(e, SemanticError::UndeclaredReactive(n) if n == "y")));
    assert!(es.iter().any(|e| matches!(e, SemanticError::UndeclaredVariable(n) if n == "x")));
}

#[test]
fn reactive_binding_to_declared_names_is_fine() {
    assert!(errors("fn f(x) { let y = 0; $: y = x; }").is_empty());
}

#[test]
fn conflicting_reference_parameter() {
    let f = Function {
        name: "f".to_string(),
        params: vec![Parameter {
            name: "p".to_string(),
            type_annotation: None,
            default_value: None,
            is_ref: true,
            is_mut_ref: true,
        }],
        return_type: None,
        body: vec![],
        is_public: true,
        is_async: false,
    };
    let ast = AST { functions: vec![f], components: vec![], classes: vec![], modules: vec![], imports: vec![] };
    let es = analyze(&ast);
    let conflicts = es.iter().filter(|e| matches!(e, SemanticError::ConflictingReference(_))).count();
    assert_eq!(conflicts, 1);
    assert_eq!(es.len(), 1);
    assert_eq!(es[0].message(), "Parameter 'p' cannot be both a reference and a mutable reference");
}

#[test]
fn await_outside_async_function() {
    let es = errors("fn f(load) { await load(); }");
    assert_eq!(awaits(&es), 1);
    assert_eq!(es.len(), 1);
    assert_eq!(es[0].message(), "'await' used outside of async function");
}

#[test]
fn await_inside_async_function() {
    let es = errors("async fn f(load) { await load(); }");
    assert_eq!(awaits(&es), 0);
    assert!(es.is_empty());
}

#[test]
fn undeclared_identifier() {
    let es = errors("fn f(a) { return a + b; }");
    assert_eq!(es.len(), 1);
    assert_eq!(es[0].message(), "Use of undeclared variable 'b'");
}

#[test]
fn block_scope_is_restored() {
    let es = errors("fn f() { if (true) { let t = 1; } return t; }");
    assert_eq!(es.len(), 1);
    assert!(names_var(&es[0], "t"));
}

#[test]
fn loop_and_comprehension_variables_are_scoped() {
    assert!(errors("fn f(xs) { for x in xs { print; } }").len() == 1);
    assert!(errors("fn f(xs) { let ys = [x * 2 for x in xs if x > 0]; }").is_empty());
    let es = errors("fn f(xs) { let ys = [x for x in xs]; return x; }");
    assert_eq!(es.len(), 1);
    assert!(names_var(&es[0], "x"));
}

#[test]
fn component_scope_and_markup() {
    let src = "component C { state count = 0; let double = count * 2; fn inc() { count = count + 1; } \
               <p>{double}</p>{#for i in items}<b>{i}</b>{/for} }";
    let es = errors(src);
    assert_eq!(es.len(), 1);
    assert!(names_var(&es[0], "items"));
}

#[test]
fn derived_values_reading_state_are_recorded() {
    let tokens = tokenize("component C { state a = 1; let b = a + 1; let c = 2; }").unwrap();
    let ast = parse_program(&tokens).unwrap();
    let mut analyzer = SemanticAnalyzer::new();
    analyzer.analyze(&ast);
    assert!(analyzer.errors.is_empty());
    assert_eq!(analyzer.derived, vec!["b".to_string()]);
}

#[test]
fn reactive_error_message() {
    let es = errors("fn f() { $: z = 1; }");
    assert_eq!(es[0].message(), "Reactive variable '$z' not declared");
}
