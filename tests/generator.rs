use gigli::generator::generate_ir;
use gigli::ir::{IRExpr, IRStmt};
use gigli::lexer::tokenize;
use gigli::parser::{parse_expression, parse_program};
use gigli::render::lower_expr_to_string;

fn lower(src: &str) -> gigli::ir::IRModule {
    let tokens = tokenize(src).unwrap();
    let ast = parse_program(&tokens).unwrap();
    generate_ir(&ast)
}

fn text(src: &str) -> String {
    let tokens = tokenize(src).unwrap();
    let (e, _) = parse_expression(&tokens, 0).unwrap();
    lower_expr_to_string(&e)
}

#[test]
fn function_names_are_prefixed() {
    let m = lower("fn main() { log(1); } component App { } view Old { } class Pt { constructor() { } fn len() { } }");
    let names: Vec<&str> = m.functions.iter().map(|f| f.name.as_str()).collect();
    assert_eq!(names, vec!["fn_main", "component_App", "view_Old", "Pt_len", "Pt_constructor"]);
}

#[test]
fn call_statement_keeps_callee_and_arguments() {
    let m = lower("fn main() { dom.set_inner_html(x, \"hi\"); log(a + 1, 2); }");
    match &m.functions[0].body[1] {
        IRStmt::Call { func, args } => {
            assert_eq!(func, "log");
            assert!(matches!(&args[0], IRExpr::StringLiteral(s) if s == "(a + 1)"));
            assert!(matches!(&args[1], IRExpr::NumberLiteral(n) if n == "2"));
        }
        _ => panic!("not a call"),
    }
    match &m.functions[0].body[0] {
        IRStmt::Call { func, args } => {
            assert_eq!(func, "dom.set_inner_html");
            assert_eq!(args.len(), 2);
        }
        _ => panic!("not a call"),
    }
}

#[test]
fn component_body_order() {
    let m = lower("component C { state a = 1; let b = a; fn go() { } <p>\"hi\"</p> }");
    let body = &m.functions[0].body;
    assert_eq!(body.len(), 4);
    assert!(matches!(&body[0], IRStmt::Assign { target, value: IRExpr::NumberLiteral(n) } if target == "a" && n == "1"));
    assert!(matches!(&body[1], IRStmt::Assign { target, value: IRExpr::Identifier(v) } if target == "b" && v == "a"));
    assert!(matches!(&body[2], IRStmt::Call { func, args } if func == "go" && args.is_empty()));
    assert!(matches!(&body[3], IRStmt::Render(IRExpr::StringLiteral(s)) if s == "<p>hi</p>"));
}

#[test]
fn markup_becomes_text() {
    let m = lower("component C { <div id=\"x\">{#if ok}\"y\"{:else}\"n\"{/if}</div> {#for i in xs}{i}{/for} }");
    match &m.functions[0].body[0] {
        IRStmt::Render(IRExpr::StringLiteral(s)) => {
            assert_eq!(s, "<div id=\"x\">if(ok) { y } else { n }</div>\nfor(i in xs) { i }");
        }
        _ => panic!("not a render"),
    }
}

#[test]
fn control_flow_becomes_text_arguments() {
    let m = lower("fn f() { if (a) { b = 1; } else { return; } }");
    match &m.functions[0].body[0] {
        IRStmt::Call { func, args } => {
            assert_eq!(func, "if");
            assert!(matches!(&args[0], IRExpr::Identifier(c) if c == "a"));
            assert!(matches!(&args[1], IRExpr::StringLiteral(s) if s == "b = 1;"));
            assert!(matches!(&args[2], IRExpr::StringLiteral(s) if s == "return;"));
        }
        _ => panic!("not a call"),
    }
}

#[test]
fn await_and_reactive_keep_their_shape() {
    let m = lower("async fn f() { await load(); $: y = x; let z = [v for v in vs]; }");
    let body = &m.functions[0].body;
    assert!(matches!(&body[0], IRStmt::Await(IRExpr::StringLiteral(s)) if s == "load()"));
    assert!(matches!(&body[1], IRStmt::Reactive { name, expr: IRExpr::Identifier(x) } if name == "y" && x == "x"));
    match &body[2] {
        IRStmt::Call { func, args } => {
            assert_eq!(func, "let");
            assert!(matches!(&args[1], IRExpr::Comprehension { target, .. } if target == "v"));
        }
        _ => panic!("not a let"),
    }
}

#[test]
fn expression_text() {
    assert_eq!(text("-a + b * c"), "(-a + (b * c))");
    assert_eq!(text("obj.run(1, \"s\")"), "obj.run(1, s)");
    assert_eq!(text("!done && xs[0]"), "(!done && xs[0])");
    assert_eq!(text("new Point(1, 2)"), "new Point(1, 2)");
    assert_eq!(text("{ a, b: 1 }"), "{ a, b: 1 }");
    assert_eq!(text("[x for x in xs if x]"), "[x for x in xs if x]");
    assert_eq!(text("null"), "null");
}

#[test]
fn booleans_lower_to_text() {
    let m = lower("fn f() { g(true); }");
    match &m.functions[0].body[0] {
        IRStmt::Call { args, .. } => assert!(matches!(&args[0], IRExpr::StringLiteral(s) if s == "true")),
        _ => panic!("not a call"),
    }
}
