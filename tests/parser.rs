use gigli::ast::{BinaryOp, Expr, MarkupNode, Stmt, Type, UnaryOp};
use gigli::lexer::tokenize;
use gigli::parser::{parse_expression, parse_program, Parser};
use gigli::token::Token;

fn expr(src: &str) -> Expr {
    let tokens = tokenize(src).unwrap();
    let (e, p) = parse_expression(&tokens, 0).unwrap();
    assert_eq!(tokens[p], Token::EOF);
    e
}

fn number(e: &Expr) -> &str {
    match e {
        Expr::NumberLiteral(n) => n.as_str(),
        _ => panic!("not a number"),
    }
}

#[test]
fn multiplication_binds_tighter_than_addition() {
    match expr("1 + 2 * 3") {
        Expr::BinaryOp { left, op: BinaryOp::Add, right } => {
            assert_eq!(number(&left), "1");
            match *right {
                Expr::BinaryOp { left: l, op: BinaryOp::Multiply, right: r } => {
                    assert_eq!(number(&l), "2");
                    assert_eq!(number(&r), "3");
                }
                _ => panic!("right operand is not a product"),
            }
        }
        _ => panic!("not an addition"),
    }
}

#[test]
fn unary_binds_tighter_than_binary() {
    match expr("-1 + 2") {
        Expr::BinaryOp { left, op: BinaryOp::Add, right } => {
            match *left {
                Expr::UnaryOp { op: UnaryOp::Minus, operand } => assert_eq!(number(&operand), "1"),
                _ => panic!("left operand is not a negation"),
            }
            assert_eq!(number(&right), "2");
        }
        _ => panic!("not an addition"),
    }
}

#[test]
fn same_precedence_groups_left() {
    match expr("a - b - c") {
        Expr::BinaryOp { left, op: BinaryOp::Subtract, right } => {
            assert!(matches!(*left, Expr::BinaryOp { op: BinaryOp::Subtract, .. }));
            assert!(matches!(*right, Expr::Identifier(ref n) if n == "c"));
        }
        _ => panic!("not a subtraction"),
    }
}

#[test]
fn logical_operators_are_lowest() {
    assert!(matches!(expr("a == 1 || b < 2 && c"), Expr::BinaryOp { op: BinaryOp::Or, .. }));
}

#[test]
fn call_of_identifier() {
    match expr("f(1, x)") {
        Expr::Call { func, args } => {
            assert!(matches!(*func, Expr::Identifier(ref n) if n == "f"));
            assert_eq!(args.len(), 2);
        }
        _ => panic!("not a call"),
    }
}

#[test]
fn await_and_comprehension_forms() {
    assert!(matches!(expr("await load()"), Expr::Await(_)));
    match expr("[x * 2 for x in xs if x > 1]") {
        Expr::Comprehension { target, filter, .. } => {
            assert_eq!(target, "x");
            assert!(filter.is_some());
        }
        _ => panic!("not a comprehension"),
    }
    assert!(matches!(expr("[1, 2, 3]"), Expr::ArrayLiteral(ref v) if v.len() == 3));
}

#[test]
fn postfix_member_access() {
    assert!(matches!(expr("a.b.c(1)"), Expr::MethodCall { ref method, .. } if method == "c"));
    assert!(matches!(expr("xs[0]"), Expr::ArrayAccess { .. }));
}

#[test]
fn parses_function_with_reference_parameters() {
    let tokens = tokenize("async fn load(&a: number, &mut b) -> string { return a; }").unwrap();
    let ast = parse_program(&tokens).unwrap();
    assert_eq!(ast.functions.len(), 1);
    let f = &ast.functions[0];
    assert!(f.is_async);
    assert_eq!(f.name, "load");
    assert!(f.params[0].is_ref && !f.params[0].is_mut_ref);
    assert!(f.params[1].is_mut_ref && !f.params[1].is_ref);
    assert!(matches!(f.params[0].type_annotation, Some(Type::Number)));
    assert!(matches!(f.return_type, Some(Type::String)));
    assert!(matches!(f.body[0], Stmt::Return(Some(_))));
}

#[test]
fn parses_component_with_markup() {
    let src = "component Counter { state count = 0; let double = count * 2; fn inc() { count = count + 1; } \
               <div id=\"box\" hidden><p>{count}</p>{#if count > 1}\"many\"{:else}\"few\"{/if}{#for x in items}<li>{x}</li>{/for}</div> }";
    let tokens = tokenize(src).unwrap();
    let ast = parse_program(&tokens).unwrap();
    let c = &ast.components[0];
    assert_eq!(c.name, "Counter");
    assert_eq!(c.state_vars.len(), 1);
    assert_eq!(c.let_vars.len(), 1);
    assert_eq!(c.functions.len(), 1);
    assert_eq!(c.markup.len(), 1);
    match &c.markup[0] {
        MarkupNode::Element { tag, attributes, children, .. } => {
            assert_eq!(tag, "div");
            assert_eq!(attributes.len(), 2);
            assert!(matches!(attributes[1].value, Expr::BooleanLiteral(true)));
            assert_eq!(children.len(), 3);
            assert!(matches!(children[1], MarkupNode::IfBlock { else_branch: Some(_), .. }));
            assert!(matches!(children[2], MarkupNode::ForLoop { .. }));
        }
        _ => panic!("not an element"),
    }
}

#[test]
fn parses_reactive_binding_and_statements() {
    let src = "fn f() { let a = 1; $: b = a; if (a) { a = 2; } else { a = 3; } for x in xs { } while (a) { break; } }";
    let tokens = tokenize(src).unwrap();
    let ast = parse_program(&tokens).unwrap();
    let body = &ast.functions[0].body;
    assert!(matches!(body[0], Stmt::Let { .. }));
    assert!(matches!(body[1], Stmt::Reactive { ref name, .. } if name == "b"));
    assert!(matches!(body[2], Stmt::If { else_: Some(_), .. }));
    assert!(matches!(body[3], Stmt::ForIn { .. }));
    assert!(matches!(body[4], Stmt::While { .. }));
}

#[test]
fn parses_class_import_and_module() {
    let src = "import { a, b } from lib as l; class P { x: number = 1; constructor(v) { } fn get() { return x; } } module m { fn g() { } }";
    let tokens = tokenize(src).unwrap();
    let ast = parse_program(&tokens).unwrap();
    assert_eq!(ast.imports[0].items, vec!["a".to_string(), "b".to_string()]);
    assert_eq!(ast.imports[0].alias, Some("l".to_string()));
    assert_eq!(ast.classes[0].fields.len(), 1);
    assert_eq!(ast.classes[0].methods.len(), 1);
    assert!(ast.classes[0].constructor.is_some());
    assert_eq!(ast.modules[0].functions.len(), 1);
}

#[test]
fn unexpected_top_level_token_is_an_error() {
    let tokens = tokenize("let x = 1;").unwrap();
    let e = parse_program(&tokens).unwrap_err();
    assert_eq!(e.position, 0);
    assert_eq!(e.found, Token::Let);
}

#[test]
fn missing_token_reports_expected_and_found() {
    let tokens = tokenize("fn f( { }").unwrap();
    let e = parse_program(&tokens).unwrap_err();
    assert_eq!(e.found, Token::LeftBrace);
    assert_eq!(e.expected, "identifier");
}

#[test]
fn parser_adds_missing_eof() {
    let parser = Parser::new(vec![Token::Fn, Token::Identifier("f".to_string()), Token::LeftParen, Token::RightParen, Token::LeftBrace, Token::RightBrace]);
    let ast = parser.parse().unwrap();
    assert_eq!(ast.functions.len(), 1);
}

#[test]
fn switch_with_default_last() {
    let tokens = tokenize("fn f(x) { switch (x) { case 1: { g(); } case 2: { } default: { h(); } } }").unwrap();
    let ast = parse_program(&tokens).unwrap();
    match &ast.functions[0].body[0] {
        Stmt::Switch { cases, default, .. } => {
            assert_eq!(cases.len(), 2);
            assert!(default.is_some());
        }
        _ => panic!("not a switch"),
    }
}

#[test]
fn switch_default_must_be_last() {
    let tokens = tokenize("fn f(x) { switch (x) { default: { } case 1: { } } }").unwrap();
    let e = parse_program(&tokens).unwrap_err();
    assert_eq!(e.found, Token::Case);
}

#[test]
fn try_catch_finally_and_labels() {
    let tokens = tokenize("fn f() { try { throw e; } catch (err) { break outer; } finally { continue; } }").unwrap();
    let ast = parse_program(&tokens).unwrap();
    match &ast.functions[0].body[0] {
        Stmt::Try { body, catch, finally } => {
            assert!(matches!(body[0], Stmt::Throw(_)));
            let c = catch.as_ref().unwrap();
            assert_eq!(c.error_var, "err");
            assert!(matches!(c.body[0], Stmt::Break(Some(ref l)) if l == "outer"));
            assert!(matches!(finally.as_ref().unwrap()[0], Stmt::Continue(None)));
        }
        _ => panic!("not a try"),
    }
}

#[test]
fn types_parse() {
    let tokens = tokenize("fn f(a: Option<number>, b: Result<string, Err>, c: { x: number }, d: &mut Array<any>) { }").unwrap();
    let ast = parse_program(&tokens).unwrap();
    let ps = &ast.functions[0].params;
    assert!(matches!(ps[0].type_annotation, Some(Type::Option(_))));
    assert!(matches!(ps[1].type_annotation, Some(Type::Result(_, _))));
    assert!(matches!(ps[2].type_annotation, Some(Type::Object(ref v)) if v.len() == 1));
    assert!(matches!(ps[3].type_annotation, Some(Type::MutRef(_))));
}

#[test]
fn markup_closing_tag_must_match() {
    let tokens = tokenize("component C { <div>\"x\"</span> }").unwrap();
    let e = parse_program(&tokens).unwrap_err();
    assert_eq!(e.found, Token::Identifier("span".to_string()));
}

#[test]
fn markup_self_closing_and_bare_attributes() {
    let tokens = tokenize("component C { <input value={v} disabled/> }").unwrap();
    let ast = parse_program(&tokens).unwrap();
    match &ast.components[0].markup[0] {
        MarkupNode::Element { tag, attributes, children, self_closing } => {
            assert_eq!(tag, "input");
            assert!(*self_closing);
            assert!(children.is_empty());
            assert!(!attributes[0].bare);
            assert!(matches!(attributes[0].value, Expr::Identifier(ref n) if n == "v"));
            assert!(attributes[1].bare);
        }
        _ => panic!("not an element"),
    }
}

#[test]
fn only_eof_is_the_empty_program() {
    let ast = Parser::new(vec![Token::EOF]).parse().unwrap();
    assert!(ast.functions.is_empty() && ast.components.is_empty() && ast.classes.is_empty());
    assert!(ast.modules.is_empty() && ast.imports.is_empty());
}

#[test]
fn leading_non_declaration_is_an_error() {
    assert!(Parser::new(vec![Token::Semicolon, Token::EOF]).parse().is_err());
}

#[test]
fn non_operator_ends_the_expression() {
    let tokens = tokenize("1 + 2;").unwrap();
    let (e, p) = parse_expression(&tokens, 0).unwrap();
    assert!(matches!(e, Expr::BinaryOp { op: BinaryOp::Add, .. }));
    assert_eq!(tokens[p], Token::Semicolon);
}
