//! Lowering: the AST to a flat IR module. Lowering is total. What the IR
//! has no node for (control flow bodies, markup, most operators) is kept as
//! a string literal holding its text.
use vstd::prelude::*;
use crate::ast::{Class, Component, Expr, Function, Module, Stmt, AST};
use crate::ir::{
    ir_expr_view, ir_exprs_view, ir_function_view, ir_functions_view, ir_opt_view, ir_stmt_view,
    ir_stmts_view, IRExpr, IRExprView, IRFunction, IRFunctionView, IRModule, IRStmt, IRStmtView,
};
use crate::render::{
    cases_text, expr_text, lower_expr_to_string, lower_render_block, render_text, stmts_text,
    write_cases, write_stmts,
};

verus! {

/// The IR of an expression: literals, identifiers, `await` and list
/// comprehensions keep their shape; anything else becomes its text.
pub open spec fn lower_expr_spec(e: Expr) -> IRExprView
    decreases e,
{
    match e {
        Expr::StringLiteral(s) => IRExprView::StringLiteral(s@),
        Expr::NumberLiteral(n) => IRExprView::NumberLiteral(n@),
        Expr::BooleanLiteral(b) => IRExprView::StringLiteral(if b { "true"@ } else { "false"@ }),
        Expr::NullLiteral => IRExprView::StringLiteral("null"@),
        Expr::UndefinedLiteral => IRExprView::StringLiteral("undefined"@),
        Expr::Identifier(n) => IRExprView::Identifier(n@),
        Expr::Await(inner) => IRExprView::Await(Box::new(lower_expr_spec(*inner))),
        Expr::Comprehension { target, iter, filter, expr } => IRExprView::Comprehension {
            target: target@,
            iter: Box::new(lower_expr_spec(*iter)),
            filter: match filter {
                Some(f) => Some(Box::new(lower_expr_spec(*f))),
                None => None,
            },
            expr: Box::new(lower_expr_spec(*expr)),
        },
        _ => IRExprView::StringLiteral(expr_text(e)),
    }
}

pub open spec fn lower_exprs_spec(es: Seq<Expr>) -> Seq<IRExprView> {
    es.map_values(|e: Expr| lower_expr_spec(e))
}

pub open spec fn lower_opt_spec(e: Option<Expr>) -> Option<IRExprView> {
    match e {
        Some(x) => Some(lower_expr_spec(x)),
        None => None,
    }
}

pub open spec fn catch_text(c: Option<crate::ast::CatchBlock>) -> Seq<char> {
    match c {
        Some(c) => "catch ("@ + c.error_var@ + ") { "@ + stmts_text(c.body@) + " }"@,
        None => Seq::empty(),
    }
}

pub open spec fn text_arg(t: Seq<char>) -> IRExprView {
    IRExprView::StringLiteral(t)
}

pub open spec fn opt_body_text(b: Option<Vec<Stmt>>) -> Seq<char> {
    match b {
        Some(ss) => stmts_text(ss@),
        None => Seq::empty(),
    }
}

/// The IR of a statement. A call statement keeps its callee's text and its
/// lowered arguments; control flow becomes a call of its keyword with the
/// text of its bodies.
pub open spec fn lower_stmt_spec(s: Stmt) -> IRStmtView {
    match s {
        Stmt::Expr(e) => match e {
            Expr::Call { func, args } => IRStmtView::Call { func: expr_text(*func), args: lower_exprs_spec(args@) },
            Expr::MethodCall { object, method, args } => IRStmtView::Call {
                func: expr_text(*object) + "."@ + method@,
                args: lower_exprs_spec(args@),
            },
            Expr::Await(inner) => IRStmtView::Await(lower_expr_spec(*inner)),
            _ => IRStmtView::Call { func: "expr"@, args: seq![lower_expr_spec(e)] },
        },
        Stmt::Assign { target, value } => IRStmtView::Assign { target: target@, value: lower_expr_spec(value) },
        Stmt::If { condition, then, else_ } => IRStmtView::Call {
            func: "if"@,
            args: seq![lower_expr_spec(condition), text_arg(stmts_text(then@)), text_arg(opt_body_text(else_))],
        },
        Stmt::While { condition, body } => IRStmtView::Call {
            func: "while"@,
            args: seq![lower_expr_spec(condition), text_arg(stmts_text(body@))],
        },
        Stmt::ForIn { variable, iterable, body } => IRStmtView::Call {
            func: "forin"@,
            args: seq![text_arg(variable@), lower_expr_spec(iterable), text_arg(stmts_text(body@))],
        },
        Stmt::ForOf { variable, iterable, body } => IRStmtView::Call {
            func: "forof"@,
            args: seq![text_arg(variable@), lower_expr_spec(iterable), text_arg(stmts_text(body@))],
        },
        Stmt::Return(e) => IRStmtView::Return(lower_opt_spec(e)),
        Stmt::Let { name, value, .. } => IRStmtView::Call {
            func: "let"@,
            args: seq![text_arg(name@), lower_expr_spec(value)],
        },
        Stmt::State { name, value, .. } => IRStmtView::Call {
            func: "state"@,
            args: seq![text_arg(name@), lower_expr_spec(value)],
        },
        Stmt::Block(b) => IRStmtView::Call { func: "block"@, args: seq![text_arg(stmts_text(b@))] },
        Stmt::Try { body, catch, finally } => IRStmtView::Call {
            func: "try"@,
            args: seq![
                text_arg(stmts_text(body@)),
                text_arg(catch_text(catch)),
                text_arg(opt_body_text(finally)),
            ],
        },
        Stmt::Throw(e) => IRStmtView::Call { func: "throw"@, args: seq![lower_expr_spec(e)] },
        Stmt::Break(l) => IRStmtView::Call {
            func: "break"@,
            args: seq![text_arg(match l { Some(n) => n@, None => Seq::empty() })],
        },
        Stmt::Continue(l) => IRStmtView::Call {
            func: "continue"@,
            args: seq![text_arg(match l { Some(n) => n@, None => Seq::empty() })],
        },
        Stmt::Switch { expression, cases, default } => IRStmtView::Call {
            func: "switch"@,
            args: seq![lower_expr_spec(expression), text_arg(cases_text(cases@)), text_arg(opt_body_text(default))],
        },
        Stmt::Reactive { name, expr } => IRStmtView::Reactive { name: name@, expr: lower_expr_spec(expr) },
        Stmt::Comprehension { target, iter, filter, expr } => IRStmtView::Comprehension {
            target: target@,
            iter: lower_expr_spec(iter),
            filter: lower_opt_spec(filter),
            expr: lower_expr_spec(expr),
        },
    }
}

pub open spec fn lower_stmts_spec(ss: Seq<Stmt>) -> Seq<IRStmtView> {
    ss.map_values(|s: Stmt| lower_stmt_spec(s))
}

/// A function becomes `fn_<name>` with its statements lowered one to one.
pub open spec fn lower_function_spec(f: Function) -> IRFunctionView {
    IRFunctionView { name: "fn_"@ + f.name@, body: lower_stmts_spec(f.body@) }
}

/// A component becomes `component_<name>` (`view_<name>` when written
/// `view`): an assignment per state variable and per derived value, a call
/// per inner function, then the render of its markup.
pub open spec fn lower_component_spec(c: Component) -> IRFunctionView {
    IRFunctionView {
        name: (if c.is_view { "view_"@ } else { "component_"@ }) + c.name@,
        body: c.state_vars@.map_values(
            |v: crate::ast::StateVar| IRStmtView::Assign { target: v.name@, value: lower_expr_spec(v.initial_value) },
        ) + c.let_vars@.map_values(
            |v: crate::ast::LetVar| IRStmtView::Assign { target: v.name@, value: lower_expr_spec(v.value) },
        ) + c.functions@.map_values(
            |f: Function| IRStmtView::Call { func: f.name@, args: Seq::empty() },
        ) + seq![IRStmtView::Render(IRExprView::StringLiteral(render_text(c.markup@)))],
    }
}

/// A class becomes `<Class>_<method>` per method, then
/// `<Class>_constructor` when it has a constructor.
pub open spec fn lower_class_spec(c: Class) -> Seq<IRFunctionView> {
    c.methods@.map_values(
        |m: Function| IRFunctionView { name: c.name@ + "_"@ + m.name@, body: lower_stmts_spec(m.body@) },
    ) + match c.constructor {
        Some(k) => seq![IRFunctionView { name: c.name@ + "_constructor"@, body: lower_stmts_spec(k.body@) }],
        None => Seq::empty(),
    }
}

pub open spec fn lower_classes_spec(cs: Seq<Class>) -> Seq<IRFunctionView>
    decreases cs.len(),
{
    if cs.len() == 0 {
        Seq::empty()
    } else {
        lower_classes_spec(cs.drop_last()) + lower_class_spec(cs.last())
    }
}

pub open spec fn lower_module_spec(m: Module) -> Seq<IRFunctionView> {
    m.functions@.map_values(|f: Function| lower_function_spec(f)) + m.components@.map_values(
        |c: Component| lower_component_spec(c),
    ) + lower_classes_spec(m.classes@)
}

pub open spec fn lower_modules_spec(ms: Seq<Module>) -> Seq<IRFunctionView>
    decreases ms.len(),
{
    if ms.len() == 0 {
        Seq::empty()
    } else {
        lower_modules_spec(ms.drop_last()) + lower_module_spec(ms.last())
    }
}

/// The IR of a program: its functions, components and classes, then those
/// of each module.
pub open spec fn lower_program_spec(ast: AST) -> Seq<IRFunctionView> {
    ast.functions@.map_values(|f: Function| lower_function_spec(f)) + ast.components@.map_values(
        |c: Component| lower_component_spec(c),
    ) + lower_classes_spec(ast.classes@) + lower_modules_spec(ast.modules@)
}

fn text_literal(t: &str) -> (r: IRExpr)
    ensures
        ir_expr_view(r) == IRExprView::StringLiteral(t@),
{
    IRExpr::StringLiteral(String::from_str(t))
}

/// Lowers an expression.
pub fn lower_expr(e: &Expr) -> (r: IRExpr)
    ensures
        ir_expr_view(r) == lower_expr_spec(*e),
    decreases e,
{
    match e {
        Expr::StringLiteral(s) => IRExpr::StringLiteral(s.clone()),
        Expr::NumberLiteral(n) => IRExpr::NumberLiteral(n.clone()),
        Expr::BooleanLiteral(b) => {
            if *b {
                text_literal("true")
            } else {
                text_literal("false")
            }
        },
        Expr::NullLiteral => text_literal("null"),
        Expr::UndefinedLiteral => text_literal("undefined"),
        Expr::Identifier(n) => IRExpr::Identifier(n.clone()),
        Expr::Await(inner) => IRExpr::Await(Box::new(lower_expr(inner))),
        Expr::Comprehension { target, iter, filter, expr } => {
            let filter = match filter {
                Some(f) => Some(Box::new(lower_expr(f))),
                None => None,
            };
            IRExpr::Comprehension {
                target: target.clone(),
                iter: Box::new(lower_expr(iter)),
                filter,
                expr: Box::new(lower_expr(expr)),
            }
        },
        _ => IRExpr::StringLiteral(lower_expr_to_string(e)),
    }
}

fn lower_exprs(es: &Vec<Expr>) -> (r: Vec<IRExpr>)
    ensures
        ir_exprs_view(r@) == lower_exprs_spec(es@),
{
    let mut out: Vec<IRExpr> = Vec::new();
    let mut i: usize = 0;
    while i < es.len()
        invariant
            i <= es@.len(),
            ir_exprs_view(out@) == lower_exprs_spec(es@.subrange(0, i as int)),
        decreases es@.len() - i,
    {
        let ghost before = out@;
        out.push(lower_expr(&es[i]));
        proof {
            assert(ir_exprs_view(out@) =~= ir_exprs_view(before).push(lower_expr_spec(es@[i as int])));
            assert(lower_exprs_spec(es@.subrange(0, i as int + 1)) =~= lower_exprs_spec(
                es@.subrange(0, i as int),
            ).push(lower_expr_spec(es@[i as int])));
        }
        i = i + 1;
    }
    proof {
        assert(es@.subrange(0, es@.len() as int) =~= es@);
    }
    out
}

fn lower_opt(e: &Option<Expr>) -> (r: Option<IRExpr>)
    ensures
        ir_opt_view(r) == lower_opt_spec(*e),
{
    match e {
        Some(x) => Some(lower_expr(x)),
        None => None,
    }
}

fn body_text(ss: &Vec<Stmt>) -> (r: IRExpr)
    ensures
        ir_expr_view(r) == IRExprView::StringLiteral(stmts_text(ss@)),
{
    let mut out = String::new();
    write_stmts(ss, &mut out);
    proof {
        assert(out@ =~= stmts_text(ss@));
    }
    IRExpr::StringLiteral(out)
}

fn opt_body(b: &Option<Vec<Stmt>>) -> (r: IRExpr)
    ensures
        ir_expr_view(r) == IRExprView::StringLiteral(opt_body_text(*b)),
{
    match b {
        Some(ss) => body_text(ss),
        None => IRExpr::StringLiteral(String::new()),
    }
}

fn name_text(n: &String) -> (r: IRExpr)
    ensures
        ir_expr_view(r) == IRExprView::StringLiteral(n@),
{
    IRExpr::StringLiteral(n.clone())
}

fn call_of(func: &str, args: Vec<IRExpr>) -> (r: IRStmt)
    ensures
        ir_stmt_view(r) == (IRStmtView::Call { func: func@, args: ir_exprs_view(args@) }),
{
    IRStmt::Call { func: String::from_str(func), args }
}

fn one(a: IRExpr) -> (r: Vec<IRExpr>)
    ensures
        ir_exprs_view(r@) == seq![ir_expr_view(a)],
{
    let mut v: Vec<IRExpr> = Vec::new();
    v.push(a);
    proof {
        assert(ir_exprs_view(v@) =~= seq![ir_expr_view(a)]);
    }
    v
}

fn two(a: IRExpr, b: IRExpr) -> (r: Vec<IRExpr>)
    ensures
        ir_exprs_view(r@) == seq![ir_expr_view(a), ir_expr_view(b)],
{
    let mut v: Vec<IRExpr> = Vec::new();
    v.push(a);
    v.push(b);
    proof {
        assert(ir_exprs_view(v@) =~= seq![ir_expr_view(a), ir_expr_view(b)]);
    }
    v
}

fn three(a: IRExpr, b: IRExpr, c: IRExpr) -> (r: Vec<IRExpr>)
    ensures
        ir_exprs_view(r@) == seq![ir_expr_view(a), ir_expr_view(b), ir_expr_view(c)],
{
    let mut v: Vec<IRExpr> = Vec::new();
    v.push(a);
    v.push(b);
    v.push(c);
    proof {
        assert(ir_exprs_view(v@) =~= seq![ir_expr_view(a), ir_expr_view(b), ir_expr_view(c)]);
    }
    v
}

fn lower_catch(c: &Option<crate::ast::CatchBlock>) -> (r: IRExpr)
    ensures
        ir_expr_view(r) == IRExprView::StringLiteral(catch_text(*c)),
{
    match c {
        Some(c) => {
            let mut t = String::from_str("catch (");
            t.append(c.error_var.as_str());
            t.append(") { ");
            write_stmts(&c.body, &mut t);
            t.append(" }");
            proof {
                assert(t@ =~= "catch ("@ + c.error_var@ + ") { "@ + stmts_text(c.body@) + " }"@);
            }
            IRExpr::StringLiteral(t)
        },
        None => IRExpr::StringLiteral(String::new()),
    }
}

/// An expression statement: a call keeps its callee's text (a method call
/// `o.m(...)` is a call of `o.m`), `await e`
/// becomes an await statement, anything else a call of `expr`.
fn lower_expr_stmt(e: &Expr) -> (r: IRStmt)
    ensures
        ir_stmt_view(r) == lower_stmt_spec(Stmt::Expr(*e)),
{
    match e {
        Expr::Call { func, args } => {
            let name = lower_expr_to_string(func);
            let lowered = lower_exprs(args);
            IRStmt::Call { func: name, args: lowered }
        },
        Expr::MethodCall { object, method, args } => {
            let mut name = lower_expr_to_string(object);
            name.append(".");
            name.append(method.as_str());
            let lowered = lower_exprs(args);
            IRStmt::Call { func: name, args: lowered }
        },
        Expr::Await(inner) => IRStmt::Await(lower_expr(inner)),
        _ => {
            let lowered = lower_expr(e);
            let r = call_of("expr", one(lowered));
            proof {
                assert(ir_stmt_view(r) == (IRStmtView::Call { func: "expr"@, args: seq![lower_expr_spec(*e)] }));
            }
            r
        },
    }
}

/// Lowers a statement.
#[verifier::rlimit(60)]
pub fn lower_stmt(s: &Stmt) -> (r: IRStmt)
    ensures
        ir_stmt_view(r) == lower_stmt_spec(*s),
{
    match s {
        Stmt::Expr(e) => lower_expr_stmt(e),
        Stmt::Assign { target, value } => IRStmt::Assign { target: target.clone(), value: lower_expr(value) },
        Stmt::If { condition, then, else_ } => call_of(
            "if",
            three(lower_expr(condition), body_text(then), opt_body(else_)),
        ),
        Stmt::While { condition, body } => call_of("while", two(lower_expr(condition), body_text(body))),
        Stmt::ForIn { variable, iterable, body } => call_of(
            "forin",
            three(name_text(variable), lower_expr(iterable), body_text(body)),
        ),
        Stmt::ForOf { variable, iterable, body } => call_of(
            "forof",
            three(name_text(variable), lower_expr(iterable), body_text(body)),
        ),
        Stmt::Return(e) => IRStmt::Return(lower_opt(e)),
        Stmt::Let { name, value, .. } => call_of("let", two(name_text(name), lower_expr(value))),
        Stmt::State { name, value, .. } => call_of("state", two(name_text(name), lower_expr(value))),
        Stmt::Block(b) => call_of("block", one(body_text(b))),
        Stmt::Try { body, catch, finally } => {
            let catch_text = lower_catch(catch);
            call_of("try", three(body_text(body), catch_text, opt_body(finally)))
        },
        Stmt::Throw(e) => call_of("throw", one(lower_expr(e))),
        Stmt::Break(l) => {
            let label = match l {
                Some(n) => name_text(n),
                None => IRExpr::StringLiteral(String::new()),
            };
            call_of("break", one(label))
        },
        Stmt::Continue(l) => {
            let label = match l {
                Some(n) => name_text(n),
                None => IRExpr::StringLiteral(String::new()),
            };
            call_of("continue", one(label))
        },
        Stmt::Switch { expression, cases, default } => {
            let mut t = String::new();
            write_cases(cases, &mut t);
            proof {
                assert(t@ =~= cases_text(cases@));
            }
            call_of("switch", three(lower_expr(expression), IRExpr::StringLiteral(t), opt_body(default)))
        },
        Stmt::Reactive { name, expr } => IRStmt::Reactive { name: name.clone(), expr: lower_expr(expr) },
        Stmt::Comprehension { target, iter, filter, expr } => IRStmt::Comprehension {
            target: target.clone(),
            iter: lower_expr(iter),
            filter: lower_opt(filter),
            expr: lower_expr(expr),
        },
    }
}

fn lower_stmts(ss: &Vec<Stmt>) -> (r: Vec<IRStmt>)
    ensures
        ir_stmts_view(r@) == lower_stmts_spec(ss@),
{
    let mut out: Vec<IRStmt> = Vec::new();
    let mut i: usize = 0;
    while i < ss.len()
        invariant
            i <= ss@.len(),
            ir_stmts_view(out@) == lower_stmts_spec(ss@.subrange(0, i as int)),
        decreases ss@.len() - i,
    {
        let ghost before = out@;
        out.push(lower_stmt(&ss[i]));
        proof {
            assert(ir_stmts_view(out@) =~= ir_stmts_view(before).push(lower_stmt_spec(ss@[i as int])));
            assert(lower_stmts_spec(ss@.subrange(0, i as int + 1)) =~= lower_stmts_spec(
                ss@.subrange(0, i as int),
            ).push(lower_stmt_spec(ss@[i as int])));
        }
        i = i + 1;
    }
    proof {
        assert(ss@.subrange(0, ss@.len() as int) =~= ss@);
    }
    out
}

/// A function: `fn_<name>`, its statements lowered one to one.
pub fn lower_function(f: &Function) -> (r: IRFunction)
    ensures
        ir_function_view(r) == lower_function_spec(*f),
{
    let mut name = String::from_str("fn_");
    name.append(f.name.as_str());
    IRFunction { name, body: lower_stmts(&f.body) }
}

/// A component: assignments for its state and derived values, a call per
/// inner function, then the render of its markup.
pub fn lower_component(c: &Component) -> (r: IRFunction)
    ensures
        ir_function_view(r) == lower_component_spec(*c),
{
    let mut name = if c.is_view {
        String::from_str("view_")
    } else {
        String::from_str("component_")
    };
    name.append(c.name.as_str());
    let ghost spec_body = lower_component_spec(*c).body;
    let ghost states = c.state_vars@.map_values(
        |v: crate::ast::StateVar| IRStmtView::Assign { target: v.name@, value: lower_expr_spec(v.initial_value) },
    );
    let ghost lets = c.let_vars@.map_values(
        |v: crate::ast::LetVar| IRStmtView::Assign { target: v.name@, value: lower_expr_spec(v.value) },
    );
    let ghost calls = c.functions@.map_values(
        |f: Function| IRStmtView::Call { func: f.name@, args: Seq::empty() },
    );
    let mut body: Vec<IRStmt> = Vec::new();
    let mut i: usize = 0;
    while i < c.state_vars.len()
        invariant
            i <= c.state_vars@.len(),
            ir_stmts_view(body@) =~= states.subrange(0, i as int),
            states == c.state_vars@.map_values(
                |v: crate::ast::StateVar| IRStmtView::Assign { target: v.name@, value: lower_expr_spec(v.initial_value) },
            ),
        decreases c.state_vars@.len() - i,
    {
        let v = &c.state_vars[i];
        let ghost before = body@;
        body.push(IRStmt::Assign { target: v.name.clone(), value: lower_expr(&v.initial_value) });
        proof {
            assert(ir_stmts_view(body@) =~= ir_stmts_view(before).push(states[i as int]));
        }
        i = i + 1;
    }
    let mut i: usize = 0;
    while i < c.let_vars.len()
        invariant
            i <= c.let_vars@.len(),
            ir_stmts_view(body@) =~= states + lets.subrange(0, i as int),
            states.len() == c.state_vars@.len(),
            lets == c.let_vars@.map_values(
                |v: crate::ast::LetVar| IRStmtView::Assign { target: v.name@, value: lower_expr_spec(v.value) },
            ),
        decreases c.let_vars@.len() - i,
    {
        let v = &c.let_vars[i];
        let ghost before = body@;
        body.push(IRStmt::Assign { target: v.name.clone(), value: lower_expr(&v.value) });
        proof {
            assert(ir_stmts_view(body@) =~= ir_stmts_view(before).push(lets[i as int]));
        }
        i = i + 1;
    }
    let mut i: usize = 0;
    while i < c.functions.len()
        invariant
            i <= c.functions@.len(),
            ir_stmts_view(body@) =~= states + lets + calls.subrange(0, i as int),
            lets.len() == c.let_vars@.len(),
            calls == c.functions@.map_values(
                |f: Function| IRStmtView::Call { func: f.name@, args: Seq::empty() },
            ),
        decreases c.functions@.len() - i,
    {
        let ghost before = body@;
        let no_args: Vec<IRExpr> = Vec::new();
        body.push(IRStmt::Call { func: c.functions[i].name.clone(), args: no_args });
        proof {
            assert(ir_exprs_view(no_args@) =~= Seq::empty());
            assert(ir_stmts_view(body@) =~= ir_stmts_view(before).push(calls[i as int]));
        }
        i = i + 1;
    }
    let ghost before = body@;
    body.push(IRStmt::Render(IRExpr::StringLiteral(lower_render_block(&c.markup))));
    proof {
        assert(ir_stmts_view(body@) =~= ir_stmts_view(before).push(
            IRStmtView::Render(IRExprView::StringLiteral(render_text(c.markup@))),
        ));
        assert(ir_stmts_view(body@) =~= spec_body);
    }
    IRFunction { name, body }
}

/// Appends the functions of a class: one per method, then the constructor.
pub fn lower_class(class: &Class, out: &mut Vec<IRFunction>)
    ensures
        ir_functions_view(final(out)@) == ir_functions_view(old(out)@) + lower_class_spec(*class),
{
    let ghost start = ir_functions_view(out@);
    let ghost methods = class.methods@.map_values(
        |m: Function| IRFunctionView { name: class.name@ + "_"@ + m.name@, body: lower_stmts_spec(m.body@) },
    );
    let mut i: usize = 0;
    while i < class.methods.len()
        invariant
            i <= class.methods@.len(),
            ir_functions_view(out@) =~= start + methods.subrange(0, i as int),
            methods == class.methods@.map_values(
                |m: Function| IRFunctionView { name: class.name@ + "_"@ + m.name@, body: lower_stmts_spec(m.body@) },
            ),
        decreases class.methods@.len() - i,
    {
        let m = &class.methods[i];
        let mut name = class.name.clone();
        name.append("_");
        name.append(m.name.as_str());
        let ghost before = out@;
        out.push(IRFunction { name, body: lower_stmts(&m.body) });
        proof {
            assert(ir_functions_view(out@) =~= ir_functions_view(before).push(methods[i as int]));
        }
        i = i + 1;
    }
    match &class.constructor {
        Some(k) => {
            let mut name = class.name.clone();
            name.append("_constructor");
            let ghost before = out@;
            out.push(IRFunction { name, body: lower_stmts(&k.body) });
            proof {
                assert(ir_functions_view(out@) =~= ir_functions_view(before).push(
                    IRFunctionView { name: class.name@ + "_constructor"@, body: lower_stmts_spec(k.body@) },
                ));
            }
        },
        None => {},
    }
    proof {
        assert(ir_functions_view(out@) =~= start + lower_class_spec(*class));
    }
}

fn lower_all(functions: &Vec<Function>, components: &Vec<Component>, classes: &Vec<Class>, out: &mut Vec<IRFunction>)
    ensures
        ir_functions_view(final(out)@) == ir_functions_view(old(out)@) + functions@.map_values(
            |f: Function| lower_function_spec(f),
        ) + components@.map_values(|c: Component| lower_component_spec(c)) + lower_classes_spec(
            classes@,
        ),
{
    let ghost start = ir_functions_view(out@);
    let ghost fs = functions@.map_values(|f: Function| lower_function_spec(f));
    let ghost cs = components@.map_values(|c: Component| lower_component_spec(c));
    let mut i: usize = 0;
    while i < functions.len()
        invariant
            i <= functions@.len(),
            fs == functions@.map_values(|f: Function| lower_function_spec(f)),
            ir_functions_view(out@) =~= start + fs.subrange(0, i as int),
        decreases functions@.len() - i,
    {
        let ghost before = out@;
        out.push(lower_function(&functions[i]));
        proof {
            assert(ir_functions_view(out@) =~= ir_functions_view(before).push(fs[i as int]));
        }
        i = i + 1;
    }
    let mut i: usize = 0;
    while i < components.len()
        invariant
            i <= components@.len(),
            fs.len() == functions@.len(),
            cs == components@.map_values(|c: Component| lower_component_spec(c)),
            ir_functions_view(out@) =~= start + fs + cs.subrange(0, i as int),
        decreases components@.len() - i,
    {
        let ghost before = out@;
        out.push(lower_component(&components[i]));
        proof {
            assert(ir_functions_view(out@) =~= ir_functions_view(before).push(cs[i as int]));
        }
        i = i + 1;
    }
    let mut i: usize = 0;
    while i < classes.len()
        invariant
            i <= classes@.len(),
            cs.len() == components@.len(),
            fs.len() == functions@.len(),
            ir_functions_view(out@) =~= start + fs + cs + lower_classes_spec(classes@.subrange(0, i as int)),
        decreases classes@.len() - i,
    {
        lower_class(&classes[i], out);
        proof {
            assert(classes@.subrange(0, i as int + 1).drop_last() =~= classes@.subrange(0, i as int));
        }
        i = i + 1;
    }
    proof {
        assert(classes@.subrange(0, classes@.len() as int) =~= classes@);
    }
}

/// Lowers a program: its functions, components and classes, then those of
/// each module, in order.
pub fn generate_ir(ast: &AST) -> (r: IRModule)
    ensures
        ir_functions_view(r.functions@) == lower_program_spec(*ast),
{
    let mut functions: Vec<IRFunction> = Vec::new();
    proof {
        assert(ir_functions_view(functions@) =~= Seq::empty());
    }
    lower_all(&ast.functions, &ast.components, &ast.classes, &mut functions);
    let ghost top = ir_functions_view(functions@);
    let mut i: usize = 0;
    while i < ast.modules.len()
        invariant
            i <= ast.modules@.len(),
            ir_functions_view(functions@) =~= top + lower_modules_spec(ast.modules@.subrange(0, i as int)),
        decreases ast.modules@.len() - i,
    {
        let m = &ast.modules[i];
        lower_all(&m.functions, &m.components, &m.classes, &mut functions);
        proof {
            assert(ast.modules@.subrange(0, i as int + 1).drop_last() =~= ast.modules@.subrange(0, i as int));
        }
        i = i + 1;
    }
    proof {
        assert(ast.modules@.subrange(0, ast.modules@.len() as int) =~= ast.modules@);
        assert(ir_functions_view(functions@) =~= lower_program_spec(*ast));
    }
    IRModule { functions }
}

} // verus!
