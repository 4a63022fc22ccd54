//! The intermediate representation: a module is a flat list of functions,
//! each a list of statements built from expressions.
use vstd::prelude::*;

verus! {

/// A lowered program: an ordered list of functions.
#[derive(Debug)]
pub struct IRModule {
    pub functions: Vec<IRFunction>,
}

/// One function of the IR, with its statements in order.
#[derive(Debug)]
pub struct IRFunction {
    pub name: String,
    pub body: Vec<IRStmt>,
}

/// An IR statement.
#[derive(Debug)]
pub enum IRStmt {
    Call { func: String, args: Vec<IRExpr> },
    Assign { target: String, value: IRExpr },
    Await(IRExpr),
    Reactive { name: String, expr: IRExpr },
    Comprehension { target: String, iter: IRExpr, filter: Option<IRExpr>, expr: IRExpr },
    Render(IRExpr),
    EventBind { target: String, event: String, handler: String },
    DomOp { op: String, args: Vec<IRExpr> },
    Return(Option<IRExpr>),
}

/// An IR expression. Number literals keep the digits of their source text.
#[derive(Debug)]
pub enum IRExpr {
    StringLiteral(String),
    NumberLiteral(String),
    Identifier(String),
    Await(Box<IRExpr>),
    Option(Box<IRExpr>),
    Result { ok: Box<IRExpr>, err: Box<IRExpr> },
    Comprehension {
        target: String,
        iter: Box<IRExpr>,
        filter: Option<Box<IRExpr>>,
        expr: Box<IRExpr>,
    },
    DomRef(String),
}

/// An IR expression with its strings as character sequences.
pub enum IRExprView {
    StringLiteral(Seq<char>),
    NumberLiteral(Seq<char>),
    Identifier(Seq<char>),
    Await(Box<IRExprView>),
    Option(Box<IRExprView>),
    Result { ok: Box<IRExprView>, err: Box<IRExprView> },
    Comprehension {
        target: Seq<char>,
        iter: Box<IRExprView>,
        filter: Option<Box<IRExprView>>,
        expr: Box<IRExprView>,
    },
    DomRef(Seq<char>),
}

/// An IR statement with its strings as character sequences.
pub enum IRStmtView {
    Call { func: Seq<char>, args: Seq<IRExprView> },
    Assign { target: Seq<char>, value: IRExprView },
    Await(IRExprView),
    Reactive { name: Seq<char>, expr: IRExprView },
    Comprehension { target: Seq<char>, iter: IRExprView, filter: Option<IRExprView>, expr: IRExprView },
    Render(IRExprView),
    EventBind { target: Seq<char>, event: Seq<char>, handler: Seq<char> },
    DomOp { op: Seq<char>, args: Seq<IRExprView> },
    Return(Option<IRExprView>),
}

/// An IR function with its strings as character sequences.
pub struct IRFunctionView {
    pub name: Seq<char>,
    pub body: Seq<IRStmtView>,
}

pub open spec fn ir_expr_view(e: IRExpr) -> IRExprView
    decreases e,
{
    match e {
        IRExpr::StringLiteral(s) => IRExprView::StringLiteral(s@),
        IRExpr::NumberLiteral(s) => IRExprView::NumberLiteral(s@),
        IRExpr::Identifier(s) => IRExprView::Identifier(s@),
        IRExpr::Await(x) => IRExprView::Await(Box::new(ir_expr_view(*x))),
        IRExpr::Option(x) => IRExprView::Option(Box::new(ir_expr_view(*x))),
        IRExpr::Result { ok, err } => IRExprView::Result {
            ok: Box::new(ir_expr_view(*ok)),
            err: Box::new(ir_expr_view(*err)),
        },
        IRExpr::Comprehension { target, iter, filter, expr } => IRExprView::Comprehension {
            target: target@,
            iter: Box::new(ir_expr_view(*iter)),
            filter: match filter {
                Some(f) => Some(Box::new(ir_expr_view(*f))),
                None => None,
            },
            expr: Box::new(ir_expr_view(*expr)),
        },
        IRExpr::DomRef(s) => IRExprView::DomRef(s@),
    }
}

pub open spec fn ir_exprs_view(es: Seq<IRExpr>) -> Seq<IRExprView> {
    es.map_values(|e: IRExpr| ir_expr_view(e))
}

pub open spec fn ir_opt_view(e: Option<IRExpr>) -> Option<IRExprView> {
    match e {
        Some(x) => Some(ir_expr_view(x)),
        None => None,
    }
}

pub open spec fn ir_stmt_view(s: IRStmt) -> IRStmtView {
    match s {
        IRStmt::Call { func, args } => IRStmtView::Call { func: func@, args: ir_exprs_view(args@) },
        IRStmt::Assign { target, value } => IRStmtView::Assign { target: target@, value: ir_expr_view(value) },
        IRStmt::Await(e) => IRStmtView::Await(ir_expr_view(e)),
        IRStmt::Reactive { name, expr } => IRStmtView::Reactive { name: name@, expr: ir_expr_view(expr) },
        IRStmt::Comprehension { target, iter, filter, expr } => IRStmtView::Comprehension {
            target: target@,
            iter: ir_expr_view(iter),
            filter: ir_opt_view(filter),
            expr: ir_expr_view(expr),
        },
        IRStmt::Render(e) => IRStmtView::Render(ir_expr_view(e)),
        IRStmt::EventBind { target, event, handler } => IRStmtView::EventBind {
            target: target@,
            event: event@,
            handler: handler@,
        },
        IRStmt::DomOp { op, args } => IRStmtView::DomOp { op: op@, args: ir_exprs_view(args@) },
        IRStmt::Return(e) => IRStmtView::Return(ir_opt_view(e)),
    }
}

pub open spec fn ir_stmts_view(ss: Seq<IRStmt>) -> Seq<IRStmtView> {
    ss.map_values(|s: IRStmt| ir_stmt_view(s))
}

pub open spec fn ir_function_view(f: IRFunction) -> IRFunctionView {
    IRFunctionView { name: f.name@, body: ir_stmts_view(f.body@) }
}

pub open spec fn ir_functions_view(fs: Seq<IRFunction>) -> Seq<IRFunctionView> {
    fs.map_values(|f: IRFunction| ir_function_view(f))
}

} // verus!
