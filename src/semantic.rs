//! Semantic checks over the AST: undeclared identifiers, parameters that
//! are both `&` and `&mut`, `await` outside an async function, and reactive
//! bindings to undeclared names. Analysis never stops early: every error
//! is collected, in traversal order.
use vstd::prelude::*;
use crate::ast::{
    Class, Component, Expr, Function, MarkupNode, Module, ObjectProperty, Parameter, Stmt,
    SwitchCase, AST,
};

verus! {

/// A semantic error.
#[derive(Debug, Clone)]
pub enum SemanticError {
    /// An identifier used where no variable of that name is in scope.
    UndeclaredVariable(String),
    /// A parameter marked both by-reference and by-mutable-reference.
    ConflictingReference(String),
    /// `await` in a function that is not `async`.
    AwaitOutsideAsync,
    /// `$: name = ...` where `name` was never declared.
    UndeclaredReactive(String),
}

/// A semantic error with its names as character sequences.
pub enum Diagnostic {
    UndeclaredVariable(Seq<char>),
    ConflictingReference(Seq<char>),
    AwaitOutsideAsync,
    UndeclaredReactive(Seq<char>),
}

impl SemanticError {
    /// A description of the error.
    pub fn message(&self) -> (r: String)
        ensures
            match self {
                SemanticError::UndeclaredVariable(n) => r@ == "Use of undeclared variable '"@ + n@ + "'"@,
                SemanticError::ConflictingReference(n) => r@ == "Parameter '"@ + n@
                    + "' cannot be both a reference and a mutable reference"@,
                SemanticError::AwaitOutsideAsync => r@ == "'await' used outside of async function"@,
                SemanticError::UndeclaredReactive(n) => r@ == "Reactive variable '$"@ + n@ + "' not declared"@,
            },
    {
        match self {
            SemanticError::UndeclaredVariable(n) => {
                let mut m = String::from_str("Use of undeclared variable '");
                m.append(n.as_str());
                m.append("'");
                m
            },
            SemanticError::ConflictingReference(n) => {
                let mut m = String::from_str("Parameter '");
                m.append(n.as_str());
                m.append("' cannot be both a reference and a mutable reference");
                m
            },
            SemanticError::AwaitOutsideAsync => String::from_str("'await' used outside of async function"),
            SemanticError::UndeclaredReactive(n) => {
                let mut m = String::from_str("Reactive variable '$");
                m.append(n.as_str());
                m.append("' not declared");
                m
            },
        }
    }
}

impl View for SemanticError {
    type V = Diagnostic;

    open spec fn view(&self) -> Diagnostic {
        match self {
            SemanticError::UndeclaredVariable(n) => Diagnostic::UndeclaredVariable(n@),
            SemanticError::ConflictingReference(n) => Diagnostic::ConflictingReference(n@),
            SemanticError::AwaitOutsideAsync => Diagnostic::AwaitOutsideAsync,
            SemanticError::UndeclaredReactive(n) => Diagnostic::UndeclaredReactive(n@),
        }
    }
}

pub open spec fn errors_view(es: Seq<SemanticError>) -> Seq<Diagnostic> {
    es.map_values(|e: SemanticError| e@)
}

/// The names in scope, as character sequences.
pub open spec fn scope_view(names: Seq<String>) -> Seq<Seq<char>> {
    names.map_values(|s: String| s@)
}

pub open spec fn use_of(name: Seq<char>, scope: Seq<Seq<char>>) -> Seq<Diagnostic> {
    if scope.contains(name) {
        Seq::empty()
    } else {
        seq![Diagnostic::UndeclaredVariable(name)]
    }
}

/// The errors in an expression, in pre-order. A comprehension's variable is
/// in scope in its filter and its element expression only.
pub open spec fn expr_diags(e: Expr, scope: Seq<Seq<char>>, in_async: bool) -> Seq<Diagnostic>
    decreases e,
{
    match e {
        Expr::Identifier(n) => use_of(n@, scope),
        Expr::Await(inner) => (if in_async {
            Seq::empty()
        } else {
            seq![Diagnostic::AwaitOutsideAsync]
        }) + expr_diags(*inner, scope, in_async),
        Expr::BinaryOp { left, right, .. } => expr_diags(*left, scope, in_async) + expr_diags(
            *right,
            scope,
            in_async,
        ),
        Expr::UnaryOp { operand, .. } => expr_diags(*operand, scope, in_async),
        Expr::Call { func, args } => expr_diags(*func, scope, in_async) + exprs_diags(
            args@,
            scope,
            in_async,
        ),
        Expr::MethodCall { object, args, .. } => expr_diags(*object, scope, in_async)
            + exprs_diags(args@, scope, in_async),
        Expr::PropertyAccess { object, .. } => expr_diags(*object, scope, in_async),
        Expr::ArrayAccess { array, index } => expr_diags(*array, scope, in_async) + expr_diags(
            *index,
            scope,
            in_async,
        ),
        Expr::New { args, .. } => exprs_diags(args@, scope, in_async),
        Expr::ArrayLiteral(items) => exprs_diags(items@, scope, in_async),
        Expr::ObjectLiteral(props) => props_diags(props@, scope, in_async),
        Expr::Comprehension { target, iter, filter, expr } => {
            let inner = scope.push(target@);
            expr_diags(*iter, scope, in_async) + match filter {
                Some(f) => expr_diags(*f, inner, in_async),
                None => Seq::empty(),
            } + expr_diags(*expr, inner, in_async)
        },
        _ => Seq::empty(),
    }
}

pub open spec fn exprs_diags(es: Seq<Expr>, scope: Seq<Seq<char>>, in_async: bool) -> Seq<Diagnostic>
    decreases es,
{
    if es.len() == 0 {
        Seq::empty()
    } else {
        exprs_diags(es.drop_last(), scope, in_async) + expr_diags(es.last(), scope, in_async)
    }
}

pub open spec fn props_diags(ps: Seq<ObjectProperty>, scope: Seq<Seq<char>>, in_async: bool) -> Seq<
    Diagnostic,
>
    decreases ps,
{
    if ps.len() == 0 {
        Seq::empty()
    } else {
        props_diags(ps.drop_last(), scope, in_async) + expr_diags(ps.last().value, scope, in_async)
    }
}

pub open spec fn opt_expr_diags(e: Option<Expr>, scope: Seq<Seq<char>>, in_async: bool) -> Seq<Diagnostic> {
    match e {
        Some(x) => expr_diags(x, scope, in_async),
        None => Seq::empty(),
    }
}

/// The errors of a statement, and the scope after it: declarations add a
/// name; every nested body is checked in a scope of its own.
pub open spec fn stmt_diags(s: Stmt, scope: Seq<Seq<char>>, in_async: bool) -> (Seq<Diagnostic>, Seq<Seq<char>>)
    decreases s,
{
    match s {
        Stmt::Expr(e) => (expr_diags(e, scope, in_async), scope),
        Stmt::Assign { target, value } => (expr_diags(value, scope, in_async) + use_of(target@, scope), scope),
        Stmt::If { condition, then, else_ } => (expr_diags(condition, scope, in_async) + stmts_diags(
            then@,
            scope,
            in_async,
        ).0 + match else_ {
            Some(b) => stmts_diags(b@, scope, in_async).0,
            None => Seq::empty(),
        }, scope),
        Stmt::While { condition, body } => (expr_diags(condition, scope, in_async) + stmts_diags(
            body@,
            scope,
            in_async,
        ).0, scope),
        Stmt::ForIn { variable, iterable, body } => (expr_diags(iterable, scope, in_async)
            + stmts_diags(body@, scope.push(variable@), in_async).0, scope),
        Stmt::ForOf { variable, iterable, body } => (expr_diags(iterable, scope, in_async)
            + stmts_diags(body@, scope.push(variable@), in_async).0, scope),
        Stmt::Return(e) => (opt_expr_diags(e, scope, in_async), scope),
        Stmt::Let { name, value, .. } => (expr_diags(value, scope, in_async), scope.push(name@)),
        Stmt::State { name, value, .. } => (expr_diags(value, scope, in_async), scope.push(name@)),
        Stmt::Block(b) => (stmts_diags(b@, scope, in_async).0, scope),
        Stmt::Try { body, catch, finally } => (stmts_diags(body@, scope, in_async).0 + match catch {
            Some(c) => stmts_diags(c.body@, scope.push(c.error_var@), in_async).0,
            None => Seq::empty(),
        } + match finally {
            Some(b) => stmts_diags(b@, scope, in_async).0,
            None => Seq::empty(),
        }, scope),
        Stmt::Throw(e) => (expr_diags(e, scope, in_async), scope),
        Stmt::Switch { expression, cases, default } => (expr_diags(expression, scope, in_async)
            + cases_diags(cases@, scope, in_async) + match default {
            Some(b) => stmts_diags(b@, scope, in_async).0,
            None => Seq::empty(),
        }, scope),
        Stmt::Reactive { name, expr } => (expr_diags(expr, scope, in_async) + if scope.contains(
            name@,
        ) {
            Seq::empty()
        } else {
            seq![Diagnostic::UndeclaredReactive(name@)]
        }, scope),
        Stmt::Comprehension { target, iter, filter, expr } => {
            let inner = scope.push(target@);
            (expr_diags(iter, scope, in_async) + opt_expr_diags(filter, inner, in_async)
                + expr_diags(expr, inner, in_async), scope)
        },
        _ => (Seq::empty(), scope),
    }
}

/// The errors of a statement list checked in order from `scope`, and the
/// scope at its end.
pub open spec fn stmts_diags(ss: Seq<Stmt>, scope: Seq<Seq<char>>, in_async: bool) -> (Seq<Diagnostic>, Seq<Seq<char>>)
    decreases ss,
{
    if ss.len() == 0 {
        (Seq::empty(), scope)
    } else {
        let first = stmt_diags(ss[0], scope, in_async);
        let rest = stmts_diags(ss.subrange(1, ss.len() as int), first.1, in_async);
        (first.0 + rest.0, rest.1)
    }
}

pub open spec fn cases_diags(cs: Seq<SwitchCase>, scope: Seq<Seq<char>>, in_async: bool) -> Seq<Diagnostic>
    decreases cs,
{
    if cs.len() == 0 {
        Seq::empty()
    } else {
        expr_diags(cs[0].value, scope, in_async) + stmts_diags(cs[0].body@, scope, in_async).0
            + cases_diags(cs.subrange(1, cs.len() as int), scope, in_async)
    }
}

/// The errors in a markup node; a for-block's variable is in scope in its body.
pub open spec fn markup_diags(node: MarkupNode, scope: Seq<Seq<char>>) -> Seq<Diagnostic>
    decreases node,
{
    match node {
        MarkupNode::Element { attributes, children, .. } => attrs_diags(attributes@, scope)
            + markups_diags(children@, scope),
        MarkupNode::Text(e) => expr_diags(e, scope, false),
        MarkupNode::IfBlock { condition, then_branch, else_branch } => expr_diags(condition, scope, false)
            + markups_diags(then_branch@, scope) + match else_branch {
            Some(b) => markups_diags(b@, scope),
            None => Seq::empty(),
        },
        MarkupNode::ForLoop { iterator, iterable, body } => expr_diags(iterable, scope, false)
            + markups_diags(body@, scope.push(iterator@)),
    }
}

pub open spec fn markups_diags(ns: Seq<MarkupNode>, scope: Seq<Seq<char>>) -> Seq<Diagnostic>
    decreases ns,
{
    if ns.len() == 0 {
        Seq::empty()
    } else {
        markups_diags(ns.drop_last(), scope) + markup_diags(ns.last(), scope)
    }
}

pub open spec fn attrs_diags(attrs: Seq<crate::ast::Attribute>, scope: Seq<Seq<char>>) -> Seq<Diagnostic>
    decreases attrs.len(),
{
    if attrs.len() == 0 {
        Seq::empty()
    } else {
        attrs_diags(attrs.drop_last(), scope) + expr_diags(attrs.last().value, scope, false)
    }
}

/// Conflict errors for parameters marked both `&` and `&mut`.
pub open spec fn params_diags(ps: Seq<Parameter>) -> Seq<Diagnostic>
    decreases ps.len(),
{
    if ps.len() == 0 {
        Seq::empty()
    } else {
        params_diags(ps.drop_last()) + if ps.last().is_ref && ps.last().is_mut_ref {
            seq![Diagnostic::ConflictingReference(ps.last().name@)]
        } else {
            Seq::empty()
        }
    }
}

/// The parameter names, added to a scope.
pub open spec fn with_params(scope: Seq<Seq<char>>, ps: Seq<Parameter>) -> Seq<Seq<char>>
    decreases ps.len(),
{
    if ps.len() == 0 {
        scope
    } else {
        with_params(scope, ps.drop_last()).push(ps.last().name@)
    }
}

/// The errors of a function checked in `outer` plus its parameters; `await`
/// is allowed only in an `async` function.
pub open spec fn function_diags(f: Function, outer: Seq<Seq<char>>) -> Seq<Diagnostic> {
    params_diags(f.params@) + stmts_diags(f.body@, with_params(outer, f.params@), f.is_async).0
}

pub open spec fn functions_diags(fs: Seq<Function>, outer: Seq<Seq<char>>) -> Seq<Diagnostic>
    decreases fs.len(),
{
    if fs.len() == 0 {
        Seq::empty()
    } else {
        functions_diags(fs.drop_last(), outer) + function_diags(fs.last(), outer)
    }
}

/// The state variable names, added to a scope.
pub open spec fn with_states(scope: Seq<Seq<char>>, vs: Seq<crate::ast::StateVar>) -> Seq<Seq<char>>
    decreases vs.len(),
{
    if vs.len() == 0 {
        scope
    } else {
        with_states(scope, vs.drop_last()).push(vs.last().name@)
    }
}

pub open spec fn state_inits_diags(vs: Seq<crate::ast::StateVar>, scope: Seq<Seq<char>>) -> Seq<Diagnostic>
    decreases vs.len(),
{
    if vs.len() == 0 {
        Seq::empty()
    } else {
        state_inits_diags(vs.drop_last(), scope) + expr_diags(vs.last().initial_value, scope, false)
    }
}

/// Derived values are checked in order, each in the scope of the state
/// variables and the derived values before it; the result is the errors and
/// the scope after the last one.
pub open spec fn lets_diags(ls: Seq<crate::ast::LetVar>, scope: Seq<Seq<char>>) -> (Seq<Diagnostic>, Seq<Seq<char>>)
    decreases ls.len(),
{
    if ls.len() == 0 {
        (Seq::empty(), scope)
    } else {
        let before = lets_diags(ls.drop_last(), scope);
        (before.0 + expr_diags(ls.last().value, before.1, false), before.1.push(ls.last().name@))
    }
}

/// A component: its state variables are in scope everywhere in it, its
/// derived values from their declaration on; inner functions and markup see
/// all of them.
pub open spec fn component_diags(c: Component, outer: Seq<Seq<char>>) -> Seq<Diagnostic> {
    let states = with_states(outer, c.state_vars@);
    let lets = lets_diags(c.let_vars@, states);
    state_inits_diags(c.state_vars@, states) + lets.0 + functions_diags(c.functions@, lets.1)
        + markups_diags(c.markup@, lets.1)
}

pub open spec fn components_diags(cs: Seq<Component>, outer: Seq<Seq<char>>) -> Seq<Diagnostic>
    decreases cs.len(),
{
    if cs.len() == 0 {
        Seq::empty()
    } else {
        components_diags(cs.drop_last(), outer) + component_diags(cs.last(), outer)
    }
}

/// The field names, added to a scope.
pub open spec fn with_fields(scope: Seq<Seq<char>>, fs: Seq<crate::ast::Field>) -> Seq<Seq<char>>
    decreases fs.len(),
{
    if fs.len() == 0 {
        scope
    } else {
        with_fields(scope, fs.drop_last()).push(fs.last().name@)
    }
}

/// A class: methods and the constructor see the fields.
pub open spec fn class_diags(c: Class, outer: Seq<Seq<char>>) -> Seq<Diagnostic> {
    let scope = with_fields(outer, c.fields@);
    functions_diags(c.methods@, scope) + match c.constructor {
        Some(k) => params_diags(k.params@) + stmts_diags(k.body@, with_params(scope, k.params@), false).0,
        None => Seq::empty(),
    }
}

pub open spec fn classes_diags(cs: Seq<Class>, outer: Seq<Seq<char>>) -> Seq<Diagnostic>
    decreases cs.len(),
{
    if cs.len() == 0 {
        Seq::empty()
    } else {
        classes_diags(cs.drop_last(), outer) + class_diags(cs.last(), outer)
    }
}

pub open spec fn module_diags(m: Module) -> Seq<Diagnostic> {
    functions_diags(m.functions@, Seq::empty()) + components_diags(m.components@, Seq::empty())
        + classes_diags(m.classes@, Seq::empty())
}

pub open spec fn modules_diags(ms: Seq<Module>) -> Seq<Diagnostic>
    decreases ms.len(),
{
    if ms.len() == 0 {
        Seq::empty()
    } else {
        modules_diags(ms.drop_last()) + module_diags(ms.last())
    }
}

/// All errors of a program: functions, then components, classes and
/// modules, each kind in source order.
pub open spec fn program_diags(ast: AST) -> Seq<Diagnostic> {
    functions_diags(ast.functions@, Seq::empty()) + components_diags(ast.components@, Seq::empty())
        + classes_diags(ast.classes@, Seq::empty()) + modules_diags(ast.modules@)
}

/// Whether an expression reads one of `names` through identifiers,
/// operators, calls, array and object literals.
pub open spec fn reads_any(e: Expr, names: Seq<Seq<char>>) -> bool
    decreases e,
{
    match e {
        Expr::Identifier(n) => names.contains(n@),
        Expr::BinaryOp { left, right, .. } => reads_any(*left, names) || reads_any(*right, names),
        Expr::UnaryOp { operand, .. } => reads_any(*operand, names),
        Expr::Call { func, args } => reads_any(*func, names) || reads_any_of(args@, names),
        Expr::ArrayLiteral(items) => reads_any_of(items@, names),
        Expr::ObjectLiteral(props) => props_read_any(props@, names),
        _ => false,
    }
}

pub open spec fn reads_any_of(es: Seq<Expr>, names: Seq<Seq<char>>) -> bool
    decreases es,
{
    if es.len() == 0 {
        false
    } else {
        reads_any_of(es.drop_last(), names) || reads_any(es.last(), names)
    }
}

pub open spec fn props_read_any(ps: Seq<ObjectProperty>, names: Seq<Seq<char>>) -> bool
    decreases ps,
{
    if ps.len() == 0 {
        false
    } else {
        props_read_any(ps.drop_last(), names) || reads_any(ps.last().value, names)
    }
}

/// The derived values of a component that read one of its state variables.
pub open spec fn derived_from_state(c: Component) -> Seq<Seq<char>>
    decreases c.let_vars@.len(),
{
    reactive_lets(c.let_vars@, with_states(Seq::empty(), c.state_vars@))
}

pub open spec fn reactive_lets(ls: Seq<crate::ast::LetVar>, states: Seq<Seq<char>>) -> Seq<Seq<char>>
    decreases ls.len(),
{
    if ls.len() == 0 {
        Seq::empty()
    } else {
        reactive_lets(ls.drop_last(), states) + if reads_any(ls.last().value, states) {
            seq![ls.last().name@]
        } else {
            Seq::empty()
        }
    }
}

/// The names in `scope`.
pub fn declared(scope: &Vec<String>, name: &String) -> (r: bool)
    ensures
        r == scope_view(scope@).contains(name@),
{
    let mut i: usize = 0;
    while i < scope.len()
        invariant
            i <= scope@.len(),
            forall|k: int| 0 <= k < i ==> scope@[k]@ != name@,
        decreases scope@.len() - i,
    {
        if scope[i] == *name {
            proof {
                assert(scope_view(scope@)[i as int] == name@);
            }
            return true;
        }
        i = i + 1;
    }
    proof {
        if scope_view(scope@).contains(name@) {
            let k = choose|k: int| 0 <= k < scope_view(scope@).len() && scope_view(scope@)[k] == name@;
            assert(scope@[k]@ == name@);
        }
    }
    false
}

/// A copy of a scope.
fn copy_scope(scope: &Vec<String>) -> (r: Vec<String>)
    ensures
        scope_view(r@) == scope_view(scope@),
{
    let mut out: Vec<String> = Vec::new();
    let mut i: usize = 0;
    while i < scope.len()
        invariant
            i <= scope@.len(),
            scope_view(out@) == scope_view(scope@.subrange(0, i as int)),
        decreases scope@.len() - i,
    {
        let ghost before = out@;
        out.push(scope[i].clone());
        proof {
            assert(scope_view(out@) =~= scope_view(before).push(scope@[i as int]@));
            assert(scope_view(scope@.subrange(0, i as int + 1)) =~= scope_view(
                scope@.subrange(0, i as int),
            ).push(scope@[i as int]@));
        }
        i = i + 1;
    }
    proof {
        assert(scope@.subrange(0, scope@.len() as int) =~= scope@);
    }
    out
}

/// A copy of a scope with one more name.
fn scope_with(scope: &Vec<String>, name: &String) -> (r: Vec<String>)
    ensures
        scope_view(r@) == scope_view(scope@).push(name@),
{
    let mut out = copy_scope(scope);
    let ghost before = out@;
    out.push(name.clone());
    proof {
        assert(scope_view(out@) =~= scope_view(before).push(name@));
    }
    out
}

fn push_name(scope: &mut Vec<String>, name: &String)
    ensures
        scope_view(final(scope)@) == scope_view(old(scope)@).push(name@),
{
    scope.push(name.clone());
    proof {
        assert(scope_view(final(scope)@) =~= scope_view(old(scope)@).push(name@));
    }
}

/// Collects semantic errors over a program.
pub struct SemanticAnalyzer {
    pub errors: Vec<SemanticError>,
    /// Derived (`let`) values of components that read reactive state.
    pub derived: Vec<String>,
}

impl SemanticAnalyzer {
    pub fn new() -> (r: SemanticAnalyzer)
        ensures
            r.errors@.len() == 0,
            r.derived@.len() == 0,
    {
        SemanticAnalyzer { errors: Vec::new(), derived: Vec::new() }
    }

    fn report(&mut self, e: SemanticError)
        ensures
            final(self).derived@ == old(self).derived@,
            errors_view(final(self).errors@) == errors_view(old(self).errors@).push(e@),
    {
        self.errors.push(e);
        proof {
            assert(errors_view(final(self).errors@) =~= errors_view(old(self).errors@).push(e@));
        }
    }

    fn check_identifier(&mut self, name: &String, scope: &Vec<String>)
        ensures
            final(self).derived@ == old(self).derived@,
            errors_view(final(self).errors@) == errors_view(old(self).errors@) + use_of(
                name@,
                scope_view(scope@),
            ),
    {
        if !declared(scope, name) {
            self.report(SemanticError::UndeclaredVariable(name.clone()));
        } else {
            proof {
                assert(errors_view(self.errors@) =~= errors_view(self.errors@) + Seq::empty());
            }
        }
    }

    /// Checks an expression.
    pub fn check_expr(&mut self, expr: &Expr, scope: &Vec<String>, in_async: bool)
        ensures
            final(self).derived@ == old(self).derived@,
            errors_view(final(self).errors@) == errors_view(old(self).errors@) + expr_diags(
                *expr,
                scope_view(scope@),
                in_async,
            ),
        decreases expr, 0int,
    {
        let ghost sv = scope_view(scope@);
        let ghost start = errors_view(self.errors@);
        match expr {
            Expr::Identifier(name) => self.check_identifier(name, scope),
            Expr::Await(inner) => {
                if !in_async {
                    self.report(SemanticError::AwaitOutsideAsync);
                }
                self.check_expr(inner, scope, in_async);
                proof {
                    assert(errors_view(self.errors@) =~= start + expr_diags(*expr, sv, in_async));
                }
            },
            Expr::BinaryOp { left, right, .. } => {
                self.check_expr(left, scope, in_async);
                self.check_expr(right, scope, in_async);
                proof {
                    assert(errors_view(self.errors@) =~= start + expr_diags(*expr, sv, in_async));
                }
            },
            Expr::UnaryOp { operand, .. } => self.check_expr(operand, scope, in_async),
            Expr::Call { func, args } => {
                self.check_expr(func, scope, in_async);
                self.check_exprs(args, scope, in_async);
                proof {
                    assert(errors_view(self.errors@) =~= start + expr_diags(*expr, sv, in_async));
                }
            },
            Expr::MethodCall { object, args, .. } => {
                self.check_expr(object, scope, in_async);
                self.check_exprs(args, scope, in_async);
                proof {
                    assert(errors_view(self.errors@) =~= start + expr_diags(*expr, sv, in_async));
                }
            },
            Expr::PropertyAccess { object, .. } => self.check_expr(object, scope, in_async),
            Expr::ArrayAccess { array, index } => {
                self.check_expr(array, scope, in_async);
                self.check_expr(index, scope, in_async);
                proof {
                    assert(errors_view(self.errors@) =~= start + expr_diags(*expr, sv, in_async));
                }
            },
            Expr::New { args, .. } => self.check_exprs(args, scope, in_async),
            Expr::ArrayLiteral(items) => self.check_exprs(items, scope, in_async),
            Expr::ObjectLiteral(props) => self.check_props(props, scope, in_async),
            Expr::Comprehension { target, iter, filter, expr: item } => {
                self.check_expr(iter, scope, in_async);
                let inner = scope_with(scope, target);
                match filter {
                    Some(f) => self.check_expr(f, &inner, in_async),
                    None => {},
                }
                self.check_expr(item, &inner, in_async);
                proof {
                    assert(errors_view(self.errors@) =~= start + expr_diags(*expr, sv, in_async));
                }
            },
            _ => {
                proof {
                    assert(errors_view(self.errors@) =~= start + expr_diags(*expr, sv, in_async));
                }
            },
        }
    }

    fn check_exprs(&mut self, es: &Vec<Expr>, scope: &Vec<String>, in_async: bool)
        ensures
            final(self).derived@ == old(self).derived@,
            errors_view(final(self).errors@) == errors_view(old(self).errors@) + exprs_diags(
                es@,
                scope_view(scope@),
                in_async,
            ),
        decreases es, 0int,
    {
        let ghost start = errors_view(self.errors@);
        let mut i: usize = 0;
        while i < es.len()
            invariant
                self.derived@ == old(self).derived@,
                i <= es@.len(),
                errors_view(self.errors@) == start + exprs_diags(
                    es@.subrange(0, i as int),
                    scope_view(scope@),
                    in_async,
                ),
            decreases es@.len() - i,
        {
            proof {
                assert(decreases_to!(es => es@[i as int]));
            }
            self.check_expr(&es[i], scope, in_async);
            proof {
                let next = es@.subrange(0, i as int + 1);
                assert(next.drop_last() =~= es@.subrange(0, i as int));
                assert(errors_view(self.errors@) =~= start + exprs_diags(next, scope_view(scope@), in_async));
            }
            i = i + 1;
        }
        proof {
            assert(es@.subrange(0, es@.len() as int) =~= es@);
        }
    }

    fn check_props(&mut self, ps: &Vec<ObjectProperty>, scope: &Vec<String>, in_async: bool)
        ensures
            final(self).derived@ == old(self).derived@,
            errors_view(final(self).errors@) == errors_view(old(self).errors@) + props_diags(
                ps@,
                scope_view(scope@),
                in_async,
            ),
        decreases ps, 0int,
    {
        let ghost start = errors_view(self.errors@);
        let mut i: usize = 0;
        while i < ps.len()
            invariant
                self.derived@ == old(self).derived@,
                i <= ps@.len(),
                errors_view(self.errors@) == start + props_diags(
                    ps@.subrange(0, i as int),
                    scope_view(scope@),
                    in_async,
                ),
            decreases ps@.len() - i,
        {
            proof {
                assert(decreases_to!(ps => ps@[i as int].value));
            }
            self.check_expr(&ps[i].value, scope, in_async);
            proof {
                let next = ps@.subrange(0, i as int + 1);
                assert(next.drop_last() =~= ps@.subrange(0, i as int));
                assert(errors_view(self.errors@) =~= start + props_diags(next, scope_view(scope@), in_async));
            }
            i = i + 1;
        }
        proof {
            assert(ps@.subrange(0, ps@.len() as int) =~= ps@);
        }
    }

    fn check_opt_expr(&mut self, e: &Option<Expr>, scope: &Vec<String>, in_async: bool)
        ensures
            final(self).derived@ == old(self).derived@,
            errors_view(final(self).errors@) == errors_view(old(self).errors@) + opt_expr_diags(
                *e,
                scope_view(scope@),
                in_async,
            ),
    {
        match e {
            Some(x) => self.check_expr(x, scope, in_async),
            None => {
                proof {
                    assert(errors_view(self.errors@) =~= errors_view(self.errors@) + Seq::empty());
                }
            },
        }
    }

    /// Checks a statement; a declaration adds its name to `scope`.
    #[verifier::rlimit(80)]
    pub fn check_stmt(&mut self, stmt: &Stmt, scope: &mut Vec<String>, in_async: bool)
        ensures
            final(self).derived@ == old(self).derived@,
            errors_view(final(self).errors@) == errors_view(old(self).errors@) + stmt_diags(
                *stmt,
                scope_view(old(scope)@),
                in_async,
            ).0,
            scope_view(final(scope)@) == stmt_diags(*stmt, scope_view(old(scope)@), in_async).1,
        decreases stmt, 1int,
    {
        let ghost sv = scope_view(scope@);
        let ghost start = errors_view(self.errors@);
        match stmt {
            Stmt::Expr(e) => self.check_expr(e, scope, in_async),
            Stmt::Assign { target, value } => {
                self.check_expr(value, scope, in_async);
                self.check_identifier(target, scope);
                proof {
                    assert(errors_view(self.errors@) =~= start + stmt_diags(*stmt, sv, in_async).0);
                }
            },
            Stmt::If { condition, then, else_ } => {
                self.check_expr(condition, scope, in_async);
                self.check_block(then, scope, in_async);
                match else_ {
                    Some(b) => self.check_block(b, scope, in_async),
                    None => {},
                }
                proof {
                    assert(errors_view(self.errors@) =~= start + stmt_diags(*stmt, sv, in_async).0);
                }
            },
            Stmt::While { condition, body } => {
                self.check_expr(condition, scope, in_async);
                self.check_block(body, scope, in_async);
                proof {
                    assert(errors_view(self.errors@) =~= start + stmt_diags(*stmt, sv, in_async).0);
                }
            },
            Stmt::ForIn { variable, iterable, body } | Stmt::ForOf { variable, iterable, body } => {
                self.check_expr(iterable, scope, in_async);
                let inner = scope_with(scope, variable);
                self.check_block(body, &inner, in_async);
                proof {
                    assert(errors_view(self.errors@) =~= start + stmt_diags(*stmt, sv, in_async).0);
                }
            },
            Stmt::Return(e) => self.check_opt_expr(e, scope, in_async),
            Stmt::Let { name, value, .. } | Stmt::State { name, value, .. } => {
                self.check_expr(value, scope, in_async);
                push_name(scope, name);
            },
            Stmt::Block(b) => self.check_block(b, scope, in_async),
            Stmt::Try { body, catch, finally } => {
                self.check_block(body, scope, in_async);
                match catch {
                    Some(c) => {
                        let inner = scope_with(scope, &c.error_var);
                        proof {
                            assert(decreases_to!(*stmt => c.body));
                        }
                        self.check_block(&c.body, &inner, in_async);
                    },
                    None => {},
                }
                match finally {
                    Some(b) => self.check_block(b, scope, in_async),
                    None => {},
                }
                proof {
                    assert(errors_view(self.errors@) =~= start + stmt_diags(*stmt, sv, in_async).0);
                }
            },
            Stmt::Throw(e) => self.check_expr(e, scope, in_async),
            Stmt::Switch { expression, cases, default } => {
                self.check_expr(expression, scope, in_async);
                self.check_cases(cases, scope, in_async);
                match default {
                    Some(b) => self.check_block(b, scope, in_async),
                    None => {},
                }
                proof {
                    assert(errors_view(self.errors@) =~= start + stmt_diags(*stmt, sv, in_async).0);
                }
            },
            Stmt::Reactive { name, expr } => {
                self.check_expr(expr, scope, in_async);
                if !declared(scope, name) {
                    self.report(SemanticError::UndeclaredReactive(name.clone()));
                }
                proof {
                    assert(errors_view(self.errors@) =~= start + stmt_diags(*stmt, sv, in_async).0);
                }
            },
            Stmt::Comprehension { target, iter, filter, expr } => {
                self.check_expr(iter, scope, in_async);
                let inner = scope_with(scope, target);
                self.check_opt_expr(filter, &inner, in_async);
                self.check_expr(expr, &inner, in_async);
                proof {
                    assert(errors_view(self.errors@) =~= start + stmt_diags(*stmt, sv, in_async).0);
                }
            },
            _ => {
                proof {
                    assert(errors_view(self.errors@) =~= start + stmt_diags(*stmt, sv, in_async).0);
                }
            },
        }
    }

    /// Checks statements in a scope of their own, which starts as a copy of
    /// `scope`.
    pub fn check_block(&mut self, body: &Vec<Stmt>, scope: &Vec<String>, in_async: bool)
        ensures
            final(self).derived@ == old(self).derived@,
            errors_view(final(self).errors@) == errors_view(old(self).errors@) + stmts_diags(
                body@,
                scope_view(scope@),
                in_async,
            ).0,
        decreases body, 1int,
    {
        let mut local = copy_scope(scope);
        let ghost start = errors_view(self.errors@);
        let ghost whole = stmts_diags(body@, scope_view(scope@), in_async);
        let mut i: usize = 0;
        proof {
            assert(body@.subrange(0, body@.len() as int) =~= body@);
            assert(start + whole.0 =~= start + Seq::empty() + whole.0);
        }
        while i < body.len()
            invariant
                self.derived@ == old(self).derived@,
                i <= body@.len(),
                whole == stmts_diags(body@, scope_view(scope@), in_async),
                ({
                    let rest = stmts_diags(body@.subrange(i as int, body@.len() as int), scope_view(local@), in_async);
                    start + whole.0 == errors_view(self.errors@) + rest.0
                }),
            decreases body@.len() - i,
        {
            let ghost rest_seq = body@.subrange(i as int, body@.len() as int);
            let ghost before = errors_view(self.errors@);
            let ghost local_before = scope_view(local@);
            proof {
                assert(decreases_to!(body => body@[i as int]));
                assert(rest_seq[0] == body@[i as int]);
                assert(rest_seq.subrange(1, rest_seq.len() as int) =~= body@.subrange(i as int + 1, body@.len() as int));
            }
            self.check_stmt(&body[i], &mut local, in_async);
            proof {
                let first = stmt_diags(body@[i as int], local_before, in_async);
                let after = stmts_diags(body@.subrange(i as int + 1, body@.len() as int), first.1, in_async);
                assert(stmts_diags(rest_seq, local_before, in_async).0 == first.0 + after.0);
                assert(errors_view(self.errors@) == before + first.0);
                assert(before + (first.0 + after.0) =~= errors_view(self.errors@) + after.0);
            }
            i = i + 1;
        }
        proof {
            let rest = stmts_diags(body@.subrange(i as int, body@.len() as int), scope_view(local@), in_async);
            assert(body@.subrange(i as int, body@.len() as int).len() == 0);
            assert(errors_view(self.errors@) + rest.0 =~= errors_view(self.errors@));
        }
    }

    fn check_cases(&mut self, cases: &Vec<SwitchCase>, scope: &Vec<String>, in_async: bool)
        ensures
            final(self).derived@ == old(self).derived@,
            errors_view(final(self).errors@) == errors_view(old(self).errors@) + cases_diags(
                cases@,
                scope_view(scope@),
                in_async,
            ),
        decreases cases, 1int,
    {
        let ghost start = errors_view(self.errors@);
        let ghost whole = cases_diags(cases@, scope_view(scope@), in_async);
        let mut i: usize = 0;
        proof {
            assert(cases@.subrange(0, cases@.len() as int) =~= cases@);
            assert(start + whole =~= start + Seq::empty() + whole);
        }
        while i < cases.len()
            invariant
                self.derived@ == old(self).derived@,
                i <= cases@.len(),
                whole == cases_diags(cases@, scope_view(scope@), in_async),
                start + whole == errors_view(self.errors@) + cases_diags(
                    cases@.subrange(i as int, cases@.len() as int),
                    scope_view(scope@),
                    in_async,
                ),
            decreases cases@.len() - i,
        {
            let ghost rest_seq = cases@.subrange(i as int, cases@.len() as int);
            let ghost before = errors_view(self.errors@);
            proof {
                assert(decreases_to!(cases => cases@[i as int].body));
                assert(rest_seq[0] == cases@[i as int]);
                assert(rest_seq.subrange(1, rest_seq.len() as int) =~= cases@.subrange(i as int + 1, cases@.len() as int));
            }
            self.check_expr(&cases[i].value, scope, in_async);
            self.check_block(&cases[i].body, scope, in_async);
            proof {
                let sv = scope_view(scope@);
                let after = cases_diags(cases@.subrange(i as int + 1, cases@.len() as int), sv, in_async);
                let here = expr_diags(cases@[i as int].value, sv, in_async) + stmts_diags(cases@[i as int].body@, sv, in_async).0;
                assert(cases_diags(rest_seq, sv, in_async) == here + after);
                assert(before + (here + after) =~= errors_view(self.errors@) + after);
            }
            i = i + 1;
        }
        proof {
            assert(cases@.subrange(i as int, cases@.len() as int).len() == 0);
            assert(errors_view(self.errors@) + Seq::<Diagnostic>::empty() =~= errors_view(self.errors@));
        }
    }

    /// Whether `expr` reads one of the state variables `states`.
    pub fn check_expr_reactivity(&self, expr: &Expr, states: &Vec<String>) -> (r: bool)
        ensures
            r == reads_any(*expr, scope_view(states@)),
        decreases expr,
    {
        match expr {
            Expr::Identifier(name) => declared(states, name),
            Expr::BinaryOp { left, right, .. } => self.check_expr_reactivity(left, states)
                || self.check_expr_reactivity(right, states),
            Expr::UnaryOp { operand, .. } => self.check_expr_reactivity(operand, states),
            Expr::Call { func, args } => {
                if self.check_expr_reactivity(func, states) {
                    return true;
                }
                self.any_reads_state(args, states)
            },
            Expr::ArrayLiteral(items) => self.any_reads_state(items, states),
            Expr::ObjectLiteral(props) => self.props_read_state(props, states),
            _ => false,
        }
    }

    fn props_read_state(&self, ps: &Vec<ObjectProperty>, states: &Vec<String>) -> (r: bool)
        ensures
            r == props_read_any(ps@, scope_view(states@)),
        decreases ps,
    {
        let mut i: usize = 0;
        while i < ps.len()
            invariant
                i <= ps@.len(),
                !props_read_any(ps@.subrange(0, i as int), scope_view(states@)),
            decreases ps@.len() - i,
        {
            proof {
                assert(decreases_to!(ps => ps@[i as int].value));
                assert(ps@.subrange(0, i as int + 1).drop_last() =~= ps@.subrange(0, i as int));
            }
            if self.check_expr_reactivity(&ps[i].value, states) {
                proof {
                    lemma_props_prefix_reads(ps@, i as int + 1, scope_view(states@));
                }
                return true;
            }
            i = i + 1;
        }
        proof {
            assert(ps@.subrange(0, ps@.len() as int) =~= ps@);
        }
        false
    }

    fn any_reads_state(&self, es: &Vec<Expr>, states: &Vec<String>) -> (r: bool)
        ensures
            r == reads_any_of(es@, scope_view(states@)),
        decreases es,
    {
        let mut i: usize = 0;
        while i < es.len()
            invariant
                i <= es@.len(),
                !reads_any_of(es@.subrange(0, i as int), scope_view(states@)),
            decreases es@.len() - i,
        {
            proof {
                assert(decreases_to!(es => es@[i as int]));
                assert(es@.subrange(0, i as int + 1).drop_last() =~= es@.subrange(0, i as int));
            }
            if self.check_expr_reactivity(&es[i], states) {
                proof {
                    lemma_exprs_prefix_reads(es@, i as int + 1, scope_view(states@));
                }
                return true;
            }
            i = i + 1;
        }
        proof {
            assert(es@.subrange(0, es@.len() as int) =~= es@);
        }
        false
    }

    /// Checks markup; expressions in markup are never in an async context.
    pub fn check_markup(&mut self, node: &MarkupNode, scope: &Vec<String>)
        ensures
            final(self).derived@ == old(self).derived@,
            errors_view(final(self).errors@) == errors_view(old(self).errors@) + markup_diags(*node, scope_view(scope@)),
        decreases node, 1int,
    {
        let ghost sv = scope_view(scope@);
        let ghost start = errors_view(self.errors@);
        match node {
            MarkupNode::Element { attributes, children, .. } => {
                let mut i: usize = 0;
                while i < attributes.len()
                    invariant
                        self.derived@ == old(self).derived@,
                        i <= attributes@.len(),
                        sv == scope_view(scope@),
                        self.derived@ == old(self).derived@,
                        errors_view(self.errors@) == start + attrs_diags(attributes@.subrange(0, i as int), sv),
                    decreases attributes@.len() - i,
                {
                    self.check_expr(&attributes[i].value, scope, false);
                    proof {
                        assert(attributes@.subrange(0, i as int + 1).drop_last() =~= attributes@.subrange(0, i as int));
                    }
                    i = i + 1;
                }
                proof {
                    assert(attributes@.subrange(0, attributes@.len() as int) =~= attributes@);
                }
                self.check_markups(children, scope);
                proof {
                    assert(errors_view(self.errors@) =~= start + markup_diags(*node, sv));
                }
            },
            MarkupNode::Text(e) => self.check_expr(e, scope, false),
            MarkupNode::IfBlock { condition, then_branch, else_branch } => {
                self.check_expr(condition, scope, false);
                self.check_markups(then_branch, scope);
                match else_branch {
                    Some(b) => self.check_markups(b, scope),
                    None => {},
                }
                proof {
                    assert(errors_view(self.errors@) =~= start + markup_diags(*node, sv));
                }
            },
            MarkupNode::ForLoop { iterator, iterable, body } => {
                self.check_expr(iterable, scope, false);
                let inner = scope_with(scope, iterator);
                self.check_markups(body, &inner);
                proof {
                    assert(errors_view(self.errors@) =~= start + markup_diags(*node, sv));
                }
            },
        }
    }

    fn check_markups(&mut self, nodes: &Vec<MarkupNode>, scope: &Vec<String>)
        ensures
            final(self).derived@ == old(self).derived@,
            errors_view(final(self).errors@) == errors_view(old(self).errors@) + markups_diags(nodes@, scope_view(scope@)),
        decreases nodes, 1int,
    {
        let ghost start = errors_view(self.errors@);
        let mut i: usize = 0;
        while i < nodes.len()
            invariant
                self.derived@ == old(self).derived@,
                i <= nodes@.len(),
                errors_view(self.errors@) == start + markups_diags(nodes@.subrange(0, i as int), scope_view(scope@)),
            decreases nodes@.len() - i,
        {
            proof {
                assert(decreases_to!(nodes => nodes@[i as int]));
            }
            self.check_markup(&nodes[i], scope);
            proof {
                let next = nodes@.subrange(0, i as int + 1);
                assert(next.drop_last() =~= nodes@.subrange(0, i as int));
                assert(errors_view(self.errors@) =~= start + markups_diags(next, scope_view(scope@)));
            }
            i = i + 1;
        }
        proof {
            assert(nodes@.subrange(0, nodes@.len() as int) =~= nodes@);
        }
    }

    fn check_params(&mut self, params: &Vec<Parameter>, scope: &mut Vec<String>)
        ensures
            final(self).derived@ == old(self).derived@,
            errors_view(final(self).errors@) == errors_view(old(self).errors@) + params_diags(params@),
            scope_view(final(scope)@) == with_params(scope_view(old(scope)@), params@),
    {
        let ghost start = errors_view(self.errors@);
        let ghost outer = scope_view(scope@);
        let mut i: usize = 0;
        while i < params.len()
            invariant
                self.derived@ == old(self).derived@,
                i <= params@.len(),
                errors_view(self.errors@) == start + params_diags(params@.subrange(0, i as int)),
                scope_view(scope@) == with_params(outer, params@.subrange(0, i as int)),
            decreases params@.len() - i,
        {
            let p = &params[i];
            if p.is_ref && p.is_mut_ref {
                self.report(SemanticError::ConflictingReference(p.name.clone()));
            }
            push_name(scope, &p.name);
            proof {
                let next = params@.subrange(0, i as int + 1);
                assert(next.drop_last() =~= params@.subrange(0, i as int));
                assert(errors_view(self.errors@) =~= start + params_diags(next));
            }
            i = i + 1;
        }
        proof {
            assert(params@.subrange(0, params@.len() as int) =~= params@);
        }
    }

    /// Checks a function in `outer` plus its parameters.
    pub fn check_function(&mut self, f: &Function, outer: &Vec<String>)
        ensures
            final(self).derived@ == old(self).derived@,
            errors_view(final(self).errors@) == errors_view(old(self).errors@) + function_diags(*f, scope_view(outer@)),
    {
        let mut scope = copy_scope(outer);
        let ghost start = errors_view(self.errors@);
        self.check_params(&f.params, &mut scope);
        self.check_block(&f.body, &scope, f.is_async);
        proof {
            assert(errors_view(self.errors@) =~= start + function_diags(*f, scope_view(outer@)));
        }
    }

    fn check_functions(&mut self, fs: &Vec<Function>, outer: &Vec<String>)
        ensures
            final(self).derived@ == old(self).derived@,
            errors_view(final(self).errors@) == errors_view(old(self).errors@) + functions_diags(fs@, scope_view(outer@)),
    {
        let ghost start = errors_view(self.errors@);
        let mut i: usize = 0;
        while i < fs.len()
            invariant
                self.derived@ == old(self).derived@,
                i <= fs@.len(),
                errors_view(self.errors@) == start + functions_diags(fs@.subrange(0, i as int), scope_view(outer@)),
            decreases fs@.len() - i,
        {
            self.check_function(&fs[i], outer);
            proof {
                let next = fs@.subrange(0, i as int + 1);
                assert(next.drop_last() =~= fs@.subrange(0, i as int));
                assert(errors_view(self.errors@) =~= start + functions_diags(next, scope_view(outer@)));
            }
            i = i + 1;
        }
        proof {
            assert(fs@.subrange(0, fs@.len() as int) =~= fs@);
        }
    }

    /// Checks a component, and records its derived values that read state.
    pub fn check_component(&mut self, component: &Component, outer: &Vec<String>)
        ensures
            errors_view(final(self).errors@) == errors_view(old(self).errors@) + component_diags(*component, scope_view(outer@)),
            scope_view(final(self).derived@) == scope_view(old(self).derived@) + reactive_lets(
                component.let_vars@,
                with_states(Seq::empty(), component.state_vars@),
            ),
    {
        let ghost start = errors_view(self.errors@);
        let ghost derived_start = scope_view(self.derived@);
        let states_v = &component.state_vars;
        let mut scope = copy_scope(outer);
        let mut states: Vec<String> = Vec::new();
        let mut i: usize = 0;
        while i < states_v.len()
            invariant
                i <= states_v@.len(),
                scope_view(scope@) == with_states(scope_view(outer@), states_v@.subrange(0, i as int)),
                scope_view(states@) == with_states(Seq::empty(), states_v@.subrange(0, i as int)),
                errors_view(self.errors@) == start,
                scope_view(self.derived@) == derived_start,
            decreases states_v@.len() - i,
        {
            push_name(&mut scope, &states_v[i].name);
            push_name(&mut states, &states_v[i].name);
            proof {
                assert(states_v@.subrange(0, i as int + 1).drop_last() =~= states_v@.subrange(0, i as int));
            }
            i = i + 1;
        }
        proof {
            assert(states_v@.subrange(0, states_v@.len() as int) =~= states_v@);
        }
        let ghost sv = scope_view(scope@);
        let mut i: usize = 0;
        while i < states_v.len()
            invariant
                i <= states_v@.len(),
                sv == scope_view(scope@),
                errors_view(self.errors@) == start + state_inits_diags(states_v@.subrange(0, i as int), sv),
                scope_view(self.derived@) == derived_start,
            decreases states_v@.len() - i,
        {
            self.check_expr(&states_v[i].initial_value, &scope, false);
            proof {
                let next = states_v@.subrange(0, i as int + 1);
                assert(next.drop_last() =~= states_v@.subrange(0, i as int));
                assert(errors_view(self.errors@) =~= start + state_inits_diags(next, sv));
            }
            i = i + 1;
        }
        let ghost after_states = errors_view(self.errors@);
        proof {
            assert(derived_start + reactive_lets(Seq::empty(), scope_view(states@)) =~= derived_start);
            assert(component.let_vars@.subrange(0, 0) =~= Seq::empty());
        }
        let lets = &component.let_vars;
        let mut i: usize = 0;
        while i < lets.len()
            invariant
                i <= lets@.len(),
                ({
                    let done = lets_diags(lets@.subrange(0, i as int), sv);
                    errors_view(self.errors@) == after_states + done.0 && scope_view(scope@) == done.1
                }),
                scope_view(states@) == with_states(Seq::empty(), states_v@),
                lets == &component.let_vars,
                scope_view(self.derived@) == derived_start + reactive_lets(
                    lets@.subrange(0, i as int),
                    scope_view(states@),
                ),
            decreases lets@.len() - i,
        {
            let ghost before = errors_view(self.errors@);
            let ghost derived_before = scope_view(self.derived@);
            self.check_expr(&lets[i].value, &scope, false);
            if self.check_expr_reactivity(&lets[i].value, &states) {
                self.derived.push(lets[i].name.clone());
                proof {
                    assert(scope_view(self.derived@) =~= derived_before.push(lets@[i as int].name@));
                }
            }
            push_name(&mut scope, &lets[i].name);
            proof {
                let next = lets@.subrange(0, i as int + 1);
                assert(next.drop_last() =~= lets@.subrange(0, i as int));
                assert(errors_view(self.errors@) =~= after_states + lets_diags(next, sv).0);
                assert(scope_view(self.derived@) =~= derived_start + reactive_lets(next, scope_view(states@)));
            }
            i = i + 1;
        }
        proof {
            assert(lets@.subrange(0, lets@.len() as int) =~= lets@);
        }
        let ghost mid = errors_view(self.errors@);
        self.check_functions(&component.functions, &scope);
        self.check_markups(&component.markup, &scope);
        proof {
            assert(states_v@.subrange(0, states_v@.len() as int) =~= states_v@);
            assert(errors_view(self.errors@) =~= start + component_diags(*component, scope_view(outer@)));
        }
    }

    fn check_components(&mut self, cs: &Vec<Component>, outer: &Vec<String>)
        ensures
            errors_view(final(self).errors@) == errors_view(old(self).errors@) + components_diags(cs@, scope_view(outer@)),
    {
        let ghost start = errors_view(self.errors@);
        let mut i: usize = 0;
        while i < cs.len()
            invariant
                i <= cs@.len(),
                errors_view(self.errors@) == start + components_diags(cs@.subrange(0, i as int), scope_view(outer@)),
            decreases cs@.len() - i,
        {
            self.check_component(&cs[i], outer);
            proof {
                let next = cs@.subrange(0, i as int + 1);
                assert(next.drop_last() =~= cs@.subrange(0, i as int));
                assert(errors_view(self.errors@) =~= start + components_diags(next, scope_view(outer@)));
            }
            i = i + 1;
        }
        proof {
            assert(cs@.subrange(0, cs@.len() as int) =~= cs@);
        }
    }

    /// Checks a class: its methods and constructor see its fields.
    pub fn check_class(&mut self, class: &Class, outer: &Vec<String>)
        ensures
            final(self).derived@ == old(self).derived@,
            errors_view(final(self).errors@) == errors_view(old(self).errors@) + class_diags(*class, scope_view(outer@)),
    {
        let ghost start = errors_view(self.errors@);
        let mut scope = copy_scope(outer);
        let mut i: usize = 0;
        while i < class.fields.len()
            invariant
                self.derived@ == old(self).derived@,
                i <= class.fields@.len(),
                scope_view(scope@) == with_fields(scope_view(outer@), class.fields@.subrange(0, i as int)),
            decreases class.fields@.len() - i,
        {
            push_name(&mut scope, &class.fields[i].name);
            proof {
                assert(class.fields@.subrange(0, i as int + 1).drop_last() =~= class.fields@.subrange(0, i as int));
            }
            i = i + 1;
        }
        proof {
            assert(class.fields@.subrange(0, class.fields@.len() as int) =~= class.fields@);
        }
        self.check_functions(&class.methods, &scope);
        let ghost mid = errors_view(self.errors@);
        match &class.constructor {
            Some(k) => {
                let mut inner = copy_scope(&scope);
                self.check_params(&k.params, &mut inner);
                self.check_block(&k.body, &inner, false);
            },
            None => {},
        }
        proof {
            assert(errors_view(self.errors@) =~= start + class_diags(*class, scope_view(outer@)));
        }
    }

    fn check_classes(&mut self, cs: &Vec<Class>, outer: &Vec<String>)
        ensures
            final(self).derived@ == old(self).derived@,
            errors_view(final(self).errors@) == errors_view(old(self).errors@) + classes_diags(cs@, scope_view(outer@)),
    {
        let ghost start = errors_view(self.errors@);
        let mut i: usize = 0;
        while i < cs.len()
            invariant
                self.derived@ == old(self).derived@,
                i <= cs@.len(),
                errors_view(self.errors@) == start + classes_diags(cs@.subrange(0, i as int), scope_view(outer@)),
            decreases cs@.len() - i,
        {
            self.check_class(&cs[i], outer);
            proof {
                let next = cs@.subrange(0, i as int + 1);
                assert(next.drop_last() =~= cs@.subrange(0, i as int));
                assert(errors_view(self.errors@) =~= start + classes_diags(next, scope_view(outer@)));
            }
            i = i + 1;
        }
        proof {
            assert(cs@.subrange(0, cs@.len() as int) =~= cs@);
        }
    }

    /// Checks a whole program and adds its errors, in traversal order.
    pub fn analyze(&mut self, ast: &AST)
        ensures
            errors_view(final(self).errors@) == errors_view(old(self).errors@) + program_diags(*ast),
    {
        let ghost start = errors_view(self.errors@);
        let global: Vec<String> = Vec::new();
        proof {
            assert(scope_view(global@) =~= Seq::empty());
        }
        self.check_functions(&ast.functions, &global);
        self.check_components(&ast.components, &global);
        self.check_classes(&ast.classes, &global);
        let ghost before_modules = errors_view(self.errors@);
        let mut i: usize = 0;
        while i < ast.modules.len()
            invariant
                i <= ast.modules@.len(),
                scope_view(global@) == Seq::<Seq<char>>::empty(),
                errors_view(self.errors@) == before_modules + modules_diags(ast.modules@.subrange(0, i as int)),
            decreases ast.modules@.len() - i,
        {
            let m = &ast.modules[i];
            let ghost here = errors_view(self.errors@);
            self.check_functions(&m.functions, &global);
            self.check_components(&m.components, &global);
            self.check_classes(&m.classes, &global);
            proof {
                let next = ast.modules@.subrange(0, i as int + 1);
                assert(next.drop_last() =~= ast.modules@.subrange(0, i as int));
                assert(errors_view(self.errors@) =~= before_modules + modules_diags(next));
            }
            i = i + 1;
        }
        proof {
            assert(ast.modules@.subrange(0, ast.modules@.len() as int) =~= ast.modules@);
            assert(errors_view(self.errors@) =~= start + program_diags(*ast));
        }
    }
}

proof fn lemma_exprs_prefix_reads(es: Seq<Expr>, k: int, names: Seq<Seq<char>>)
    requires
        0 < k <= es.len(),
        reads_any(es[k - 1], names),
    ensures
        reads_any_of(es, names),
    decreases es.len() - k,
{
    if k == es.len() {
        assert(es.last() == es[k - 1]);
    } else {
        lemma_exprs_prefix_reads(es.drop_last(), k, names);
    }
}

proof fn lemma_props_prefix_reads(ps: Seq<ObjectProperty>, k: int, names: Seq<Seq<char>>)
    requires
        0 < k <= ps.len(),
        reads_any(ps[k - 1].value, names),
    ensures
        props_read_any(ps, names),
    decreases ps.len() - k,
{
    if k == ps.len() {
        assert(ps.last() == ps[k - 1]);
    } else {
        lemma_props_prefix_reads(ps.drop_last(), k, names);
    }
}

/// Checks a program with a fresh analyzer and returns its errors.
pub fn analyze(ast: &AST) -> (r: Vec<SemanticError>)
    ensures
        errors_view(r@) == program_diags(*ast),
{
    let mut analyzer = SemanticAnalyzer::new();
    proof {
        assert(errors_view(analyzer.errors@) =~= Seq::empty());
    }
    analyzer.analyze(ast);
    proof {
        assert(errors_view(analyzer.errors@) =~= Seq::empty() + program_diags(*ast));
    }
    analyzer.errors
}

/// Whether an expression holds an `await` anywhere.
pub open spec fn has_await(e: Expr) -> bool
    decreases e,
{
    match e {
        Expr::Await(_) => true,
        Expr::BinaryOp { left, right, .. } => has_await(*left) || has_await(*right),
        Expr::UnaryOp { operand, .. } => has_await(*operand),
        Expr::Call { func, args } => has_await(*func) || any_has_await(args@),
        Expr::MethodCall { object, args, .. } => has_await(*object) || any_has_await(args@),
        Expr::PropertyAccess { object, .. } => has_await(*object),
        Expr::ArrayAccess { array, index } => has_await(*array) || has_await(*index),
        Expr::New { args, .. } => any_has_await(args@),
        Expr::ArrayLiteral(items) => any_has_await(items@),
        Expr::ObjectLiteral(props) => props_have_await(props@),
        Expr::Comprehension { iter, filter, expr, .. } => has_await(*iter) || match filter {
            Some(f) => has_await(*f),
            None => false,
        } || has_await(*expr),
        _ => false,
    }
}

pub open spec fn any_has_await(es: Seq<Expr>) -> bool
    decreases es,
{
    if es.len() == 0 {
        false
    } else {
        any_has_await(es.drop_last()) || has_await(es.last())
    }
}

pub open spec fn props_have_await(ps: Seq<ObjectProperty>) -> bool
    decreases ps,
{
    if ps.len() == 0 {
        false
    } else {
        props_have_await(ps.drop_last()) || has_await(ps.last().value)
    }
}

/// No error of `ds` is an await error.
pub open spec fn no_await_errors(ds: Seq<Diagnostic>) -> bool {
    forall|i: int| 0 <= i < ds.len() ==> !(#[trigger] ds[i] is AwaitOutsideAsync)
}

broadcast proof fn lemma_no_await_concat(a: Seq<Diagnostic>, b: Seq<Diagnostic>)
    requires
        no_await_errors(a),
        no_await_errors(b),
    ensures
        #[trigger] no_await_errors(a + b),
{
    assert forall|i: int| 0 <= i < (a + b).len() implies !((a + b)[i] is AwaitOutsideAsync) by {
        if i >= a.len() {
            assert((a + b)[i] == b[i - a.len()]);
        }
    }
}

proof fn lemma_expr_no_await(e: Expr, scope: Seq<Seq<char>>, in_async: bool)
    requires
        in_async || !has_await(e),
    ensures
        no_await_errors(expr_diags(e, scope, in_async)),
    decreases e, 0int,
{
    broadcast use lemma_no_await_concat;
    match e {
        Expr::Await(inner) => lemma_expr_no_await(*inner, scope, in_async),
        Expr::BinaryOp { left, right, .. } => {
            lemma_expr_no_await(*left, scope, in_async);
            lemma_expr_no_await(*right, scope, in_async);
        },
        Expr::UnaryOp { operand, .. } => lemma_expr_no_await(*operand, scope, in_async),
        Expr::Call { func, args } => {
            lemma_expr_no_await(*func, scope, in_async);
            lemma_exprs_no_await(args@, scope, in_async);
        },
        Expr::MethodCall { object, args, .. } => {
            lemma_expr_no_await(*object, scope, in_async);
            lemma_exprs_no_await(args@, scope, in_async);
        },
        Expr::PropertyAccess { object, .. } => lemma_expr_no_await(*object, scope, in_async),
        Expr::ArrayAccess { array, index } => {
            lemma_expr_no_await(*array, scope, in_async);
            lemma_expr_no_await(*index, scope, in_async);
        },
        Expr::New { args, .. } => lemma_exprs_no_await(args@, scope, in_async),
        Expr::ArrayLiteral(items) => lemma_exprs_no_await(items@, scope, in_async),
        Expr::ObjectLiteral(props) => lemma_props_no_await(props@, scope, in_async),
        Expr::Comprehension { target, iter, filter, expr } => {
            lemma_expr_no_await(*iter, scope, in_async);
            if let Some(f) = filter {
                lemma_expr_no_await(*f, scope.push(target@), in_async);
            }
            lemma_expr_no_await(*expr, scope.push(target@), in_async);
        },
        _ => {},
    }
}

proof fn lemma_exprs_no_await(es: Seq<Expr>, scope: Seq<Seq<char>>, in_async: bool)
    requires
        in_async || !any_has_await(es),
    ensures
        no_await_errors(exprs_diags(es, scope, in_async)),
    decreases es, 0int,
{
    broadcast use lemma_no_await_concat;
    if es.len() > 0 {
        lemma_exprs_no_await(es.drop_last(), scope, in_async);
        lemma_expr_no_await(es.last(), scope, in_async);
    }
}

proof fn lemma_props_no_await(ps: Seq<ObjectProperty>, scope: Seq<Seq<char>>, in_async: bool)
    requires
        in_async || !props_have_await(ps),
    ensures
        no_await_errors(props_diags(ps, scope, in_async)),
    decreases ps, 0int,
{
    broadcast use lemma_no_await_concat;
    if ps.len() > 0 {
        lemma_props_no_await(ps.drop_last(), scope, in_async);
        lemma_expr_no_await(ps.last().value, scope, in_async);
    }
}

proof fn lemma_stmt_no_await(s: Stmt, scope: Seq<Seq<char>>)
    ensures
        no_await_errors(stmt_diags(s, scope, true).0),
    decreases s, 1int,
{
    broadcast use lemma_no_await_concat;
    match s {
        Stmt::Expr(e) => lemma_expr_no_await(e, scope, true),
        Stmt::Assign { value, .. } => lemma_expr_no_await(value, scope, true),
        Stmt::If { condition, then, else_ } => {
            lemma_expr_no_await(condition, scope, true);
            lemma_stmts_no_await(then@, scope);
            if let Some(b) = else_ {
                lemma_stmts_no_await(b@, scope);
            }
        },
        Stmt::While { condition, body } => {
            lemma_expr_no_await(condition, scope, true);
            lemma_stmts_no_await(body@, scope);
        },
        Stmt::ForIn { variable, iterable, body } => {
            lemma_expr_no_await(iterable, scope, true);
            lemma_stmts_no_await(body@, scope.push(variable@));
        },
        Stmt::ForOf { variable, iterable, body } => {
            lemma_expr_no_await(iterable, scope, true);
            lemma_stmts_no_await(body@, scope.push(variable@));
        },
        Stmt::Return(e) => {
            if let Some(x) = e {
                lemma_expr_no_await(x, scope, true);
            }
        },
        Stmt::Let { value, .. } => lemma_expr_no_await(value, scope, true),
        Stmt::State { value, .. } => lemma_expr_no_await(value, scope, true),
        Stmt::Block(b) => lemma_stmts_no_await(b@, scope),
        Stmt::Try { body, catch, finally } => {
            lemma_stmts_no_await(body@, scope);
            if let Some(c) = catch {
                lemma_stmts_no_await(c.body@, scope.push(c.error_var@));
            }
            if let Some(b) = finally {
                lemma_stmts_no_await(b@, scope);
            }
        },
        Stmt::Throw(e) => lemma_expr_no_await(e, scope, true),
        Stmt::Switch { expression, cases, default } => {
            lemma_expr_no_await(expression, scope, true);
            lemma_cases_no_await(cases@, scope);
            if let Some(b) = default {
                lemma_stmts_no_await(b@, scope);
            }
        },
        Stmt::Reactive { expr, .. } => lemma_expr_no_await(expr, scope, true),
        Stmt::Comprehension { target, iter, filter, expr } => {
            lemma_expr_no_await(iter, scope, true);
            if let Some(f) = filter {
                lemma_expr_no_await(f, scope.push(target@), true);
            }
            lemma_expr_no_await(expr, scope.push(target@), true);
        },
        _ => {},
    }
}

proof fn lemma_stmts_no_await(ss: Seq<Stmt>, scope: Seq<Seq<char>>)
    ensures
        no_await_errors(stmts_diags(ss, scope, true).0),
    decreases ss, 1int,
{
    broadcast use lemma_no_await_concat;
    if ss.len() > 0 {
        lemma_stmt_no_await(ss[0], scope);
        lemma_stmts_no_await(ss.subrange(1, ss.len() as int), stmt_diags(ss[0], scope, true).1);
    }
}

proof fn lemma_cases_no_await(cs: Seq<SwitchCase>, scope: Seq<Seq<char>>)
    ensures
        no_await_errors(cases_diags(cs, scope, true)),
    decreases cs, 1int,
{
    broadcast use lemma_no_await_concat;
    if cs.len() > 0 {
        lemma_expr_no_await(cs[0].value, scope, true);
        lemma_stmts_no_await(cs[0].body@, scope);
        lemma_cases_no_await(cs.subrange(1, cs.len() as int), scope);
    }
}

proof fn lemma_params_no_await(ps: Seq<Parameter>)
    ensures
        no_await_errors(params_diags(ps)),
    decreases ps.len(),
{
    broadcast use lemma_no_await_concat;
    if ps.len() > 0 {
        lemma_params_no_await(ps.drop_last());
    }
}

/// No error of `ds` is a parameter conflict.
pub open spec fn no_conflict_errors(ds: Seq<Diagnostic>) -> bool {
    forall|i: int| 0 <= i < ds.len() ==> !(#[trigger] ds[i] is ConflictingReference)
}

broadcast proof fn lemma_no_conflict_concat(a: Seq<Diagnostic>, b: Seq<Diagnostic>)
    requires
        no_conflict_errors(a),
        no_conflict_errors(b),
    ensures
        #[trigger] no_conflict_errors(a + b),
{
    assert forall|i: int| 0 <= i < (a + b).len() implies !((a + b)[i] is ConflictingReference) by {
        if i >= a.len() {
            assert((a + b)[i] == b[i - a.len()]);
        }
    }
}

/// The number of parameter conflict errors in `ds`.
pub open spec fn conflict_count(ds: Seq<Diagnostic>) -> nat
    decreases ds.len(),
{
    if ds.len() == 0 {
        0
    } else {
        conflict_count(ds.drop_last()) + if ds.last() is ConflictingReference { 1nat } else { 0nat }
    }
}

/// The number of parameters marked both `&` and `&mut`.
pub open spec fn conflicting_params(ps: Seq<Parameter>) -> nat
    decreases ps.len(),
{
    if ps.len() == 0 {
        0
    } else {
        conflicting_params(ps.drop_last()) + if ps.last().is_ref && ps.last().is_mut_ref { 1nat } else { 0nat }
    }
}

proof fn lemma_conflict_count_add(a: Seq<Diagnostic>, b: Seq<Diagnostic>)
    ensures
        conflict_count(a + b) == conflict_count(a) + conflict_count(b),
    decreases b.len(),
{
    if b.len() > 0 {
        lemma_conflict_count_add(a, b.drop_last());
        assert((a + b).drop_last() =~= a + b.drop_last());
    } else {
        assert(a + b =~= a);
    }
}

proof fn lemma_conflict_count_zero(ds: Seq<Diagnostic>)
    requires
        no_conflict_errors(ds),
    ensures
        conflict_count(ds) == 0,
    decreases ds.len(),
{
    if ds.len() > 0 {
        lemma_conflict_count_zero(ds.drop_last());
    }
}

proof fn lemma_params_conflicts(ps: Seq<Parameter>)
    ensures
        conflict_count(params_diags(ps)) == conflicting_params(ps),
    decreases ps.len(),
{
    if ps.len() > 0 {
        lemma_params_conflicts(ps.drop_last());
        let last = if ps.last().is_ref && ps.last().is_mut_ref {
            seq![Diagnostic::ConflictingReference(ps.last().name@)]
        } else {
            Seq::empty()
        };
        lemma_conflict_count_add(params_diags(ps.drop_last()), last);
        if ps.last().is_ref && ps.last().is_mut_ref {
            assert(conflict_count(last) == 1) by {
                assert(last.drop_last() =~= Seq::<Diagnostic>::empty());
                assert(conflict_count(last.drop_last()) == 0);
                assert(last.last() is ConflictingReference);
            }
        }
    }
}

/// A function gets exactly one parameter conflict error per parameter
/// marked both by-reference and by-mutable-reference, and no other.
pub proof fn lemma_function_conflicts(f: Function, outer: Seq<Seq<char>>)
    ensures
        conflict_count(function_diags(f, outer)) == conflicting_params(f.params@),
{
    lemma_params_conflicts(f.params@);
    lemma_stmts_no_conflict(f.body@, with_params(outer, f.params@), f.is_async);
    lemma_conflict_count_zero(stmts_diags(f.body@, with_params(outer, f.params@), f.is_async).0);
    lemma_conflict_count_add(
        params_diags(f.params@),
        stmts_diags(f.body@, with_params(outer, f.params@), f.is_async).0,
    );
}

/// A reactive binding to a name that is not in scope is reported, naming
/// it.
pub proof fn lemma_undeclared_reactive_reported(name: String, expr: Expr, scope: Seq<Seq<char>>, in_async: bool)
    requires
        !scope.contains(name@),
    ensures
        stmt_diags(Stmt::Reactive { name, expr }, scope, in_async).0.contains(
            Diagnostic::UndeclaredReactive(name@),
        ),
{
    let ds = stmt_diags(Stmt::Reactive { name, expr }, scope, in_async).0;
    assert(ds[ds.len() - 1] == Diagnostic::UndeclaredReactive(name@));
}

proof fn lemma_expr_no_conflict(e: Expr, scope: Seq<Seq<char>>, in_async: bool)
    ensures
        no_conflict_errors(expr_diags(e, scope, in_async)),
    decreases e, 0int,
{
    broadcast use lemma_no_conflict_concat;
    match e {
        Expr::Await(inner) => lemma_expr_no_conflict(*inner, scope, in_async),
        Expr::BinaryOp { left, right, .. } => {
            lemma_expr_no_conflict(*left, scope, in_async);
            lemma_expr_no_conflict(*right, scope, in_async);
        },
        Expr::UnaryOp { operand, .. } => lemma_expr_no_conflict(*operand, scope, in_async),
        Expr::Call { func, args } => {
            lemma_expr_no_conflict(*func, scope, in_async);
            lemma_exprs_no_conflict(args@, scope, in_async);
        },
        Expr::MethodCall { object, args, .. } => {
            lemma_expr_no_conflict(*object, scope, in_async);
            lemma_exprs_no_conflict(args@, scope, in_async);
        },
        Expr::PropertyAccess { object, .. } => lemma_expr_no_conflict(*object, scope, in_async),
        Expr::ArrayAccess { array, index } => {
            lemma_expr_no_conflict(*array, scope, in_async);
            lemma_expr_no_conflict(*index, scope, in_async);
        },
        Expr::New { args, .. } => lemma_exprs_no_conflict(args@, scope, in_async),
        Expr::ArrayLiteral(items) => lemma_exprs_no_conflict(items@, scope, in_async),
        Expr::ObjectLiteral(props) => lemma_props_no_conflict(props@, scope, in_async),
        Expr::Comprehension { target, iter, filter, expr } => {
            lemma_expr_no_conflict(*iter, scope, in_async);
            if let Some(f) = filter {
                lemma_expr_no_conflict(*f, scope.push(target@), in_async);
            }
            lemma_expr_no_conflict(*expr, scope.push(target@), in_async);
        },
        _ => {},
    }
}

proof fn lemma_exprs_no_conflict(es: Seq<Expr>, scope: Seq<Seq<char>>, in_async: bool)
    ensures
        no_conflict_errors(exprs_diags(es, scope, in_async)),
    decreases es, 0int,
{
    broadcast use lemma_no_conflict_concat;
    if es.len() > 0 {
        lemma_exprs_no_conflict(es.drop_last(), scope, in_async);
        lemma_expr_no_conflict(es.last(), scope, in_async);
    }
}

proof fn lemma_props_no_conflict(ps: Seq<ObjectProperty>, scope: Seq<Seq<char>>, in_async: bool)
    ensures
        no_conflict_errors(props_diags(ps, scope, in_async)),
    decreases ps, 0int,
{
    broadcast use lemma_no_conflict_concat;
    if ps.len() > 0 {
        lemma_props_no_conflict(ps.drop_last(), scope, in_async);
        lemma_expr_no_conflict(ps.last().value, scope, in_async);
    }
}

proof fn lemma_stmt_no_conflict(s: Stmt, scope: Seq<Seq<char>>, in_async: bool)
    ensures
        no_conflict_errors(stmt_diags(s, scope, in_async).0),
    decreases s, 1int,
{
    broadcast use lemma_no_conflict_concat;
    match s {
        Stmt::Expr(e) => lemma_expr_no_conflict(e, scope, in_async),
        Stmt::Assign { value, .. } => lemma_expr_no_conflict(value, scope, in_async),
        Stmt::If { condition, then, else_ } => {
            lemma_expr_no_conflict(condition, scope, in_async);
            lemma_stmts_no_conflict(then@, scope, in_async);
            if let Some(b) = else_ {
                lemma_stmts_no_conflict(b@, scope, in_async);
            }
        },
        Stmt::While { condition, body } => {
            lemma_expr_no_conflict(condition, scope, in_async);
            lemma_stmts_no_conflict(body@, scope, in_async);
        },
        Stmt::ForIn { variable, iterable, body } => {
            lemma_expr_no_conflict(iterable, scope, in_async);
            lemma_stmts_no_conflict(body@, scope.push(variable@), in_async);
        },
        Stmt::ForOf { variable, iterable, body } => {
            lemma_expr_no_conflict(iterable, scope, in_async);
            lemma_stmts_no_conflict(body@, scope.push(variable@), in_async);
        },
        Stmt::Return(e) => {
            if let Some(x) = e {
                lemma_expr_no_conflict(x, scope, in_async);
            }
        },
        Stmt::Let { value, .. } => lemma_expr_no_conflict(value, scope, in_async),
        Stmt::State { value, .. } => lemma_expr_no_conflict(value, scope, in_async),
        Stmt::Block(b) => lemma_stmts_no_conflict(b@, scope, in_async),
        Stmt::Try { body, catch, finally } => {
            lemma_stmts_no_conflict(body@, scope, in_async);
            if let Some(c) = catch {
                lemma_stmts_no_conflict(c.body@, scope.push(c.error_var@), in_async);
            }
            if let Some(b) = finally {
                lemma_stmts_no_conflict(b@, scope, in_async);
            }
        },
        Stmt::Throw(e) => lemma_expr_no_conflict(e, scope, in_async),
        Stmt::Switch { expression, cases, default } => {
            lemma_expr_no_conflict(expression, scope, in_async);
            lemma_cases_no_conflict(cases@, scope, in_async);
            if let Some(b) = default {
                lemma_stmts_no_conflict(b@, scope, in_async);
            }
        },
        Stmt::Reactive { expr, .. } => lemma_expr_no_conflict(expr, scope, in_async),
        Stmt::Comprehension { target, iter, filter, expr } => {
            lemma_expr_no_conflict(iter, scope, in_async);
            if let Some(f) = filter {
                lemma_expr_no_conflict(f, scope.push(target@), in_async);
            }
            lemma_expr_no_conflict(expr, scope.push(target@), in_async);
        },
        _ => {},
    }
}

proof fn lemma_stmts_no_conflict(ss: Seq<Stmt>, scope: Seq<Seq<char>>, in_async: bool)
    ensures
        no_conflict_errors(stmts_diags(ss, scope, in_async).0),
    decreases ss, 1int,
{
    broadcast use lemma_no_conflict_concat;
    if ss.len() > 0 {
        lemma_stmt_no_conflict(ss[0], scope, in_async);
        lemma_stmts_no_conflict(ss.subrange(1, ss.len() as int), stmt_diags(ss[0], scope, in_async).1, in_async);
    }
}

proof fn lemma_cases_no_conflict(cs: Seq<SwitchCase>, scope: Seq<Seq<char>>, in_async: bool)
    ensures
        no_conflict_errors(cases_diags(cs, scope, in_async)),
    decreases cs, 1int,
{
    broadcast use lemma_no_conflict_concat;
    if cs.len() > 0 {
        lemma_expr_no_conflict(cs[0].value, scope, in_async);
        lemma_stmts_no_conflict(cs[0].body@, scope, in_async);
        lemma_cases_no_conflict(cs.subrange(1, cs.len() as int), scope, in_async);
    }
}

/// Inside an `async` function no error is an await error, whatever the
/// function holds and whatever scope it is checked in.
pub proof fn lemma_async_function_has_no_await_errors(f: Function, outer: Seq<Seq<char>>)
    requires
        f.is_async,
    ensures
        no_await_errors(function_diags(f, outer)),
{
    broadcast use lemma_no_await_concat;
    lemma_params_no_await(f.params@);
    lemma_stmts_no_await(f.body@, with_params(outer, f.params@));
}

/// `await e` outside an async function, where `e` holds no `await` itself,
/// gives exactly one await error: the first of its errors.
pub proof fn lemma_await_outside_async_reported_once(e: Expr, scope: Seq<Seq<char>>)
    requires
        !has_await(e),
    ensures
        ({
            let ds = expr_diags(Expr::Await(Box::new(e)), scope, false);
            ds.len() > 0 && ds[0] is AwaitOutsideAsync && no_await_errors(ds.drop_first())
        }),
{
    lemma_expr_no_await(e, scope, false);
    let ds = expr_diags(Expr::Await(Box::new(e)), scope, false);
    assert(ds == seq![Diagnostic::AwaitOutsideAsync] + expr_diags(e, scope, false));
    assert(ds.drop_first() =~= expr_diags(e, scope, false));
}

} // verus!
