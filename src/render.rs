//! Text forms of expressions, statements and markup. Lowering keeps the
//! parts of the tree that the IR has no node for as such text.
use vstd::prelude::*;
use crate::ast::{BinaryOp, Expr, MarkupNode, ObjectProperty, Stmt, UnaryOp};

verus! {

pub open spec fn binop_text(op: BinaryOp) -> Seq<char> {
    match op {
        BinaryOp::Add => "+"@,
        BinaryOp::Subtract => "-"@,
        BinaryOp::Multiply => "*"@,
        BinaryOp::Divide => "/"@,
        BinaryOp::Modulo => "%"@,
        BinaryOp::Equal => "=="@,
        BinaryOp::NotEqual => "!="@,
        BinaryOp::LessThan => "<"@,
        BinaryOp::LessThanEqual => "<="@,
        BinaryOp::GreaterThan => ">"@,
        BinaryOp::GreaterThanEqual => ">="@,
        BinaryOp::And => "&&"@,
        BinaryOp::Or => "||"@,
    }
}

pub open spec fn unop_text(op: UnaryOp) -> Seq<char> {
    match op {
        UnaryOp::Minus => "-"@,
        UnaryOp::Not => "!"@,
    }
}

/// The source-like text of an expression; binary operations are fully
/// parenthesised.
pub open spec fn expr_text(e: Expr) -> Seq<char>
    decreases e,
{
    match e {
        Expr::StringLiteral(s) => s@,
        Expr::NumberLiteral(n) => n@,
        Expr::BooleanLiteral(b) => if b { "true"@ } else { "false"@ },
        Expr::NullLiteral => "null"@,
        Expr::UndefinedLiteral => "undefined"@,
        Expr::Identifier(n) => n@,
        Expr::BinaryOp { left, op, right } => "("@ + expr_text(*left) + " "@ + binop_text(op) + " "@
            + expr_text(*right) + ")"@,
        Expr::UnaryOp { op, operand } => unop_text(op) + expr_text(*operand),
        Expr::Call { func, args } => expr_text(*func) + "("@ + list_text(args@) + ")"@,
        Expr::MethodCall { object, method, args } => expr_text(*object) + "."@ + method@ + "("@
            + list_text(args@) + ")"@,
        Expr::PropertyAccess { object, property } => expr_text(*object) + "."@ + property@,
        Expr::ArrayAccess { array, index } => expr_text(*array) + "["@ + expr_text(*index) + "]"@,
        Expr::New { class, args } => "new "@ + class@ + "("@ + list_text(args@) + ")"@,
        Expr::ArrayLiteral(items) => "["@ + list_text(items@) + "]"@,
        Expr::ObjectLiteral(props) => "{ "@ + props_text(props@) + " }"@,
        Expr::Await(inner) => "await "@ + expr_text(*inner),
        Expr::Comprehension { target, iter, filter, expr } => "["@ + expr_text(*expr) + " for "@
            + target@ + " in "@ + expr_text(*iter) + match filter {
            Some(f) => " if "@ + expr_text(*f),
            None => Seq::empty(),
        } + "]"@,
    }
}

/// Expressions separated by `, `.
pub open spec fn list_text(es: Seq<Expr>) -> Seq<char>
    decreases es,
{
    if es.len() == 0 {
        Seq::empty()
    } else if es.len() == 1 {
        expr_text(es[0])
    } else {
        list_text(es.drop_last()) + ", "@ + expr_text(es.last())
    }
}

pub open spec fn prop_text(p: ObjectProperty) -> Seq<char>
    decreases p,
{
    if p.shorthand {
        p.key@
    } else {
        p.key@ + ": "@ + expr_text(p.value)
    }
}

/// Object properties separated by `, `.
pub open spec fn props_text(ps: Seq<ObjectProperty>) -> Seq<char>
    decreases ps,
{
    if ps.len() == 0 {
        Seq::empty()
    } else if ps.len() == 1 {
        prop_text(ps[0])
    } else {
        props_text(ps.drop_last()) + ", "@ + prop_text(ps.last())
    }
}

fn binop_str(op: BinaryOp) -> (r: &'static str)
    ensures
        r@ == binop_text(op),
{
    match op {
        BinaryOp::Add => "+",
        BinaryOp::Subtract => "-",
        BinaryOp::Multiply => "*",
        BinaryOp::Divide => "/",
        BinaryOp::Modulo => "%",
        BinaryOp::Equal => "==",
        BinaryOp::NotEqual => "!=",
        BinaryOp::LessThan => "<",
        BinaryOp::LessThanEqual => "<=",
        BinaryOp::GreaterThan => ">",
        BinaryOp::GreaterThanEqual => ">=",
        BinaryOp::And => "&&",
        BinaryOp::Or => "||",
    }
}

fn unop_str(op: UnaryOp) -> (r: &'static str)
    ensures
        r@ == unop_text(op),
{
    match op {
        UnaryOp::Minus => "-",
        UnaryOp::Not => "!",
    }
}

/// Appends the text of an expression.
pub fn write_expr(e: &Expr, out: &mut String)
    ensures
        final(out)@ == old(out)@ + expr_text(*e),
    decreases e, 0int,
{
    let ghost start = out@;
    match e {
        Expr::StringLiteral(s) => out.append(s.as_str()),
        Expr::NumberLiteral(n) => out.append(n.as_str()),
        Expr::BooleanLiteral(b) => {
            if *b {
                out.append("true");
            } else {
                out.append("false");
            }
        },
        Expr::NullLiteral => out.append("null"),
        Expr::UndefinedLiteral => out.append("undefined"),
        Expr::Identifier(n) => out.append(n.as_str()),
        Expr::BinaryOp { left, op, right } => {
            out.append("(");
            write_expr(left, out);
            out.append(" ");
            out.append(binop_str(*op));
            out.append(" ");
            write_expr(right, out);
            out.append(")");
        },
        Expr::UnaryOp { op, operand } => {
            out.append(unop_str(*op));
            write_expr(operand, out);
        },
        Expr::Call { func, args } => {
            write_expr(func, out);
            out.append("(");
            write_list(args, out);
            out.append(")");
        },
        Expr::MethodCall { object, method, args } => {
            write_expr(object, out);
            out.append(".");
            out.append(method.as_str());
            out.append("(");
            write_list(args, out);
            out.append(")");
        },
        Expr::PropertyAccess { object, property } => {
            write_expr(object, out);
            out.append(".");
            out.append(property.as_str());
        },
        Expr::ArrayAccess { array, index } => {
            write_expr(array, out);
            out.append("[");
            write_expr(index, out);
            out.append("]");
        },
        Expr::New { class, args } => {
            out.append("new ");
            out.append(class.as_str());
            out.append("(");
            write_list(args, out);
            out.append(")");
        },
        Expr::ArrayLiteral(items) => {
            out.append("[");
            write_list(items, out);
            out.append("]");
        },
        Expr::ObjectLiteral(props) => {
            out.append("{ ");
            write_props(props, out);
            out.append(" }");
        },
        Expr::Await(inner) => {
            out.append("await ");
            write_expr(inner, out);
        },
        Expr::Comprehension { target, iter, filter, expr: item } => {
            out.append("[");
            write_expr(item, out);
            out.append(" for ");
            out.append(target.as_str());
            out.append(" in ");
            write_expr(iter, out);
            match filter {
                Some(f) => {
                    out.append(" if ");
                    write_expr(f, out);
                },
                None => {},
            }
            out.append("]");
        },
    }
    proof {
        assert(out@ =~= start + expr_text(*e));
    }
}

/// Appends expressions separated by `, `.
pub fn write_list(es: &Vec<Expr>, out: &mut String)
    ensures
        final(out)@ == old(out)@ + list_text(es@),
    decreases es, 0int,
{
    let ghost start = out@;
    let mut i: usize = 0;
    proof {
        assert(out@ =~= start + list_text(es@.subrange(0, 0)));
    }
    while i < es.len()
        invariant
            i <= es@.len(),
            out@ == start + list_text(es@.subrange(0, i as int)),
        decreases es@.len() - i,
    {
        proof {
            assert(decreases_to!(es => es@[i as int]));
        }
        if i > 0 {
            out.append(", ");
        }
        write_expr(&es[i], out);
        proof {
            let next = es@.subrange(0, i as int + 1);
            assert(next.drop_last() =~= es@.subrange(0, i as int));
            if i == 0 {
                assert(next[0] == es@[0]);
            }
            assert(out@ =~= start + list_text(next));
        }
        i = i + 1;
    }
    proof {
        assert(es@.subrange(0, es@.len() as int) =~= es@);
    }
}

fn write_props(ps: &Vec<ObjectProperty>, out: &mut String)
    ensures
        final(out)@ == old(out)@ + props_text(ps@),
    decreases ps, 0int,
{
    let ghost start = out@;
    let mut i: usize = 0;
    proof {
        assert(out@ =~= start + props_text(ps@.subrange(0, 0)));
    }
    while i < ps.len()
        invariant
            i <= ps@.len(),
            out@ == start + props_text(ps@.subrange(0, i as int)),
        decreases ps@.len() - i,
    {
        proof {
            assert(decreases_to!(ps => ps@[i as int].value));
        }
        if i > 0 {
            out.append(", ");
        }
        let ghost before = out@;
        let p = &ps[i];
        out.append(p.key.as_str());
        if !p.shorthand {
            out.append(": ");
            write_expr(&p.value, out);
        }
        proof {
            assert(out@ =~= before + prop_text(ps@[i as int]));
            let next = ps@.subrange(0, i as int + 1);
            assert(next.drop_last() =~= ps@.subrange(0, i as int));
            if i == 0 {
                assert(next[0] == ps@[0]);
            }
            assert(out@ =~= start + props_text(next));
        }
        i = i + 1;
    }
    proof {
        assert(ps@.subrange(0, ps@.len() as int) =~= ps@);
    }
}

/// The text of an expression.
pub fn lower_expr_to_string(e: &Expr) -> (r: String)
    ensures
        r@ == expr_text(*e),
{
    let mut out = String::new();
    write_expr(e, &mut out);
    proof {
        assert(out@ =~= Seq::empty() + expr_text(*e));
    }
    out
}


pub open spec fn label_text(l: Option<String>) -> Seq<char> {
    match l {
        Some(n) => " "@ + n@,
        None => Seq::empty(),
    }
}

/// The source-like text of a statement.
pub open spec fn stmt_text(s: Stmt) -> Seq<char>
    decreases s,
{
    match s {
        Stmt::Expr(e) => expr_text(e) + ";"@,
        Stmt::Assign { target, value } => target@ + " = "@ + expr_text(value) + ";"@,
        Stmt::If { condition, then, else_ } => "if ("@ + expr_text(condition) + ") { "@ + stmts_text(
            then@,
        ) + " }"@ + match else_ {
            Some(b) => " else { "@ + stmts_text(b@) + " }"@,
            None => Seq::empty(),
        },
        Stmt::While { condition, body } => "while ("@ + expr_text(condition) + ") { "@ + stmts_text(
            body@,
        ) + " }"@,
        Stmt::ForIn { variable, iterable, body } => "for "@ + variable@ + " in "@ + expr_text(iterable)
            + " { "@ + stmts_text(body@) + " }"@,
        Stmt::ForOf { variable, iterable, body } => "for "@ + variable@ + " of "@ + expr_text(iterable)
            + " { "@ + stmts_text(body@) + " }"@,
        Stmt::Return(e) => "return"@ + match e {
            Some(x) => " "@ + expr_text(x),
            None => Seq::empty(),
        } + ";"@,
        Stmt::Let { name, value, .. } => "let "@ + name@ + " = "@ + expr_text(value) + ";"@,
        Stmt::State { name, value, .. } => "state "@ + name@ + " = "@ + expr_text(value) + ";"@,
        Stmt::Block(b) => "{ "@ + stmts_text(b@) + " }"@,
        Stmt::Try { body, catch, finally } => "try { "@ + stmts_text(body@) + " }"@ + match catch {
            Some(c) => " catch ("@ + c.error_var@ + ") { "@ + stmts_text(c.body@) + " }"@,
            None => Seq::empty(),
        } + match finally {
            Some(b) => " finally { "@ + stmts_text(b@) + " }"@,
            None => Seq::empty(),
        },
        Stmt::Throw(e) => "throw "@ + expr_text(e) + ";"@,
        Stmt::Break(l) => "break"@ + label_text(l) + ";"@,
        Stmt::Continue(l) => "continue"@ + label_text(l) + ";"@,
        Stmt::Switch { expression, cases, default } => "switch ("@ + expr_text(expression) + ") { "@
            + cases_text(cases@) + match default {
            Some(b) => "default: { "@ + stmts_text(b@) + " } "@,
            None => Seq::empty(),
        } + "}"@,
        Stmt::Reactive { name, expr } => "$: "@ + name@ + " = "@ + expr_text(expr) + ";"@,
        Stmt::Comprehension { target, iter, filter, expr } => "["@ + expr_text(expr) + " for "@
            + target@ + " in "@ + expr_text(iter) + match filter {
            Some(f) => " if "@ + expr_text(f),
            None => Seq::empty(),
        } + "];"@,
    }
}

/// Statements separated by a space.
pub open spec fn stmts_text(ss: Seq<Stmt>) -> Seq<char>
    decreases ss,
{
    if ss.len() == 0 {
        Seq::empty()
    } else if ss.len() == 1 {
        stmt_text(ss[0])
    } else {
        stmts_text(ss.drop_last()) + " "@ + stmt_text(ss.last())
    }
}

pub open spec fn cases_text(cs: Seq<crate::ast::SwitchCase>) -> Seq<char>
    decreases cs,
{
    if cs.len() == 0 {
        Seq::empty()
    } else {
        cases_text(cs.drop_last()) + "case "@ + expr_text(cs.last().value) + ": { "@ + stmts_text(
            cs.last().body@,
        ) + " } "@
    }
}

/// The text of a markup node: elements as tags, blocks as `if(...) { ... }
/// else { ... }` and `for(x in xs) { ... }`.
pub open spec fn markup_text(n: MarkupNode) -> Seq<char>
    decreases n,
{
    match n {
        MarkupNode::Element { tag, attributes, children, .. } => "<"@ + tag@ + attrs_text(attributes@)
            + ">"@ + markups_text(children@) + "</"@ + tag@ + ">"@,
        MarkupNode::Text(e) => expr_text(e),
        MarkupNode::IfBlock { condition, then_branch, else_branch } => "if("@ + expr_text(condition)
            + ") { "@ + markups_text(then_branch@) + " } else { "@ + match else_branch {
            Some(b) => markups_text(b@),
            None => Seq::empty(),
        } + " }"@,
        MarkupNode::ForLoop { iterator, iterable, body } => "for("@ + iterator@ + " in "@ + expr_text(
            iterable,
        ) + ") { "@ + markups_text(body@) + " }"@,
    }
}

/// Markup nodes, one after the other.
pub open spec fn markups_text(ns: Seq<MarkupNode>) -> Seq<char>
    decreases ns,
{
    if ns.len() == 0 {
        Seq::empty()
    } else {
        markups_text(ns.drop_last()) + markup_text(ns.last())
    }
}

/// Attributes, each as ` name="value"`.
pub open spec fn attrs_text(attrs: Seq<crate::ast::Attribute>) -> Seq<char>
    decreases attrs.len(),
{
    if attrs.len() == 0 {
        Seq::empty()
    } else {
        attrs_text(attrs.drop_last()) + " "@ + attrs.last().name@ + "=\""@ + expr_text(attrs.last().value)
            + "\""@
    }
}

/// The top-level markup of a component, one node per line.
pub open spec fn render_text(ns: Seq<MarkupNode>) -> Seq<char>
    decreases ns.len(),
{
    if ns.len() == 0 {
        Seq::empty()
    } else if ns.len() == 1 {
        markup_text(ns[0])
    } else {
        render_text(ns.drop_last()) + "\n"@ + markup_text(ns.last())
    }
}

fn write_label(l: &Option<String>, out: &mut String)
    ensures
        final(out)@ == old(out)@ + label_text(*l),
{
    match l {
        Some(n) => {
            out.append(" ");
            out.append(n.as_str());
        },
        None => {
            proof {
                assert(out@ =~= out@ + Seq::<char>::empty());
            }
        },
    }
}

/// Appends the text of a statement.
#[verifier::rlimit(80)]
pub fn write_stmt(s: &Stmt, out: &mut String)
    ensures
        final(out)@ == old(out)@ + stmt_text(*s),
    decreases s, 1int,
{
    let ghost start = out@;
    match s {
        Stmt::Expr(e) => {
            write_expr(e, out);
            out.append(";");
        },
        Stmt::Assign { target, value } => {
            out.append(target.as_str());
            out.append(" = ");
            write_expr(value, out);
            out.append(";");
        },
        Stmt::If { condition, then, else_ } => {
            out.append("if (");
            write_expr(condition, out);
            out.append(") { ");
            write_stmts(then, out);
            out.append(" }");
            match else_ {
                Some(b) => {
                    out.append(" else { ");
                    write_stmts(b, out);
                    out.append(" }");
                },
                None => {},
            }
        },
        Stmt::While { condition, body } => {
            out.append("while (");
            write_expr(condition, out);
            out.append(") { ");
            write_stmts(body, out);
            out.append(" }");
        },
        Stmt::ForIn { variable, iterable, body } => {
            out.append("for ");
            out.append(variable.as_str());
            out.append(" in ");
            write_expr(iterable, out);
            out.append(" { ");
            write_stmts(body, out);
            out.append(" }");
        },
        Stmt::ForOf { variable, iterable, body } => {
            out.append("for ");
            out.append(variable.as_str());
            out.append(" of ");
            write_expr(iterable, out);
            out.append(" { ");
            write_stmts(body, out);
            out.append(" }");
        },
        Stmt::Return(e) => {
            out.append("return");
            match e {
                Some(x) => {
                    out.append(" ");
                    write_expr(x, out);
                },
                None => {},
            }
            out.append(";");
        },
        Stmt::Let { name, value, .. } => {
            out.append("let ");
            out.append(name.as_str());
            out.append(" = ");
            write_expr(value, out);
            out.append(";");
        },
        Stmt::State { name, value, .. } => {
            out.append("state ");
            out.append(name.as_str());
            out.append(" = ");
            write_expr(value, out);
            out.append(";");
        },
        Stmt::Block(b) => {
            out.append("{ ");
            write_stmts(b, out);
            out.append(" }");
        },
        Stmt::Try { body, catch, finally } => {
            out.append("try { ");
            write_stmts(body, out);
            out.append(" }");
            match catch {
                Some(c) => {
                    out.append(" catch (");
                    out.append(c.error_var.as_str());
                    out.append(") { ");
                    proof {
                        assert(decreases_to!(*s => c.body));
                    }
                    write_stmts(&c.body, out);
                    out.append(" }");
                },
                None => {},
            }
            match finally {
                Some(b) => {
                    out.append(" finally { ");
                    write_stmts(b, out);
                    out.append(" }");
                },
                None => {},
            }
        },
        Stmt::Throw(e) => {
            out.append("throw ");
            write_expr(e, out);
            out.append(";");
        },
        Stmt::Break(l) => {
            out.append("break");
            write_label(l, out);
            out.append(";");
        },
        Stmt::Continue(l) => {
            out.append("continue");
            write_label(l, out);
            out.append(";");
        },
        Stmt::Switch { expression, cases, default } => {
            out.append("switch (");
            write_expr(expression, out);
            out.append(") { ");
            write_cases(cases, out);
            match default {
                Some(b) => {
                    out.append("default: { ");
                    write_stmts(b, out);
                    out.append(" } ");
                },
                None => {},
            }
            out.append("}");
        },
        Stmt::Reactive { name, expr } => {
            out.append("$: ");
            out.append(name.as_str());
            out.append(" = ");
            write_expr(expr, out);
            out.append(";");
        },
        Stmt::Comprehension { target, iter, filter, expr } => {
            out.append("[");
            write_expr(expr, out);
            out.append(" for ");
            out.append(target.as_str());
            out.append(" in ");
            write_expr(iter, out);
            match filter {
                Some(f) => {
                    out.append(" if ");
                    write_expr(f, out);
                },
                None => {},
            }
            out.append("];");
        },
    }
    proof {
        assert(out@ =~= start + stmt_text(*s));
    }
}

/// Appends statements separated by a space.
pub fn write_stmts(ss: &Vec<Stmt>, out: &mut String)
    ensures
        final(out)@ == old(out)@ + stmts_text(ss@),
    decreases ss, 1int,
{
    let ghost start = out@;
    let mut i: usize = 0;
    proof {
        assert(out@ =~= start + stmts_text(ss@.subrange(0, 0)));
    }
    while i < ss.len()
        invariant
            i <= ss@.len(),
            out@ == start + stmts_text(ss@.subrange(0, i as int)),
        decreases ss@.len() - i,
    {
        proof {
            assert(decreases_to!(ss => ss@[i as int]));
        }
        if i > 0 {
            out.append(" ");
        }
        write_stmt(&ss[i], out);
        proof {
            let next = ss@.subrange(0, i as int + 1);
            assert(next.drop_last() =~= ss@.subrange(0, i as int));
            if i == 0 {
                assert(next[0] == ss@[0]);
            }
            assert(out@ =~= start + stmts_text(next));
        }
        i = i + 1;
    }
    proof {
        assert(ss@.subrange(0, ss@.len() as int) =~= ss@);
    }
}

pub fn write_cases(cs: &Vec<crate::ast::SwitchCase>, out: &mut String)
    ensures
        final(out)@ == old(out)@ + cases_text(cs@),
    decreases cs, 1int,
{
    let ghost start = out@;
    let mut i: usize = 0;
    proof {
        assert(out@ =~= start + cases_text(cs@.subrange(0, 0)));
    }
    while i < cs.len()
        invariant
            i <= cs@.len(),
            out@ == start + cases_text(cs@.subrange(0, i as int)),
        decreases cs@.len() - i,
    {
        proof {
            assert(decreases_to!(cs => cs@[i as int].body));
        }
        out.append("case ");
        write_expr(&cs[i].value, out);
        out.append(": { ");
        write_stmts(&cs[i].body, out);
        out.append(" } ");
        proof {
            let next = cs@.subrange(0, i as int + 1);
            assert(next.drop_last() =~= cs@.subrange(0, i as int));
            assert(out@ =~= start + cases_text(next));
        }
        i = i + 1;
    }
    proof {
        assert(cs@.subrange(0, cs@.len() as int) =~= cs@);
    }
}

/// Appends the text of a markup node.
pub fn write_markup(n: &MarkupNode, out: &mut String)
    ensures
        final(out)@ == old(out)@ + markup_text(*n),
    decreases n, 0int,
{
    let ghost start = out@;
    match n {
        MarkupNode::Element { tag, attributes, children, .. } => {
            out.append("<");
            out.append(tag.as_str());
            let ghost before_attrs = out@;
            let mut i: usize = 0;
            proof {
                assert(out@ =~= before_attrs + attrs_text(attributes@.subrange(0, 0)));
            }
            while i < attributes.len()
                invariant
                    i <= attributes@.len(),
                    out@ == before_attrs + attrs_text(attributes@.subrange(0, i as int)),
                decreases attributes@.len() - i,
            {
                out.append(" ");
                out.append(attributes[i].name.as_str());
                out.append("=\"");
                write_expr(&attributes[i].value, out);
                out.append("\"");
                proof {
                    let next = attributes@.subrange(0, i as int + 1);
                    assert(next.drop_last() =~= attributes@.subrange(0, i as int));
                    assert(out@ =~= before_attrs + attrs_text(next));
                }
                i = i + 1;
            }
            proof {
                assert(attributes@.subrange(0, attributes@.len() as int) =~= attributes@);
            }
            out.append(">");
            write_markups(children, out);
            out.append("</");
            out.append(tag.as_str());
            out.append(">");
        },
        MarkupNode::Text(e) => write_expr(e, out),
        MarkupNode::IfBlock { condition, then_branch, else_branch } => {
            out.append("if(");
            write_expr(condition, out);
            out.append(") { ");
            write_markups(then_branch, out);
            out.append(" } else { ");
            match else_branch {
                Some(b) => write_markups(b, out),
                None => {},
            }
            out.append(" }");
        },
        MarkupNode::ForLoop { iterator, iterable, body } => {
            out.append("for(");
            out.append(iterator.as_str());
            out.append(" in ");
            write_expr(iterable, out);
            out.append(") { ");
            write_markups(body, out);
            out.append(" }");
        },
    }
    proof {
        assert(out@ =~= start + markup_text(*n));
    }
}

fn write_markups(ns: &Vec<MarkupNode>, out: &mut String)
    ensures
        final(out)@ == old(out)@ + markups_text(ns@),
    decreases ns, 0int,
{
    let ghost start = out@;
    let mut i: usize = 0;
    proof {
        assert(out@ =~= start + markups_text(ns@.subrange(0, 0)));
    }
    while i < ns.len()
        invariant
            i <= ns@.len(),
            out@ == start + markups_text(ns@.subrange(0, i as int)),
        decreases ns@.len() - i,
    {
        proof {
            assert(decreases_to!(ns => ns@[i as int]));
        }
        write_markup(&ns[i], out);
        proof {
            let next = ns@.subrange(0, i as int + 1);
            assert(next.drop_last() =~= ns@.subrange(0, i as int));
            assert(out@ =~= start + markups_text(next));
        }
        i = i + 1;
    }
    proof {
        assert(ns@.subrange(0, ns@.len() as int) =~= ns@);
    }
}

/// The text of a component's markup, one top-level node per line.
pub fn lower_render_block(ns: &Vec<MarkupNode>) -> (r: String)
    ensures
        r@ == render_text(ns@),
{
    let mut out = String::new();
    let mut i: usize = 0;
    proof {
        assert(out@ =~= render_text(ns@.subrange(0, 0)));
    }
    while i < ns.len()
        invariant
            i <= ns@.len(),
            out@ == render_text(ns@.subrange(0, i as int)),
        decreases ns@.len() - i,
    {
        if i > 0 {
            out.append("\n");
        }
        write_markup(&ns[i], &mut out);
        proof {
            let next = ns@.subrange(0, i as int + 1);
            assert(next.drop_last() =~= ns@.subrange(0, i as int));
            if i == 0 {
                assert(next[0] == ns@[0]);
                assert(out@ =~= markup_text(ns@[0]));
            }
            assert(out@ =~= render_text(next));
        }
        i = i + 1;
    }
    proof {
        assert(ns@.subrange(0, ns@.len() as int) =~= ns@);
    }
    out
}

} // verus!
