//! The parser: recursive descent over the token sequence, with precedence
//! climbing for binary operators. The first mismatch stops it.
//!
//! Every parsing routine takes the tokens and the index of the current
//! token, and on success returns what it read with the index after it. Each
//! consumes at least one token and never the closing `EOF`. The routines for
//! expressions, types, statements, markup, parameters and functions also
//! keep every name and literal they read: those of the tree they return are
//! exactly the identifier and literal tokens consumed, in source order.
use vstd::prelude::*;
use crate::ast::{
    Attribute, BinaryOp, CatchBlock, Class, Component, Constructor, Expr, Field, Function, Import,
    LetVar, MarkupNode, Module, ObjectProperty, ObjectTypeProperty, Parameter, StateVar, Stmt,
    StyleProperty, SwitchCase, Type, UnaryOp, AST,
};
use crate::syntax::{
    args_syntax, args_rest, at_tok, binary_rest, binary_syntax, comprehension_syntax, expr_syntax, expr_view,
    exprs_view, items_rest, postfix_rest, postfix_syntax, primary_syntax, props_rest, props_view, tok,
    unary_syntax, ExprV,
};
use crate::token::{ends_with_eof, Token, TokenView};

verus! {

/// A syntax error: what the grammar required at `position`, and the token
/// found there.
#[derive(Debug, Clone)]
pub struct ParseError {
    pub position: usize,
    pub expected: String,
    pub found: Token,
}

/// The result of a parsing routine started at `pos` on `tokens` moved forward
/// and stopped before the final `EOF`.
pub open spec fn advanced<T>(r: Result<(T, usize), ParseError>, tokens: Seq<Token>, pos: int) -> bool {
    r matches Ok((_, p)) ==> pos < p < tokens.len()
}

fn error<T>(tokens: &Vec<Token>, pos: usize, expected: &str) -> (r: Result<T, ParseError>)
    requires
        pos < tokens.len(),
    ensures
        r is Err,
{
    Err(ParseError { position: pos, expected: String::from_str(expected), found: tokens[pos].clone() })
}

/// Consumes `want`, or fails.
fn expect(tokens: &Vec<Token>, pos: usize, want: Token, what: &str) -> (r: Result<usize, ParseError>)
    requires
        ends_with_eof(tokens@),
        pos < tokens.len(),
        want != Token::EOF,
    ensures
        r is Ok <==> tokens@[pos as int]@ == want@,
        r matches Ok(p) ==> p == pos + 1 && p < tokens@.len() && tokens@[pos as int]@ == want@
            && span_leaves(tokens@, pos as int, p as int) == token_leaf(want),
{
    if tokens[pos] == want {
        proof {
            assert(tokens@[pos as int] != Token::EOF);
            lemma_span_one(tokens@, pos as int);
            assert(token_leaf(tokens@[pos as int]) == token_leaf(want));
        }
        Ok(pos + 1)
    } else {
        error(tokens, pos, what)
    }
}

/// Whether the current token is `t`.
fn at(tokens: &Vec<Token>, pos: usize, t: Token) -> (r: bool)
    requires
        pos < tokens.len(),
    ensures
        r == (tokens@[pos as int]@ == t@),
{
    tokens[pos] == t
}

/// Consumes an identifier and returns its name.
fn expect_identifier(tokens: &Vec<Token>, pos: usize) -> (r: Result<(String, usize), ParseError>)
    requires
        ends_with_eof(tokens@),
        pos < tokens.len(),
    ensures
        r is Ok <==> tokens@[pos as int] is Identifier,
        r matches Ok((name, p)) ==> tokens@[pos as int] == Token::Identifier(name),
        r matches Ok((name, p)) ==> p == pos + 1 && p < tokens@.len() && tokens@[pos as int]@
            == TokenView::Identifier(name@) && span_leaves(tokens@, pos as int, p as int) == seq![
            TokenView::Identifier(name@),
        ],
{
    match &tokens[pos] {
        Token::Identifier(name) => {
            proof {
                lemma_span_one(tokens@, pos as int);
            }
            Ok((name.clone(), pos + 1))
        },
        _ => error(tokens, pos, "identifier"),
    }
}

/// The precedence of a binary operator token, 0 for any other token.
pub open spec fn precedence_of(t: Token) -> u8 {
    match t {
        Token::Or => 1,
        Token::And => 2,
        Token::Equal | Token::NotEqual => 3,
        Token::LessThan | Token::LessThanEqual | Token::GreaterThan | Token::GreaterThanEqual => 4,
        Token::Plus | Token::Minus => 5,
        Token::Star | Token::Slash | Token::Percent => 6,
        _ => 0,
    }
}

/// The operator that a token with nonzero precedence stands for.
pub open spec fn binary_op_of(t: Token) -> BinaryOp {
    match t {
        Token::Or => BinaryOp::Or,
        Token::And => BinaryOp::And,
        Token::Equal => BinaryOp::Equal,
        Token::NotEqual => BinaryOp::NotEqual,
        Token::LessThan => BinaryOp::LessThan,
        Token::LessThanEqual => BinaryOp::LessThanEqual,
        Token::GreaterThan => BinaryOp::GreaterThan,
        Token::GreaterThanEqual => BinaryOp::GreaterThanEqual,
        Token::Plus => BinaryOp::Add,
        Token::Minus => BinaryOp::Subtract,
        Token::Star => BinaryOp::Multiply,
        Token::Slash => BinaryOp::Divide,
        _ => BinaryOp::Modulo,
    }
}

pub fn get_operator_precedence(t: &Token) -> (r: u8)
    ensures
        r == precedence_of(*t),
{
    match t {
        Token::Or => 1,
        Token::And => 2,
        Token::Equal | Token::NotEqual => 3,
        Token::LessThan | Token::LessThanEqual | Token::GreaterThan | Token::GreaterThanEqual => 4,
        Token::Plus | Token::Minus => 5,
        Token::Star | Token::Slash | Token::Percent => 6,
        _ => 0,
    }
}

pub fn parse_binary_operator(t: &Token) -> (r: BinaryOp)
    ensures
        r == binary_op_of(*t),
{
    match t {
        Token::Or => BinaryOp::Or,
        Token::And => BinaryOp::And,
        Token::Equal => BinaryOp::Equal,
        Token::NotEqual => BinaryOp::NotEqual,
        Token::LessThan => BinaryOp::LessThan,
        Token::LessThanEqual => BinaryOp::LessThanEqual,
        Token::GreaterThan => BinaryOp::GreaterThan,
        Token::GreaterThanEqual => BinaryOp::GreaterThanEqual,
        Token::Plus => BinaryOp::Add,
        Token::Minus => BinaryOp::Subtract,
        Token::Star => BinaryOp::Multiply,
        Token::Slash => BinaryOp::Divide,
        _ => BinaryOp::Modulo,
    }
}

/// A type annotation.
pub fn parse_type(tokens: &Vec<Token>, pos: usize) -> (r: Result<(Type, usize), ParseError>)
    requires
        ends_with_eof(tokens@),
        pos < tokens.len(),
    ensures
        advanced(r, tokens@, pos as int),
        r matches Ok((t, p)) ==> type_leaves(t) == span_leaves(tokens@, pos as int, p as int),
    decreases tokens@.len() - pos,
{
    if at(tokens, pos, Token::Ampersand) {
        let p = pos + 1;
        proof {
            lemma_span_one(tokens@, pos as int);
        }
        if at(tokens, p, Token::Mut) {
            let (inner, q) = parse_type(tokens, p + 1)?;
            proof {
                lemma_span_split(tokens@, pos as int, p as int, q as int);
                lemma_span_split(tokens@, p as int, p + 1, q as int);
                lemma_span_one(tokens@, p as int);
            }
            return Ok((Type::MutRef(Box::new(inner)), q));
        }
        let (inner, q) = parse_type(tokens, p)?;
        proof {
            lemma_span_split(tokens@, pos as int, p as int, q as int);
        }
        return Ok((Type::Ref(Box::new(inner)), q));
    }
    if at(tokens, pos, Token::LeftBrace) {
        let mut p = pos + 1;
        let mut props: Vec<ObjectTypeProperty> = Vec::new();
        proof {
            lemma_span_empty(tokens@, pos + 1);
        }
        while !at(tokens, p, Token::RightBrace)
            invariant
                ends_with_eof(tokens@),
                pos < p < tokens.len(),
                type_props_leaves(props@) == span_leaves(tokens@, pos + 1, p as int),
            decreases tokens@.len() - p,
        {
            let (name, q) = expect_identifier(tokens, p)?;
            let q1 = expect(tokens, q, Token::Colon, "':'")?;
            let (type_, q2) = parse_type(tokens, q1)?;
            let ghost before = props@;
            props.push(ObjectTypeProperty { name, type_, optional: false });
            proof {
                assert(props@.drop_last() =~= before);
                lemma_span_split(tokens@, pos + 1, p as int, q2 as int);
                lemma_span_split(tokens@, p as int, q as int, q2 as int);
                lemma_span_split(tokens@, q as int, q1 as int, q2 as int);
                assert(type_props_leaves(props@) =~= span_leaves(tokens@, pos + 1, q2 as int));
            }
            if at(tokens, q2, Token::Comma) {
                proof {
                    lemma_span_extend(tokens@, pos + 1, q2 as int);
                }
                p = q2 + 1;
            } else {
                p = q2;
            }
        }
        proof {
            lemma_span_one(tokens@, pos as int);
            lemma_span_extend(tokens@, pos + 1, p as int);
            lemma_span_split(tokens@, pos as int, pos + 1, p + 1);
        }
        return Ok((Type::Object(props), p + 1));
    }
    let (name, p) = expect_identifier(tokens, pos)?;
    if name == String::from_str("string") {
        Ok((Type::String, p))
    } else if name == String::from_str("number") {
        Ok((Type::Number, p))
    } else if name == String::from_str("boolean") {
        Ok((Type::Boolean, p))
    } else if name == String::from_str("void") {
        Ok((Type::Void, p))
    } else if name == String::from_str("any") {
        Ok((Type::Any, p))
    } else if name == String::from_str("Option") || name == String::from_str("Array") {
        let q = expect(tokens, p, Token::LessThan, "'<'")?;
        let (inner, q1) = parse_type(tokens, q)?;
        let q2 = expect(tokens, q1, Token::GreaterThan, "'>'")?;
        proof {
            lemma_span_split(tokens@, pos as int, p as int, q2 as int);
            lemma_span_split(tokens@, p as int, q as int, q2 as int);
            lemma_span_split(tokens@, q as int, q1 as int, q2 as int);
        }
        if name == String::from_str("Option") {
            Ok((Type::Option(Box::new(inner)), q2))
        } else {
            Ok((Type::Array(Box::new(inner)), q2))
        }
    } else if name == String::from_str("Result") {
        let q = expect(tokens, p, Token::LessThan, "'<'")?;
        let (ok, q1) = parse_type(tokens, q)?;
        let q2 = expect(tokens, q1, Token::Comma, "','")?;
        let (err, q3) = parse_type(tokens, q2)?;
        let q4 = expect(tokens, q3, Token::GreaterThan, "'>'")?;
        proof {
            lemma_span_split(tokens@, pos as int, p as int, q4 as int);
            lemma_span_split(tokens@, p as int, q as int, q4 as int);
            lemma_span_split(tokens@, q as int, q1 as int, q4 as int);
            lemma_span_split(tokens@, q1 as int, q2 as int, q4 as int);
            lemma_span_split(tokens@, q2 as int, q3 as int, q4 as int);
            assert(type_leaves(Type::Result(Box::new(ok), Box::new(err))) =~= span_leaves(
                tokens@,
                pos as int,
                q4 as int,
            ));
        }
        Ok((Type::Result(Box::new(ok), Box::new(err)), q4))
    } else {
        Ok((Type::Custom(name), p))
    }
}

/// The names and literals among tokens, in order: identifiers, strings,
/// numbers and booleans.
pub open spec fn leaves_of(ts: Seq<Token>) -> Seq<TokenView>
    decreases ts.len(),
{
    if ts.len() == 0 {
        Seq::empty()
    } else {
        leaves_of(ts.drop_last()) + token_leaf(ts.last())
    }
}

pub open spec fn token_leaf(t: Token) -> Seq<TokenView> {
    match t {
        Token::Identifier(_) | Token::StringLiteral(_) | Token::NumberLiteral(_)
        | Token::BooleanLiteral(_) => seq![t@],
        _ => Seq::empty(),
    }
}

/// The names and literals of an expression, in source order.
pub open spec fn expr_leaves(e: Expr) -> Seq<TokenView>
    decreases e,
{
    match e {
        Expr::StringLiteral(s) => seq![TokenView::StringLiteral(s@)],
        Expr::NumberLiteral(n) => seq![TokenView::NumberLiteral(n@)],
        Expr::BooleanLiteral(b) => seq![TokenView::Plain(Token::BooleanLiteral(b))],
        Expr::NullLiteral => seq![TokenView::Identifier("null"@)],
        Expr::UndefinedLiteral => seq![TokenView::Identifier("undefined"@)],
        Expr::Identifier(n) => seq![TokenView::Identifier(n@)],
        Expr::BinaryOp { left, right, .. } => expr_leaves(*left) + expr_leaves(*right),
        Expr::UnaryOp { operand, .. } => expr_leaves(*operand),
        Expr::Call { func, args } => expr_leaves(*func) + list_leaves(args@),
        Expr::MethodCall { object, method, args } => expr_leaves(*object) + seq![
            TokenView::Identifier(method@),
        ] + list_leaves(args@),
        Expr::PropertyAccess { object, property } => expr_leaves(*object) + seq![
            TokenView::Identifier(property@),
        ],
        Expr::ArrayAccess { array, index } => expr_leaves(*array) + expr_leaves(*index),
        Expr::New { class, args } => seq![TokenView::Identifier(class@)] + list_leaves(args@),
        Expr::ArrayLiteral(items) => list_leaves(items@),
        Expr::ObjectLiteral(props) => props_leaves(props@),
        Expr::Await(inner) => expr_leaves(*inner),
        Expr::Comprehension { target, iter, filter, expr } => expr_leaves(*expr) + seq![
            TokenView::Identifier(target@),
        ] + expr_leaves(*iter) + match filter {
            Some(f) => expr_leaves(*f),
            None => Seq::empty(),
        },
    }
}

pub open spec fn list_leaves(es: Seq<Expr>) -> Seq<TokenView>
    decreases es,
{
    if es.len() == 0 {
        Seq::empty()
    } else {
        list_leaves(es.drop_last()) + expr_leaves(es.last())
    }
}

/// An object property: its key, then its value unless written as shorthand.
pub open spec fn props_leaves(ps: Seq<ObjectProperty>) -> Seq<TokenView>
    decreases ps,
{
    if ps.len() == 0 {
        Seq::empty()
    } else {
        props_leaves(ps.drop_last()) + seq![TokenView::Identifier(ps.last().key@)] + if ps.last().shorthand {
            Seq::empty()
        } else {
            expr_leaves(ps.last().value)
        }
    }
}

/// The names of a type annotation, in source order (built-in type names
/// are identifiers too).
pub open spec fn type_leaves(t: Type) -> Seq<TokenView>
    decreases t,
{
    match t {
        Type::String => seq![TokenView::Identifier("string"@)],
        Type::Number => seq![TokenView::Identifier("number"@)],
        Type::Boolean => seq![TokenView::Identifier("boolean"@)],
        Type::Void => seq![TokenView::Identifier("void"@)],
        Type::Any => seq![TokenView::Identifier("any"@)],
        Type::Array(inner) => seq![TokenView::Identifier("Array"@)] + type_leaves(*inner),
        Type::Object(props) => type_props_leaves(props@),
        Type::Custom(n) => seq![TokenView::Identifier(n@)],
        Type::Option(inner) => seq![TokenView::Identifier("Option"@)] + type_leaves(*inner),
        Type::Result(ok, err) => seq![TokenView::Identifier("Result"@)] + type_leaves(*ok) + type_leaves(*err),
        Type::Ref(inner) => type_leaves(*inner),
        Type::MutRef(inner) => type_leaves(*inner),
    }
}

pub open spec fn type_props_leaves(ps: Seq<ObjectTypeProperty>) -> Seq<TokenView>
    decreases ps,
{
    if ps.len() == 0 {
        Seq::empty()
    } else {
        type_props_leaves(ps.drop_last()) + seq![TokenView::Identifier(ps.last().name@)] + type_leaves(
            ps.last().type_,
        )
    }
}

pub open spec fn opt_type_leaves(t: Option<Type>) -> Seq<TokenView> {
    match t {
        Some(x) => type_leaves(x),
        None => Seq::empty(),
    }
}

pub open spec fn opt_expr_leaves(e: Option<Expr>) -> Seq<TokenView> {
    match e {
        Some(x) => expr_leaves(x),
        None => Seq::empty(),
    }
}

pub open spec fn opt_stmts_leaves(b: Option<Vec<Stmt>>) -> Seq<TokenView> {
    match b {
        Some(ss) => stmts_leaves(ss@),
        None => Seq::empty(),
    }
}

pub open spec fn label_leaves(l: Option<String>) -> Seq<TokenView> {
    match l {
        Some(n) => seq![TokenView::Identifier(n@)],
        None => Seq::empty(),
    }
}

/// The names and literals of a statement, in source order.
pub open spec fn stmt_leaves(s: Stmt) -> Seq<TokenView>
    decreases s,
{
    match s {
        Stmt::Expr(e) => expr_leaves(e),
        Stmt::Assign { target, value } => seq![TokenView::Identifier(target@)] + expr_leaves(value),
        Stmt::If { condition, then, else_ } => expr_leaves(condition) + stmts_leaves(then@) + match else_ {
            Some(b) => stmts_leaves(b@),
            None => Seq::empty(),
        },
        Stmt::While { condition, body } => expr_leaves(condition) + stmts_leaves(body@),
        Stmt::ForIn { variable, iterable, body } => seq![TokenView::Identifier(variable@)] + expr_leaves(
            iterable,
        ) + stmts_leaves(body@),
        Stmt::ForOf { variable, iterable, body } => seq![TokenView::Identifier(variable@)] + expr_leaves(
            iterable,
        ) + stmts_leaves(body@),
        Stmt::Return(e) => opt_expr_leaves(e),
        Stmt::Let { name, value, type_annotation } => seq![TokenView::Identifier(name@)] + opt_type_leaves(
            type_annotation,
        ) + expr_leaves(value),
        Stmt::State { name, value, type_annotation } => seq![TokenView::Identifier(name@)]
            + opt_type_leaves(type_annotation) + expr_leaves(value),
        Stmt::Block(b) => stmts_leaves(b@),
        Stmt::Try { body, catch, finally } => stmts_leaves(body@) + match catch {
            Some(c) => seq![TokenView::Identifier(c.error_var@)] + stmts_leaves(c.body@),
            None => Seq::empty(),
        } + match finally {
            Some(b) => stmts_leaves(b@),
            None => Seq::empty(),
        },
        Stmt::Throw(e) => expr_leaves(e),
        Stmt::Break(l) => label_leaves(l),
        Stmt::Continue(l) => label_leaves(l),
        Stmt::Switch { expression, cases, default } => expr_leaves(expression) + cases_leaves(cases@)
            + match default {
            Some(b) => stmts_leaves(b@),
            None => Seq::empty(),
        },
        Stmt::Reactive { name, expr } => seq![TokenView::Identifier(name@)] + expr_leaves(expr),
        Stmt::Comprehension { target, iter, filter, expr } => expr_leaves(expr) + seq![
            TokenView::Identifier(target@),
        ] + expr_leaves(iter) + match filter {
            Some(f) => expr_leaves(f),
            None => Seq::empty(),
        },
    }
}

pub open spec fn stmts_leaves(ss: Seq<Stmt>) -> Seq<TokenView>
    decreases ss,
{
    if ss.len() == 0 {
        Seq::empty()
    } else {
        stmts_leaves(ss.drop_last()) + stmt_leaves(ss.last())
    }
}

pub open spec fn cases_leaves(cs: Seq<SwitchCase>) -> Seq<TokenView>
    decreases cs,
{
    if cs.len() == 0 {
        Seq::empty()
    } else {
        cases_leaves(cs.drop_last()) + expr_leaves(cs.last().value) + stmts_leaves(cs.last().body@)
    }
}

/// The names and literals of a parameter: its name, type and default.
pub open spec fn param_leaves(p: Parameter) -> Seq<TokenView> {
    seq![TokenView::Identifier(p.name@)] + opt_type_leaves(p.type_annotation) + opt_expr_leaves(
        p.default_value,
    )
}

pub open spec fn params_leaves(ps: Seq<Parameter>) -> Seq<TokenView>
    decreases ps.len(),
{
    if ps.len() == 0 {
        Seq::empty()
    } else {
        params_leaves(ps.drop_last()) + param_leaves(ps.last())
    }
}

/// The names and literals of a function, in source order.
pub open spec fn function_leaves(f: Function) -> Seq<TokenView> {
    seq![TokenView::Identifier(f.name@)] + params_leaves(f.params@) + opt_type_leaves(f.return_type)
        + stmts_leaves(f.body@)
}

/// The names and literals of a markup attribute: its name, then its value
/// unless written bare.
pub open spec fn attr_leaves(a: Attribute) -> Seq<TokenView> {
    seq![TokenView::Identifier(a.name@)] + if a.bare {
        Seq::empty()
    } else {
        expr_leaves(a.value)
    }
}

pub open spec fn attrs_leaves(attrs: Seq<Attribute>) -> Seq<TokenView>
    decreases attrs.len(),
{
    if attrs.len() == 0 {
        Seq::empty()
    } else {
        attrs_leaves(attrs.drop_last()) + attr_leaves(attrs.last())
    }
}

/// The names and literals of a markup node, in source order; an element's
/// tag is named again by its closing tag.
pub open spec fn markup_leaves(n: MarkupNode) -> Seq<TokenView>
    decreases n,
{
    match n {
        MarkupNode::Element { tag, attributes, children, self_closing } => seq![TokenView::Identifier(tag@)]
            + attrs_leaves(attributes@) + if self_closing {
            Seq::empty()
        } else {
            markups_leaves(children@) + seq![TokenView::Identifier(tag@)]
        },
        MarkupNode::Text(e) => expr_leaves(e),
        MarkupNode::IfBlock { condition, then_branch, else_branch } => expr_leaves(condition) + markups_leaves(
            then_branch@,
        ) + match else_branch {
            Some(b) => markups_leaves(b@),
            None => Seq::empty(),
        },
        MarkupNode::ForLoop { iterator, iterable, body } => seq![TokenView::Identifier(iterator@)]
            + expr_leaves(iterable) + markups_leaves(body@),
    }
}

pub open spec fn markups_leaves(ns: Seq<MarkupNode>) -> Seq<TokenView>
    decreases ns,
{
    if ns.len() == 0 {
        Seq::empty()
    } else {
        markups_leaves(ns.drop_last()) + markup_leaves(ns.last())
    }
}

/// The names and literals of the tokens from `i` to `j`.
pub open spec fn span_leaves(ts: Seq<Token>, i: int, j: int) -> Seq<TokenView> {
    leaves_of(ts.subrange(i, j))
}

proof fn lemma_leaves_concat(a: Seq<Token>, b: Seq<Token>)
    ensures
        leaves_of(a + b) == leaves_of(a) + leaves_of(b),
    decreases b.len(),
{
    if b.len() == 0 {
        assert(a + b =~= a);
        assert(leaves_of(a) + leaves_of(b) =~= leaves_of(a));
    } else {
        lemma_leaves_concat(a, b.drop_last());
        assert((a + b).drop_last() =~= a + b.drop_last());
        assert((a + b).last() == b.last());
    }
}

/// Splitting a span of tokens splits its names and literals.
proof fn lemma_span_split(ts: Seq<Token>, i: int, j: int, k: int)
    requires
        0 <= i <= j <= k <= ts.len(),
    ensures
        span_leaves(ts, i, k) == span_leaves(ts, i, j) + span_leaves(ts, j, k),
{
    assert(ts.subrange(i, k) =~= ts.subrange(i, j) + ts.subrange(j, k));
    lemma_leaves_concat(ts.subrange(i, j), ts.subrange(j, k));
}

/// One token's contribution to a span.
proof fn lemma_span_one(ts: Seq<Token>, i: int)
    requires
        0 <= i < ts.len(),
    ensures
        span_leaves(ts, i, i + 1) == token_leaf(ts[i]),
{
    let one = ts.subrange(i, i + 1);
    assert(one.drop_last() =~= Seq::<Token>::empty());
    assert(leaves_of(one.drop_last()) =~= Seq::<TokenView>::empty());
    assert(one.last() == ts[i]);
    assert(Seq::<TokenView>::empty() + token_leaf(ts[i]) =~= token_leaf(ts[i]));
}

/// A span with one token more at its end.
proof fn lemma_span_extend(ts: Seq<Token>, i: int, j: int)
    requires
        0 <= i <= j < ts.len(),
    ensures
        span_leaves(ts, i, j + 1) == span_leaves(ts, i, j) + token_leaf(ts[j]),
{
    lemma_span_split(ts, i, j, j + 1);
    lemma_span_one(ts, j);
}

proof fn lemma_span_empty(ts: Seq<Token>, i: int)
    requires
        0 <= i <= ts.len(),
    ensures
        span_leaves(ts, i, i) == Seq::<TokenView>::empty(),
{
    assert(ts.subrange(i, i) =~= Seq::<Token>::empty());
}

proof fn lemma_props_view_push(ps: Seq<ObjectProperty>, x: ObjectProperty)
    ensures
        props_view(ps.push(x)) == props_view(ps).push(
            crate::syntax::PropV { key: x.key, value: expr_view(x.value), shorthand: x.shorthand },
        ),
{
    assert(ps.push(x).drop_last() =~= ps);
}

proof fn lemma_view_identifier(e: Expr)
    ensures
        (expr_view(e) is Identifier) == (e is Identifier),
{
    match e {
        Expr::Identifier(_) => {},
        _ => {},
    }
}

/// What an expression parse gives, as the grammar states it.
pub open spec fn parsed_expr(r: Result<(Expr, usize), ParseError>) -> Result<(ExprV, int), ()> {
    match r {
        Ok((e, p)) => Ok((expr_view(e), p as int)),
        Err(_) => Err(()),
    }
}

pub open spec fn parsed_args(r: Result<(Vec<Expr>, usize), ParseError>) -> Result<(Seq<ExprV>, int), ()> {
    match r {
        Ok((args, p)) => Ok((exprs_view(args@), p as int)),
        Err(_) => Err(()),
    }
}

/// A successful expression parse from `pos` keeps every name and literal of
/// the tokens it read, in order, and no other.
pub open spec fn keeps_leaves(r: Result<(Expr, usize), ParseError>, tokens: Seq<Token>, pos: int) -> bool {
    r matches Ok((e, p)) ==> expr_leaves(e) == span_leaves(tokens, pos, p as int)
}

/// An expression: `await e`, or a binary expression.
pub fn parse_expression(tokens: &Vec<Token>, pos: usize) -> (r: Result<(Expr, usize), ParseError>)
    requires
        ends_with_eof(tokens@),
        pos < tokens.len(),
    ensures
        advanced(r, tokens@, pos as int),
        keeps_leaves(r, tokens@, pos as int),
        parsed_expr(r) == expr_syntax(tokens@, pos as int),
    decreases tokens@.len() - pos, 12int,
{
    if at(tokens, pos, Token::Await) {
        let (inner, p) = parse_expression(tokens, pos + 1)?;
        proof {
            lemma_span_split(tokens@, pos as int, pos + 1, p as int);
            lemma_span_one(tokens@, pos as int);
        }
        return Ok((Expr::Await(Box::new(inner)), p));
    }
    parse_binary_expression(tokens, pos, 1)
}

/// Precedence climbing: a unary expression followed by operators of
/// precedence at least `min_precedence`, each with a right operand of
/// strictly higher precedence, grouped to the left.
#[verifier::rlimit(100)]
pub fn parse_binary_expression(tokens: &Vec<Token>, pos: usize, min_precedence: u8) -> (r: Result<
    (Expr, usize),
    ParseError,
>)
    requires
        ends_with_eof(tokens@),
        pos < tokens.len(),
        1 <= min_precedence <= 7,
    ensures
        advanced(r, tokens@, pos as int),
        keeps_leaves(r, tokens@, pos as int),
        parsed_expr(r) == binary_syntax(tokens@, pos as int, min_precedence as int),
    decreases tokens@.len() - pos, 11int,
{
    let (mut left, mut p) = parse_unary_expression(tokens, pos)?;
    loop
        invariant
            ends_with_eof(tokens@),
            pos < p < tokens.len(),
            1 <= min_precedence <= 7,
            expr_leaves(left) == span_leaves(tokens@, pos as int, p as int),
            binary_syntax(tokens@, pos as int, min_precedence as int) == binary_rest(
                tokens@,
                expr_view(left),
                p as int,
                min_precedence as int,
            ),
        decreases tokens@.len() - p,
    {
        let precedence = get_operator_precedence(&tokens[p]);
        if precedence == 0 || precedence < min_precedence {
            proof {
                assert(binary_rest(tokens@, expr_view(left), p as int, min_precedence as int) == Ok::<
                    (ExprV, int),
                    (),
                >((expr_view(left), p as int)));
            }
            return Ok((left, p));
        }
        proof {
            assert(tokens@[p as int] != Token::EOF);
        }
        let op = parse_binary_operator(&tokens[p]);
        let (right, q) = parse_binary_expression(tokens, p + 1, precedence + 1)?;
        proof {
            lemma_span_split(tokens@, pos as int, p as int, q as int);
            lemma_span_split(tokens@, p as int, p + 1, q as int);
            lemma_span_one(tokens@, p as int);
            assert(token_leaf(tokens@[p as int]) == Seq::<TokenView>::empty());
        }
        left = Expr::BinaryOp { left: Box::new(left), op, right: Box::new(right) };
        p = q;
    }
}

/// `-e`, `!e`, or a postfix expression.
pub fn parse_unary_expression(tokens: &Vec<Token>, pos: usize) -> (r: Result<(Expr, usize), ParseError>)
    requires
        ends_with_eof(tokens@),
        pos < tokens.len(),
    ensures
        advanced(r, tokens@, pos as int),
        keeps_leaves(r, tokens@, pos as int),
        parsed_expr(r) == unary_syntax(tokens@, pos as int),
    decreases tokens@.len() - pos, 10int,
{
    if at(tokens, pos, Token::Minus) || at(tokens, pos, Token::Not) {
        let op = if at(tokens, pos, Token::Minus) {
            UnaryOp::Minus
        } else {
            UnaryOp::Not
        };
        let (operand, p) = parse_unary_expression(tokens, pos + 1)?;
        proof {
            lemma_span_split(tokens@, pos as int, pos + 1, p as int);
            lemma_span_one(tokens@, pos as int);
        }
        return Ok((Expr::UnaryOp { op, operand: Box::new(operand) }, p));
    }
    parse_postfix_expression(tokens, pos)
}

/// A primary expression followed by calls (of a bare identifier), method
/// calls, property accesses and index accesses.
#[verifier::rlimit(100)]
fn parse_postfix_expression(tokens: &Vec<Token>, pos: usize) -> (r: Result<(Expr, usize), ParseError>)
    requires
        ends_with_eof(tokens@),
        pos < tokens.len(),
    ensures
        advanced(r, tokens@, pos as int),
        keeps_leaves(r, tokens@, pos as int),
        parsed_expr(r) == postfix_syntax(tokens@, pos as int),
    decreases tokens@.len() - pos, 9int,
{
    let (mut e, mut p) = parse_primary_expression(tokens, pos)?;
    loop
        invariant
            ends_with_eof(tokens@),
            pos < p < tokens.len(),
            expr_leaves(e) == span_leaves(tokens@, pos as int, p as int),
            postfix_syntax(tokens@, pos as int) == postfix_rest(tokens@, expr_view(e), p as int),
        decreases tokens@.len() - p,
    {
        proof {
            lemma_view_identifier(e);
        }
        if at(tokens, p, Token::LeftParen) && matches!(e, Expr::Identifier(_)) {
            let (args, q) = parse_arguments(tokens, p + 1)?;
            proof {
                lemma_span_split(tokens@, pos as int, p as int, q as int);
                lemma_span_split(tokens@, p as int, p + 1, q as int);
                lemma_span_one(tokens@, p as int);
            }
            e = Expr::Call { func: Box::new(e), args };
            p = q;
        } else if at(tokens, p, Token::Dot) {
            let (name, q) = expect_identifier(tokens, p + 1)?;
            proof {
                lemma_span_split(tokens@, pos as int, p as int, q as int);
                lemma_span_split(tokens@, p as int, p + 1, q as int);
                lemma_span_one(tokens@, p as int);
            }
            if at(tokens, q, Token::LeftParen) {
                let (args, q2) = parse_arguments(tokens, q + 1)?;
                proof {
                    lemma_span_split(tokens@, pos as int, q as int, q2 as int);
                    lemma_span_split(tokens@, q as int, q + 1, q2 as int);
                    lemma_span_one(tokens@, q as int);
                }
                e = Expr::MethodCall { object: Box::new(e), method: name, args };
                p = q2;
            } else {
                e = Expr::PropertyAccess { object: Box::new(e), property: name };
                p = q;
            }
        } else if at(tokens, p, Token::LeftBracket) {
            let (index, q) = parse_expression(tokens, p + 1)?;
            let q2 = expect(tokens, q, Token::RightBracket, "']'")?;
            proof {
                lemma_span_split(tokens@, pos as int, p as int, q2 as int);
                lemma_span_split(tokens@, p as int, p + 1, q2 as int);
                lemma_span_split(tokens@, p + 1, q as int, q2 as int);
                lemma_span_one(tokens@, p as int);
            }
            e = Expr::ArrayAccess { array: Box::new(e), index: Box::new(index) };
            p = q2;
        } else {
            proof {
                lemma_view_identifier(e);
                assert(postfix_rest(tokens@, expr_view(e), p as int) == Ok::<(ExprV, int), ()>(
                    (expr_view(e), p as int),
                ));
            }
            return Ok((e, p));
        }
    }
}

/// Comma-separated expressions up to and including `)`; `pos` is just after
/// the `(`.
fn parse_arguments(tokens: &Vec<Token>, pos: usize) -> (r: Result<(Vec<Expr>, usize), ParseError>)
    requires
        ends_with_eof(tokens@),
        pos < tokens.len(),
    ensures
        advanced(r, tokens@, pos as int),
        r matches Ok((args, p)) ==> list_leaves(args@) == span_leaves(tokens@, pos as int, p as int),
        parsed_args(r) == args_syntax(tokens@, pos as int),
    decreases tokens@.len() - pos, 13int,
{
    let mut args: Vec<Expr> = Vec::new();
    let mut p = pos;
    proof {
        lemma_span_empty(tokens@, pos as int);
    }
    while !at(tokens, p, Token::RightParen)
        invariant
            ends_with_eof(tokens@),
            pos <= p < tokens.len(),
            list_leaves(args@) == span_leaves(tokens@, pos as int, p as int),
            args_syntax(tokens@, pos as int) == args_rest(tokens@, p as int, exprs_view(args@)),
        decreases tokens@.len() - p,
    {
        let (arg, q) = parse_expression(tokens, p)?;
        let ghost before = args@;
        args.push(arg);
        proof {
            assert(args@.drop_last() =~= before);
            assert(exprs_view(args@) == exprs_view(before).push(expr_view(arg)));
            lemma_span_split(tokens@, pos as int, p as int, q as int);
        }
        if at(tokens, q, Token::Comma) {
            proof {
                lemma_span_extend(tokens@, pos as int, q as int);
            }
            p = q + 1;
        } else {
            p = q;
        }
    }
    proof {
        assert(tokens@[p as int] != Token::EOF);
        lemma_span_extend(tokens@, pos as int, p as int);
    }
    Ok((args, p + 1))
}

/// An object literal from the `{` at `pos`.
#[verifier::rlimit(100)]
fn parse_object_literal(tokens: &Vec<Token>, pos: usize) -> (r: Result<(Expr, usize), ParseError>)
    requires
        ends_with_eof(tokens@),
        pos < tokens.len(),
        tokens@[pos as int] == Token::LeftBrace,
    ensures
        advanced(r, tokens@, pos as int),
        keeps_leaves(r, tokens@, pos as int),
        parsed_expr(r) == props_rest(tokens@, pos + 1, Seq::empty()),
    decreases tokens@.len() - pos, 7int,
{
    proof {
        assert(tokens@[pos as int] != Token::EOF);
    }
    proof {
        lemma_span_one(tokens@, pos as int);
        assert(props_view(Seq::<ObjectProperty>::empty()) =~= Seq::<crate::syntax::PropV>::empty());
    }
    let mut props: Vec<ObjectProperty> = Vec::new();
    let mut p = pos + 1;
    proof {
        lemma_span_empty(tokens@, pos + 1);
    }
    while !at(tokens, p, Token::RightBrace)
        invariant
            ends_with_eof(tokens@),
            pos < p < tokens.len(),
            props_leaves(props@) == span_leaves(tokens@, pos + 1, p as int),
            props_rest(tokens@, pos + 1, Seq::empty()) == props_rest(tokens@, p as int, props_view(props@)),
        decreases tokens@.len() - p,
    {
        let (key, q) = expect_identifier(tokens, p)?;
        let ghost before = props@;
        let ghost acc = props_view(before);
        proof {
            lemma_span_split(tokens@, pos + 1, p as int, q as int);
        }
        if at(tokens, q, Token::Colon) {
            let (value, q2) = parse_expression(tokens, q + 1)?;
            let ghost pv = crate::syntax::PropV { key: key, value: expr_view(value), shorthand: false };
            props.push(ObjectProperty { key, value, shorthand: false });
            proof {
                assert(props@.drop_last() =~= before);
                lemma_props_view_push(before, props@.last());
                assert(props@ =~= before.push(props@.last()));
                assert(props_view(props@) == acc.push(pv));
                lemma_span_split(tokens@, pos + 1, q as int, q2 as int);
                lemma_span_split(tokens@, q as int, q + 1, q2 as int);
                lemma_span_one(tokens@, q as int);
            }
            let next = if at(tokens, q2, Token::Comma) { q2 + 1 } else { q2 };
            proof {
                assert(props_rest(tokens@, p as int, acc) == props_rest(tokens@, next as int, acc.push(pv)));
                if next == q2 + 1 {
                    lemma_span_extend(tokens@, pos + 1, q2 as int);
                }
            }
            p = next;
        } else {
            let value = Expr::Identifier(key.clone());
            let ghost pv = crate::syntax::PropV { key: key, value: ExprV::Identifier(key), shorthand: true };
            props.push(ObjectProperty { key, value, shorthand: true });
            proof {
                assert(props@.drop_last() =~= before);
                lemma_props_view_push(before, props@.last());
                assert(props@ =~= before.push(props@.last()));
                assert(props_view(props@) == acc.push(pv));
            }
            let next = if at(tokens, q, Token::Comma) { q + 1 } else { q };
            proof {
                assert(props_rest(tokens@, p as int, acc) == props_rest(tokens@, next as int, acc.push(pv)));
                if next == q + 1 {
                    lemma_span_extend(tokens@, pos + 1, q as int);
                }
            }
            p = next;
        }
    }
    proof {
        assert(tokens@[p as int] != Token::EOF);
        lemma_span_extend(tokens@, pos + 1, p as int);
        lemma_span_split(tokens@, pos as int, pos + 1, p + 1);
    }
    Ok((Expr::ObjectLiteral(props), p + 1))
}

/// From the `[` at `pos`: `[]`, an array literal or a list comprehension.
#[verifier::rlimit(100)]
fn parse_bracket(tokens: &Vec<Token>, pos: usize) -> (r: Result<(Expr, usize), ParseError>)
    requires
        ends_with_eof(tokens@),
        pos < tokens.len(),
        tokens@[pos as int] == Token::LeftBracket,
    ensures
        advanced(r, tokens@, pos as int),
        keeps_leaves(r, tokens@, pos as int),
        parsed_expr(r) == crate::syntax::bracket_syntax(tokens@, pos as int),
    decreases tokens@.len() - pos, 7int,
{
    proof {
        assert(tokens@[pos as int] != Token::EOF);
    }
    proof {
        lemma_span_one(tokens@, pos as int);
    }
    let p = pos + 1;
    if at(tokens, p, Token::RightBracket) {
        let empty: Vec<Expr> = Vec::new();
        proof {
            lemma_span_split(tokens@, pos as int, p as int, p + 1);
            lemma_span_one(tokens@, p as int);
            assert(list_leaves(empty@) == Seq::<TokenView>::empty());
            assert(exprs_view(empty@) =~= Seq::<ExprV>::empty());
        }
        return Ok((Expr::ArrayLiteral(empty), p + 1));
    }
    let (first, p1) = parse_expression(tokens, p)?;
    if at(tokens, p1, Token::For) {
        let (target, q) = expect_identifier(tokens, p1 + 1)?;
        let q1 = expect(tokens, q, Token::In, "'in'")?;
        let (iter, q2) = parse_expression(tokens, q1)?;
        let mut filter: Option<Box<Expr>> = None;
        let mut q3 = q2;
        proof {
            lemma_span_empty(tokens@, q2 as int);
        }
        if at(tokens, q2, Token::If) {
            let (f, q4) = parse_expression(tokens, q2 + 1)?;
            proof {
                lemma_span_split(tokens@, q2 as int, q2 + 1, q4 as int);
                lemma_span_one(tokens@, q2 as int);
            }
            filter = Some(Box::new(f));
            q3 = q4;
        }
        proof {
            assert(match filter {
                Some(f) => expr_leaves(*f),
                None => Seq::<TokenView>::empty(),
            } == span_leaves(tokens@, q2 as int, q3 as int));
        }
        let end = expect(tokens, q3, Token::RightBracket, "']'")?;
        proof {
            lemma_span_split(tokens@, pos as int, p as int, end as int);
            lemma_span_split(tokens@, p as int, p1 as int, end as int);
            lemma_span_split(tokens@, p1 as int, p1 + 1, end as int);
            lemma_span_one(tokens@, p1 as int);
            lemma_span_split(tokens@, p1 + 1, q as int, end as int);
            lemma_span_split(tokens@, q as int, q1 as int, end as int);
            lemma_span_split(tokens@, q1 as int, q2 as int, end as int);
            lemma_span_split(tokens@, q2 as int, q3 as int, end as int);
        }
        let result = Expr::Comprehension {
            target,
            iter: Box::new(iter),
            filter,
            expr: Box::new(first),
        };
        proof {
            assert(expr_leaves(result) =~= span_leaves(tokens@, pos as int, end as int));
        }
        return Ok((result, end));
    }
    let mut items: Vec<Expr> = Vec::new();
    items.push(first);
    let mut q = p1;
    proof {
        assert(items@.drop_last() =~= Seq::<Expr>::empty());
        assert(list_leaves(items@.drop_last()) == Seq::<TokenView>::empty());
        assert(list_leaves(items@) =~= expr_leaves(items@[0]));
        assert(exprs_view(items@.drop_last()) =~= Seq::<ExprV>::empty());
        assert(exprs_view(items@) =~= seq![expr_view(items@[0])]);
    }
    while at(tokens, q, Token::Comma)
        invariant
            ends_with_eof(tokens@),
            pos < p <= q < tokens.len(),
            p == pos + 1,
            list_leaves(items@) == span_leaves(tokens@, p as int, q as int),
            crate::syntax::bracket_syntax(tokens@, pos as int) == items_rest(tokens@, q as int, exprs_view(items@)),
        decreases tokens@.len() - q,
    {
        let (item, q2) = parse_expression(tokens, q + 1)?;
        let ghost before = items@;
        items.push(item);
        proof {
            assert(items@.drop_last() =~= before);
            assert(exprs_view(items@) == exprs_view(before).push(expr_view(item)));
            lemma_span_split(tokens@, p as int, q as int, q2 as int);
            lemma_span_split(tokens@, q as int, q + 1, q2 as int);
            lemma_span_one(tokens@, q as int);
        }
        q = q2;
    }
    let end = expect(tokens, q, Token::RightBracket, "']'")?;
    proof {
        lemma_span_split(tokens@, pos as int, p as int, end as int);
        lemma_span_split(tokens@, p as int, q as int, end as int);
    }
    Ok((Expr::ArrayLiteral(items), end))
}

/// A literal, an identifier, a parenthesised expression, an array literal
/// or list comprehension, an object literal, or `new Class(args)`.
#[verifier::rlimit(100)]
pub fn parse_primary_expression(tokens: &Vec<Token>, pos: usize) -> (r: Result<(Expr, usize), ParseError>)
    requires
        ends_with_eof(tokens@),
        pos < tokens.len(),
    ensures
        advanced(r, tokens@, pos as int),
        keeps_leaves(r, tokens@, pos as int),
        parsed_expr(r) == primary_syntax(tokens@, pos as int),
    decreases tokens@.len() - pos, 8int,
{
    proof {
        lemma_span_one(tokens@, pos as int);
    }
    match &tokens[pos] {
        Token::NumberLiteral(n) => Ok((Expr::NumberLiteral(n.clone()), pos + 1)),
        Token::StringLiteral(v) => Ok((Expr::StringLiteral(v.clone()), pos + 1)),
        Token::BooleanLiteral(b) => Ok((Expr::BooleanLiteral(*b), pos + 1)),
        Token::Identifier(name) => {
            if *name == String::from_str("null") {
                Ok((Expr::NullLiteral, pos + 1))
            } else if *name == String::from_str("undefined") {
                Ok((Expr::UndefinedLiteral, pos + 1))
            } else {
                Ok((Expr::Identifier(name.clone()), pos + 1))
            }
        },
        Token::LeftParen => {
            let (e, p) = parse_expression(tokens, pos + 1)?;
            let q = expect(tokens, p, Token::RightParen, "')'")?;
            proof {
                lemma_span_split(tokens@, pos as int, pos + 1, q as int);
                lemma_span_split(tokens@, pos + 1, p as int, q as int);
            }
            Ok((e, q))
        },
        Token::New => {
            let (class, p) = expect_identifier(tokens, pos + 1)?;
            let p2 = expect(tokens, p, Token::LeftParen, "'('")?;
            let (args, p3) = parse_arguments(tokens, p2)?;
            proof {
                lemma_span_split(tokens@, pos as int, pos + 1, p3 as int);
                lemma_span_split(tokens@, pos + 1, p as int, p3 as int);
                lemma_span_split(tokens@, p as int, p2 as int, p3 as int);
            }
            Ok((Expr::New { class, args }, p3))
        },
        Token::LeftBrace => parse_object_literal(tokens, pos),
        Token::LeftBracket => parse_bracket(tokens, pos),
        _ => error(tokens, pos, "expression"),
    }
}

/// A successful statement parse from `pos` keeps every name and literal of
/// the tokens it read, in order, and no other.
pub open spec fn stmt_keeps_leaves(r: Result<(Stmt, usize), ParseError>, tokens: Seq<Token>, pos: int) -> bool {
    r matches Ok((s, p)) ==> stmt_leaves(s) == span_leaves(tokens, pos, p as int)
}

/// `{ statements }`: the statements of a block.
pub fn parse_block(tokens: &Vec<Token>, pos: usize) -> (r: Result<(Vec<Stmt>, usize), ParseError>)
    requires
        ends_with_eof(tokens@),
        pos < tokens.len(),
    ensures
        advanced(r, tokens@, pos as int),
        r matches Ok((body, p)) ==> stmts_leaves(body@) == span_leaves(tokens@, pos as int, p as int),
    decreases tokens@.len() - pos, 21int,
{
    let start = expect(tokens, pos, Token::LeftBrace, "'{'")?;
    let mut p = start;
    let mut body: Vec<Stmt> = Vec::new();
    proof {
        lemma_span_empty(tokens@, start as int);
    }
    while !at(tokens, p, Token::RightBrace)
        invariant
            ends_with_eof(tokens@),
            pos < start <= p < tokens.len(),
            start == pos + 1,
            stmts_leaves(body@) == span_leaves(tokens@, start as int, p as int),
        decreases tokens@.len() - p,
    {
        let (stmt, q) = parse_statement(tokens, p)?;
        let ghost before = body@;
        body.push(stmt);
        proof {
            assert(body@.drop_last() =~= before);
            lemma_span_split(tokens@, start as int, p as int, q as int);
        }
        p = q;
    }
    proof {
        assert(tokens@[p as int] != Token::EOF);
        lemma_span_extend(tokens@, start as int, p as int);
        lemma_span_split(tokens@, pos as int, start as int, p + 1);
    }
    Ok((body, p + 1))
}

/// `name [: type] = value;` after `let` or `state`.
fn parse_binding(tokens: &Vec<Token>, pos: usize) -> (r: Result<((String, Option<Type>, Expr), usize), ParseError>)
    requires
        ends_with_eof(tokens@),
        pos < tokens.len(),
    ensures
        advanced(r, tokens@, pos as int),
        r matches Ok(((name, t, value), p)) ==> seq![TokenView::Identifier(name@)] + opt_type_leaves(t)
            + expr_leaves(value) == span_leaves(tokens@, pos as int, p as int),
{
    let (name, p) = expect_identifier(tokens, pos)?;
    let mut type_annotation: Option<Type> = None;
    let mut q = p;
    proof {
        lemma_span_empty(tokens@, p as int);
    }
    if at(tokens, p, Token::Colon) {
        let (t, q1) = parse_type(tokens, p + 1)?;
        proof {
            lemma_span_split(tokens@, p as int, p + 1, q1 as int);
            lemma_span_one(tokens@, p as int);
        }
        type_annotation = Some(t);
        q = q1;
    }
    let q2 = expect(tokens, q, Token::Assign, "'='")?;
    let (value, q3) = parse_expression(tokens, q2)?;
    let q4 = expect(tokens, q3, Token::Semicolon, "';'")?;
    proof {
        lemma_span_split(tokens@, pos as int, p as int, q4 as int);
        lemma_span_split(tokens@, p as int, q as int, q4 as int);
        lemma_span_split(tokens@, q as int, q2 as int, q4 as int);
        lemma_span_split(tokens@, q2 as int, q3 as int, q4 as int);
        assert(seq![TokenView::Identifier(name@)] + opt_type_leaves(type_annotation) + expr_leaves(value)
            =~= span_leaves(tokens@, pos as int, q4 as int));
    }
    Ok(((name, type_annotation, value), q4))
}

/// `if (condition) { ... } [else { ... } | else if ...]`
fn parse_if(tokens: &Vec<Token>, pos: usize) -> (r: Result<(Stmt, usize), ParseError>)
    requires
        ends_with_eof(tokens@),
        pos < tokens.len(),
    ensures
        advanced(r, tokens@, pos as int),
        stmt_keeps_leaves(r, tokens@, pos as int),
    decreases tokens@.len() - pos, 22int,
{
    let p1 = expect(tokens, pos, Token::If, "'if'")?;
    let p2 = expect(tokens, p1, Token::LeftParen, "'('")?;
    let (condition, p3) = parse_expression(tokens, p2)?;
    let p4 = expect(tokens, p3, Token::RightParen, "')'")?;
    let (then, p5) = parse_block(tokens, p4)?;
    proof {
        lemma_span_split(tokens@, pos as int, p2 as int, p5 as int);
        lemma_span_split(tokens@, pos as int, p1 as int, p2 as int);
        lemma_span_split(tokens@, p2 as int, p3 as int, p5 as int);
        lemma_span_split(tokens@, p3 as int, p4 as int, p5 as int);
    }
    if at(tokens, p5, Token::Else) {
        proof {
            lemma_span_one(tokens@, p5 as int);
        }
        if at(tokens, p5 + 1, Token::If) {
            let (nested, q) = parse_if(tokens, p5 + 1)?;
            let mut else_body: Vec<Stmt> = Vec::new();
            else_body.push(nested);
            proof {
                assert(else_body@.drop_last() =~= Seq::<Stmt>::empty());
                assert(stmts_leaves(else_body@.drop_last()) == Seq::<TokenView>::empty());
                assert(stmts_leaves(else_body@) =~= stmt_leaves(else_body@[0]));
                lemma_span_split(tokens@, pos as int, p5 as int, q as int);
                lemma_span_split(tokens@, p5 as int, p5 + 1, q as int);
            }
            let r = Stmt::If { condition, then, else_: Some(else_body) };
            proof {
                assert(stmt_leaves(r) =~= span_leaves(tokens@, pos as int, q as int));
            }
            return Ok((r, q));
        }
        let (else_body, q) = parse_block(tokens, p5 + 1)?;
        proof {
            lemma_span_split(tokens@, pos as int, p5 as int, q as int);
            lemma_span_split(tokens@, p5 as int, p5 + 1, q as int);
        }
        let r = Stmt::If { condition, then, else_: Some(else_body) };
        proof {
            assert(stmt_leaves(r) =~= span_leaves(tokens@, pos as int, q as int));
        }
        return Ok((r, q));
    }
    let r = Stmt::If { condition, then, else_: None };
    proof {
        assert(stmt_leaves(r) =~= span_leaves(tokens@, pos as int, p5 as int));
    }
    Ok((r, p5))
}

/// `break [label];` or `continue [label];`, after the keyword.
fn parse_label(tokens: &Vec<Token>, pos: usize) -> (r: Result<(Option<String>, usize), ParseError>)
    requires
        ends_with_eof(tokens@),
        pos < tokens.len(),
    ensures
        advanced(r, tokens@, pos as int),
        r matches Ok((l, p)) ==> label_leaves(l) == span_leaves(tokens@, pos as int, p as int),
{
    match &tokens[pos] {
        Token::Identifier(name) => {
            let p = expect(tokens, pos + 1, Token::Semicolon, "';'")?;
            proof {
                lemma_span_extend(tokens@, pos as int, pos + 1);
                lemma_span_one(tokens@, pos as int);
            }
            Ok((Some(name.clone()), p))
        },
        _ => {
            let p = expect(tokens, pos, Token::Semicolon, "';'")?;
            Ok((None, p))
        },
    }
}

/// `switch (e) { case v: { ... } ... [default: { ... }] }`: the default,
/// when there is one, is the last clause.
fn parse_switch(tokens: &Vec<Token>, pos: usize) -> (r: Result<(Stmt, usize), ParseError>)
    requires
        ends_with_eof(tokens@),
        pos < tokens.len(),
    ensures
        advanced(r, tokens@, pos as int),
        stmt_keeps_leaves(r, tokens@, pos as int),
    decreases tokens@.len() - pos, 22int,
{
    let p1 = expect(tokens, pos, Token::Switch, "'switch'")?;
    let p2 = expect(tokens, p1, Token::LeftParen, "'('")?;
    let (expression, p3) = parse_expression(tokens, p2)?;
    let p4 = expect(tokens, p3, Token::RightParen, "')'")?;
    let start = expect(tokens, p4, Token::LeftBrace, "'{'")?;
    let mut p = start;
    let mut cases: Vec<SwitchCase> = Vec::new();
    proof {
        lemma_span_empty(tokens@, start as int);
    }
    while !at(tokens, p, Token::RightBrace) && !at(tokens, p, Token::Default)
        invariant
            ends_with_eof(tokens@),
            pos < start <= p < tokens.len(),
            cases_leaves(cases@) == span_leaves(tokens@, start as int, p as int),
        decreases tokens@.len() - p,
    {
        let q = expect(tokens, p, Token::Case, "'case'")?;
        let (value, q2) = parse_expression(tokens, q)?;
        let q3 = expect(tokens, q2, Token::Colon, "':'")?;
        let (body, q4) = parse_block(tokens, q3)?;
        let ghost before = cases@;
        cases.push(SwitchCase { value, body });
        proof {
            assert(cases@.drop_last() =~= before);
            lemma_span_split(tokens@, start as int, p as int, q4 as int);
            lemma_span_split(tokens@, p as int, q as int, q4 as int);
            lemma_span_split(tokens@, q as int, q2 as int, q4 as int);
            lemma_span_split(tokens@, q2 as int, q3 as int, q4 as int);
            assert(cases_leaves(cases@) =~= span_leaves(tokens@, start as int, q4 as int));
        }
        p = q4;
    }
    let mut default: Option<Vec<Stmt>> = None;
    let mut q = p;
    proof {
        lemma_span_empty(tokens@, p as int);
    }
    if at(tokens, p, Token::Default) {
        let q1 = expect(tokens, p + 1, Token::Colon, "':'")?;
        let (body, q2) = parse_block(tokens, q1)?;
        proof {
            lemma_span_split(tokens@, p as int, q1 as int, q2 as int);
            lemma_span_extend(tokens@, p as int, p + 1);
            lemma_span_one(tokens@, p as int);
        }
        default = Some(body);
        q = q2;
    }
    let end = expect(tokens, q, Token::RightBrace, "'}'")?;
    let r = Stmt::Switch { expression, cases, default };
    proof {
        lemma_span_split(tokens@, pos as int, p2 as int, end as int);
        lemma_span_split(tokens@, pos as int, p1 as int, p2 as int);
        lemma_span_split(tokens@, p2 as int, p3 as int, end as int);
        lemma_span_split(tokens@, p3 as int, p4 as int, end as int);
        lemma_span_split(tokens@, p4 as int, start as int, end as int);
        lemma_span_split(tokens@, start as int, p as int, end as int);
        lemma_span_split(tokens@, p as int, q as int, end as int);
        assert(stmt_leaves(r) =~= span_leaves(tokens@, pos as int, end as int));
    }
    Ok((r, end))
}

/// `try { ... } [catch (e) { ... }] [finally { ... }]`
fn parse_try(tokens: &Vec<Token>, pos: usize) -> (r: Result<(Stmt, usize), ParseError>)
    requires
        ends_with_eof(tokens@),
        pos < tokens.len(),
    ensures
        advanced(r, tokens@, pos as int),
        stmt_keeps_leaves(r, tokens@, pos as int),
    decreases tokens@.len() - pos, 22int,
{
    let p1 = expect(tokens, pos, Token::Try, "'try'")?;
    let (body, p2) = parse_block(tokens, p1)?;
    let mut catch: Option<CatchBlock> = None;
    let mut p3 = p2;
    proof {
        lemma_span_split(tokens@, pos as int, p1 as int, p2 as int);
        lemma_span_empty(tokens@, p2 as int);
    }
    if at(tokens, p2, Token::Catch) {
        let q = expect(tokens, p2 + 1, Token::LeftParen, "'('")?;
        let (error_var, q1) = expect_identifier(tokens, q)?;
        let q2 = expect(tokens, q1, Token::RightParen, "')'")?;
        let (catch_body, q3) = parse_block(tokens, q2)?;
        proof {
            lemma_span_extend(tokens@, p2 as int, p2 + 1);
            lemma_span_one(tokens@, p2 as int);
            lemma_span_empty(tokens@, p2 as int);
            lemma_span_split(tokens@, p2 as int, q as int, q3 as int);
            lemma_span_split(tokens@, q as int, q1 as int, q3 as int);
            lemma_span_split(tokens@, q1 as int, q2 as int, q3 as int);
        }
        catch = Some(CatchBlock { error_var, body: catch_body });
        p3 = q3;
    }
    proof {
        assert(match catch {
            Some(c) => seq![TokenView::Identifier(c.error_var@)] + stmts_leaves(c.body@),
            None => Seq::<TokenView>::empty(),
        } =~= span_leaves(tokens@, p2 as int, p3 as int));
    }
    let mut finally: Option<Vec<Stmt>> = None;
    let mut p4 = p3;
    proof {
        lemma_span_empty(tokens@, p3 as int);
    }
    if at(tokens, p3, Token::Finally) {
        let (finally_body, q) = parse_block(tokens, p3 + 1)?;
        proof {
            lemma_span_split(tokens@, p3 as int, p3 + 1, q as int);
            lemma_span_one(tokens@, p3 as int);
        }
        finally = Some(finally_body);
        p4 = q;
    }
    let r = Stmt::Try { body, catch, finally };
    proof {
        lemma_span_split(tokens@, pos as int, p2 as int, p4 as int);
        lemma_span_split(tokens@, p2 as int, p3 as int, p4 as int);
        assert(stmt_leaves(r) =~= span_leaves(tokens@, pos as int, p4 as int));
    }
    Ok((r, p4))
}

/// One statement.
#[verifier::rlimit(80)]
pub fn parse_statement(tokens: &Vec<Token>, pos: usize) -> (r: Result<(Stmt, usize), ParseError>)
    requires
        ends_with_eof(tokens@),
        pos < tokens.len(),
    ensures
        advanced(r, tokens@, pos as int),
        stmt_keeps_leaves(r, tokens@, pos as int),
    decreases tokens@.len() - pos, 23int,
{
    proof {
        lemma_span_one(tokens@, pos as int);
    }
    match &tokens[pos] {
        Token::Dollar => {
            let p1 = expect(tokens, pos + 1, Token::Colon, "':'")?;
            let (name, p2) = expect_identifier(tokens, p1)?;
            let p3 = expect(tokens, p2, Token::Assign, "'='")?;
            let (expr, p4) = parse_expression(tokens, p3)?;
            let p5 = expect(tokens, p4, Token::Semicolon, "';'")?;
            proof {
                lemma_span_split(tokens@, pos as int, p1 as int, p5 as int);
                lemma_span_extend(tokens@, pos as int, pos + 1);
                lemma_span_empty(tokens@, pos as int);
                lemma_span_split(tokens@, p1 as int, p2 as int, p5 as int);
                lemma_span_split(tokens@, p2 as int, p3 as int, p5 as int);
                lemma_span_split(tokens@, p3 as int, p4 as int, p5 as int);
                assert(seq![TokenView::Identifier(name@)] + expr_leaves(expr) =~= span_leaves(
                    tokens@,
                    pos as int,
                    p5 as int,
                ));
            }
            Ok((Stmt::Reactive { name, expr }, p5))
        },
        Token::Let | Token::State | Token::Cell => {
            let is_let = at(tokens, pos, Token::Let);
            let ((name, type_annotation, value), p) = parse_binding(tokens, pos + 1)?;
            proof {
                lemma_span_split(tokens@, pos as int, pos + 1, p as int);
            }
            if is_let {
                Ok((Stmt::Let { name, value, type_annotation }, p))
            } else {
                Ok((Stmt::State { name, value, type_annotation }, p))
            }
        },
        Token::Return => {
            if at(tokens, pos + 1, Token::Semicolon) {
                proof {
                    lemma_span_extend(tokens@, pos as int, pos + 1);
                    lemma_span_one(tokens@, pos + 1);
                }
                return Ok((Stmt::Return(None), pos + 2));
            }
            let (value, p) = parse_expression(tokens, pos + 1)?;
            let q = expect(tokens, p, Token::Semicolon, "';'")?;
            proof {
                lemma_span_split(tokens@, pos as int, pos + 1, q as int);
                lemma_span_split(tokens@, pos + 1, p as int, q as int);
            }
            Ok((Stmt::Return(Some(value)), q))
        },
        Token::If => parse_if(tokens, pos),
        Token::While => {
            let p1 = expect(tokens, pos + 1, Token::LeftParen, "'('")?;
            let (condition, p2) = parse_expression(tokens, p1)?;
            let p3 = expect(tokens, p2, Token::RightParen, "')'")?;
            let (body, p4) = parse_block(tokens, p3)?;
            proof {
                lemma_span_split(tokens@, pos as int, p1 as int, p4 as int);
                lemma_span_extend(tokens@, pos as int, pos + 1);
                lemma_span_empty(tokens@, pos as int);
                lemma_span_split(tokens@, p1 as int, p2 as int, p4 as int);
                lemma_span_split(tokens@, p2 as int, p3 as int, p4 as int);
            }
            Ok((Stmt::While { condition, body }, p4))
        },
        Token::For => {
            let (variable, p1) = expect_identifier(tokens, pos + 1)?;
            let is_of = at(tokens, p1, Token::Of);
            let p2 = if is_of {
                p1 + 1
            } else {
                expect(tokens, p1, Token::In, "'in' or 'of'")?
            };
            proof {
                lemma_span_one(tokens@, p1 as int);
            }
            let (iterable, p3) = parse_expression(tokens, p2)?;
            let (body, p4) = parse_block(tokens, p3)?;
            proof {
                lemma_span_split(tokens@, pos as int, pos + 1, p4 as int);
                lemma_span_split(tokens@, pos + 1, p1 as int, p4 as int);
                lemma_span_split(tokens@, p1 as int, p2 as int, p4 as int);
                lemma_span_split(tokens@, p2 as int, p3 as int, p4 as int);
                assert(seq![TokenView::Identifier(variable@)] + expr_leaves(iterable) + stmts_leaves(body@)
                    =~= span_leaves(tokens@, pos as int, p4 as int));
            }
            if is_of {
                Ok((Stmt::ForOf { variable, iterable, body }, p4))
            } else {
                Ok((Stmt::ForIn { variable, iterable, body }, p4))
            }
        },
        Token::LeftBrace => {
            let (body, p) = parse_block(tokens, pos)?;
            Ok((Stmt::Block(body), p))
        },
        Token::Try => parse_try(tokens, pos),
        Token::Throw | Token::Break | Token::Continue => parse_jump(tokens, pos),
        Token::Switch => parse_switch(tokens, pos),
        Token::Identifier(name) => {
            if at(tokens, pos + 1, Token::Assign) {
                let (value, p) = parse_expression(tokens, pos + 2)?;
                let q = expect(tokens, p, Token::Semicolon, "';'")?;
                proof {
                    lemma_span_split(tokens@, pos as int, pos + 2, q as int);
                    lemma_span_extend(tokens@, pos as int, pos + 1);
                    lemma_span_one(tokens@, pos + 1);
                    lemma_span_split(tokens@, pos + 2, p as int, q as int);
                }
                return Ok((Stmt::Assign { target: name.clone(), value }, q));
            }
            parse_expression_statement(tokens, pos)
        },
        _ => parse_expression_statement(tokens, pos),
    }
}

/// `throw e;`, `break [label];` or `continue [label];`
fn parse_jump(tokens: &Vec<Token>, pos: usize) -> (r: Result<(Stmt, usize), ParseError>)
    requires
        ends_with_eof(tokens@),
        pos < tokens.len(),
    ensures
        advanced(r, tokens@, pos as int),
        stmt_keeps_leaves(r, tokens@, pos as int),
{
    proof {
        lemma_span_one(tokens@, pos as int);
    }
    if at(tokens, pos, Token::Throw) {
        let (value, p) = parse_expression(tokens, pos + 1)?;
        let q = expect(tokens, p, Token::Semicolon, "';'")?;
        proof {
            lemma_span_split(tokens@, pos as int, pos + 1, q as int);
            lemma_span_split(tokens@, pos + 1, p as int, q as int);
        }
        return Ok((Stmt::Throw(value), q));
    }
    let is_break = at(tokens, pos, Token::Break);
    if !is_break && !at(tokens, pos, Token::Continue) {
        return error(tokens, pos, "'break' or 'continue'");
    }
    let (label, p) = parse_label(tokens, pos + 1)?;
    proof {
        lemma_span_split(tokens@, pos as int, pos + 1, p as int);
    }
    if is_break {
        Ok((Stmt::Break(label), p))
    } else {
        Ok((Stmt::Continue(label), p))
    }
}

/// `expr;` (a list comprehension there is a comprehension statement).
fn parse_expression_statement(tokens: &Vec<Token>, pos: usize) -> (r: Result<(Stmt, usize), ParseError>)
    requires
        ends_with_eof(tokens@),
        pos < tokens.len(),
    ensures
        advanced(r, tokens@, pos as int),
        stmt_keeps_leaves(r, tokens@, pos as int),
    decreases tokens@.len() - pos, 22int,
{
    let (e, p) = parse_expression(tokens, pos)?;
    let q = expect(tokens, p, Token::Semicolon, "';'")?;
    proof {
        lemma_span_split(tokens@, pos as int, p as int, q as int);
    }
    match e {
        Expr::Comprehension { target, iter, filter, expr } => {
            let filter = match filter {
                Some(f) => Some(*f),
                None => None,
            };
            Ok((Stmt::Comprehension { target, iter: *iter, filter, expr: *expr }, q))
        },
        _ => Ok((Stmt::Expr(e), q)),
    }
}

/// Whether markup children end at `pos`: before `</`, `{:else`, `{/if`,
/// `{/for`, `}` or the end of input. The terminator is left for the caller.
fn at_markup_end(tokens: &Vec<Token>, pos: usize) -> (r: bool)
    requires
        ends_with_eof(tokens@),
        pos < tokens.len(),
    ensures
        !r ==> tokens@[pos as int] != Token::EOF,
{
    match &tokens[pos] {
        Token::LessThan => pos + 1 < tokens.len() && at(tokens, pos + 1, Token::Slash),
        Token::HashElse | Token::SlashIf | Token::SlashFor | Token::RightBrace | Token::EOF => true,
        _ => false,
    }
}

/// Markup nodes up to a terminator, which is not consumed.
pub fn parse_markup_children(tokens: &Vec<Token>, pos: usize) -> (r: Result<(Vec<MarkupNode>, usize), ParseError>)
    requires
        ends_with_eof(tokens@),
        pos < tokens.len(),
    ensures
        r matches Ok((nodes, p)) ==> pos <= p < tokens@.len() && markups_leaves(nodes@) == span_leaves(
            tokens@,
            pos as int,
            p as int,
        ),
    decreases tokens@.len() - pos, 6int,
{
    let mut nodes: Vec<MarkupNode> = Vec::new();
    let mut p = pos;
    proof {
        lemma_span_empty(tokens@, pos as int);
    }
    while !at_markup_end(tokens, p)
        invariant
            ends_with_eof(tokens@),
            pos <= p < tokens.len(),
            markups_leaves(nodes@) == span_leaves(tokens@, pos as int, p as int),
        decreases tokens@.len() - p,
    {
        let (node, q) = parse_markup_node(tokens, p)?;
        let ghost before = nodes@;
        nodes.push(node);
        proof {
            assert(nodes@.drop_last() =~= before);
            lemma_span_split(tokens@, pos as int, p as int, q as int);
        }
        p = q;
    }
    Ok((nodes, p))
}

/// `name[="value" | ={expr}]`: an attribute; a bare name is `true`.
fn parse_attribute(tokens: &Vec<Token>, pos: usize) -> (r: Result<(Attribute, usize), ParseError>)
    requires
        ends_with_eof(tokens@),
        pos < tokens.len(),
    ensures
        advanced(r, tokens@, pos as int),
        r matches Ok((a, p)) ==> attr_leaves(a) == span_leaves(tokens@, pos as int, p as int),
{
    let (name, p) = expect_identifier(tokens, pos)?;
    if !at(tokens, p, Token::Assign) {
        return Ok((Attribute { name, value: Expr::BooleanLiteral(true), bare: true }, p));
    }
    let p1 = p + 1;
    proof {
        lemma_span_one(tokens@, p as int);
        lemma_span_one(tokens@, p1 as int);
        lemma_span_split(tokens@, pos as int, p as int, p1 as int);
    }
    match &tokens[p1] {
        Token::StringLiteral(v) => {
            let a = Attribute { name, value: Expr::StringLiteral(v.clone()), bare: false };
            proof {
                lemma_span_split(tokens@, pos as int, p1 as int, p1 + 1);
                assert(attr_leaves(a) =~= span_leaves(tokens@, pos as int, p1 + 1));
            }
            Ok((a, p1 + 1))
        },
        _ => {
            let q = expect(tokens, p1, Token::LeftBrace, "attribute value")?;
            let (value, q1) = parse_expression(tokens, q)?;
            let q2 = expect(tokens, q1, Token::RightBrace, "'}'")?;
            let a = Attribute { name, value, bare: false };
            proof {
                lemma_span_split(tokens@, pos as int, p1 as int, q2 as int);
                lemma_span_split(tokens@, p1 as int, q as int, q2 as int);
                lemma_span_split(tokens@, q as int, q1 as int, q2 as int);
                assert(attr_leaves(a) =~= span_leaves(tokens@, pos as int, q2 as int));
            }
            Ok((a, q2))
        },
    }
}

/// `<tag attrs/>`, or `<tag attrs>children</tag>` where the closing tag
/// names the opening one.
fn parse_element(tokens: &Vec<Token>, pos: usize) -> (r: Result<(MarkupNode, usize), ParseError>)
    requires
        ends_with_eof(tokens@),
        pos < tokens.len(),
    ensures
        advanced(r, tokens@, pos as int),
        r matches Ok((n, p)) ==> markup_leaves(n) == span_leaves(tokens@, pos as int, p as int),
    decreases tokens@.len() - pos, 4int,
{
    let p0 = expect(tokens, pos, Token::LessThan, "'<'")?;
    let (tag, p1) = expect_identifier(tokens, p0)?;
    let mut attributes: Vec<Attribute> = Vec::new();
    let mut p = p1;
    proof {
        lemma_span_empty(tokens@, p1 as int);
    }
    while !at(tokens, p, Token::GreaterThan) && !at(tokens, p, Token::Slash)
        invariant
            ends_with_eof(tokens@),
            pos < p1 <= p < tokens.len(),
            attrs_leaves(attributes@) == span_leaves(tokens@, p1 as int, p as int),
        decreases tokens@.len() - p,
    {
        let (attribute, q) = parse_attribute(tokens, p)?;
        let ghost before = attributes@;
        attributes.push(attribute);
        proof {
            assert(attributes@.drop_last() =~= before);
            lemma_span_split(tokens@, p1 as int, p as int, q as int);
        }
        p = q;
    }
    proof {
        lemma_span_split(tokens@, pos as int, p0 as int, p1 as int);
        lemma_span_split(tokens@, pos as int, p1 as int, p as int);
        lemma_span_one(tokens@, p as int);
        assert(tokens@[p as int] != Token::EOF);
    }
    if at(tokens, p, Token::Slash) {
        let end = expect(tokens, p + 1, Token::GreaterThan, "'>'")?;
        let n = MarkupNode::Element { tag, attributes, children: Vec::new(), self_closing: true };
        proof {
            lemma_span_split(tokens@, pos as int, p as int, end as int);
            lemma_span_split(tokens@, p as int, p + 1, end as int);
            assert(markup_leaves(n) =~= span_leaves(tokens@, pos as int, end as int));
        }
        return Ok((n, end));
    }
    let (children, c) = parse_markup_children(tokens, p + 1)?;
    let c1 = expect(tokens, c, Token::LessThan, "'</'")?;
    let c2 = expect(tokens, c1, Token::Slash, "'/'")?;
    let (closing, c3) = expect_identifier(tokens, c2)?;
    if !(closing == tag) {
        return error(tokens, c2, "the closing tag of the element");
    }
    let end = expect(tokens, c3, Token::GreaterThan, "'>'")?;
    let n = MarkupNode::Element { tag, attributes, children, self_closing: false };
    proof {
        lemma_span_split(tokens@, pos as int, p as int, end as int);
        lemma_span_split(tokens@, p as int, p + 1, end as int);
        lemma_span_split(tokens@, p + 1, c as int, end as int);
        lemma_span_split(tokens@, c as int, c1 as int, end as int);
        lemma_span_split(tokens@, c1 as int, c2 as int, end as int);
        lemma_span_split(tokens@, c2 as int, c3 as int, end as int);
        assert(markup_leaves(n) =~= span_leaves(tokens@, pos as int, end as int));
    }
    Ok((n, end))
}

/// One markup node: an element, a text (a string, an identifier or
/// `{expr}`), an if-block or a for-block.
#[verifier::rlimit(100)]
pub fn parse_markup_node(tokens: &Vec<Token>, pos: usize) -> (r: Result<(MarkupNode, usize), ParseError>)
    requires
        ends_with_eof(tokens@),
        pos < tokens.len(),
    ensures
        advanced(r, tokens@, pos as int),
        r matches Ok((n, p)) ==> markup_leaves(n) == span_leaves(tokens@, pos as int, p as int),
    decreases tokens@.len() - pos, 5int,
{
    proof {
        lemma_span_one(tokens@, pos as int);
    }
    match &tokens[pos] {
        Token::StringLiteral(v) => Ok((MarkupNode::Text(Expr::StringLiteral(v.clone())), pos + 1)),
        Token::Identifier(name) => Ok((MarkupNode::Text(Expr::Identifier(name.clone())), pos + 1)),
        Token::LeftBrace => {
            let (e, p) = parse_expression(tokens, pos + 1)?;
            let q = expect(tokens, p, Token::RightBrace, "'}'")?;
            proof {
                lemma_span_split(tokens@, pos as int, pos + 1, q as int);
                lemma_span_split(tokens@, pos + 1, p as int, q as int);
            }
            Ok((MarkupNode::Text(e), q))
        },
        Token::HashIf => {
            let (condition, p1) = parse_expression(tokens, pos + 1)?;
            let p2 = expect(tokens, p1, Token::RightBrace, "'}'")?;
            let (then_branch, p3) = parse_markup_children(tokens, p2)?;
            let mut else_branch: Option<Vec<MarkupNode>> = None;
            let mut p4 = p3;
            proof {
                lemma_span_empty(tokens@, p3 as int);
            }
            if at(tokens, p3, Token::HashElse) {
                let q = expect(tokens, p3 + 1, Token::RightBrace, "'}'")?;
                let (nodes, q1) = parse_markup_children(tokens, q)?;
                proof {
                    lemma_span_split(tokens@, p3 as int, q as int, q1 as int);
                    lemma_span_extend(tokens@, p3 as int, p3 + 1);
                    lemma_span_one(tokens@, p3 as int);
                    lemma_span_empty(tokens@, p3 as int);
                }
                else_branch = Some(nodes);
                p4 = q1;
            }
            let p5 = expect(tokens, p4, Token::SlashIf, "'{/if'")?;
            let p6 = expect(tokens, p5, Token::RightBrace, "'}'")?;
            let n = MarkupNode::IfBlock { condition, then_branch, else_branch };
            proof {
                lemma_span_split(tokens@, pos as int, pos + 1, p6 as int);
                lemma_span_split(tokens@, pos + 1, p1 as int, p6 as int);
                lemma_span_split(tokens@, p1 as int, p2 as int, p6 as int);
                lemma_span_split(tokens@, p2 as int, p3 as int, p6 as int);
                lemma_span_split(tokens@, p3 as int, p4 as int, p6 as int);
                lemma_span_split(tokens@, p4 as int, p5 as int, p6 as int);
                assert(markup_leaves(n) =~= span_leaves(tokens@, pos as int, p6 as int));
            }
            Ok((n, p6))
        },
        Token::HashFor => {
            let (iterator, p1) = expect_identifier(tokens, pos + 1)?;
            let p2 = expect(tokens, p1, Token::In, "'in'")?;
            let (iterable, p3) = parse_expression(tokens, p2)?;
            let p4 = expect(tokens, p3, Token::RightBrace, "'}'")?;
            let (body, p5) = parse_markup_children(tokens, p4)?;
            let p6 = expect(tokens, p5, Token::SlashFor, "'{/for'")?;
            let p7 = expect(tokens, p6, Token::RightBrace, "'}'")?;
            let n = MarkupNode::ForLoop { iterator, iterable, body };
            proof {
                lemma_span_split(tokens@, pos as int, pos + 1, p7 as int);
                lemma_span_split(tokens@, pos + 1, p1 as int, p7 as int);
                lemma_span_split(tokens@, p1 as int, p2 as int, p7 as int);
                lemma_span_split(tokens@, p2 as int, p3 as int, p7 as int);
                lemma_span_split(tokens@, p3 as int, p4 as int, p7 as int);
                lemma_span_split(tokens@, p4 as int, p5 as int, p7 as int);
                lemma_span_split(tokens@, p5 as int, p6 as int, p7 as int);
                assert(markup_leaves(n) =~= span_leaves(tokens@, pos as int, p7 as int));
            }
            Ok((n, p7))
        },
        Token::LessThan => parse_element(tokens, pos),
        _ => error(tokens, pos, "markup"),
    }
}

/// `[&[mut]] name [: type] [= default]`
#[verifier::rlimit(80)]
pub fn parse_parameter(tokens: &Vec<Token>, pos: usize) -> (r: Result<(Parameter, usize), ParseError>)
    requires
        ends_with_eof(tokens@),
        pos < tokens.len(),
    ensures
        advanced(r, tokens@, pos as int),
        r matches Ok((param, p)) ==> param_leaves(param) == span_leaves(tokens@, pos as int, p as int),
{
    let mut is_ref = false;
    let mut is_mut_ref = false;
    let mut p = pos;
    proof {
        lemma_span_empty(tokens@, pos as int);
    }
    if at(tokens, p, Token::Ampersand) {
        proof {
            lemma_span_extend(tokens@, pos as int, pos as int);
        }
        p = p + 1;
        if at(tokens, p, Token::Mut) {
            proof {
                lemma_span_extend(tokens@, pos as int, p as int);
            }
            is_mut_ref = true;
            p = p + 1;
        } else {
            is_ref = true;
        }
    }
    let (name, p1) = expect_identifier(tokens, p)?;
    let mut type_annotation: Option<Type> = None;
    let mut p2 = p1;
    proof {
        lemma_span_empty(tokens@, p1 as int);
    }
    if at(tokens, p1, Token::Colon) {
        let (t, q) = parse_type(tokens, p1 + 1)?;
        proof {
            lemma_span_split(tokens@, p1 as int, p1 + 1, q as int);
            lemma_span_one(tokens@, p1 as int);
        }
        type_annotation = Some(t);
        p2 = q;
    }
    let mut default_value: Option<Expr> = None;
    let mut p3 = p2;
    proof {
        lemma_span_empty(tokens@, p2 as int);
    }
    if at(tokens, p2, Token::Assign) {
        let (e, q) = parse_expression(tokens, p2 + 1)?;
        proof {
            lemma_span_split(tokens@, p2 as int, p2 + 1, q as int);
            lemma_span_one(tokens@, p2 as int);
        }
        default_value = Some(e);
        p3 = q;
    }
    let param = Parameter { name, type_annotation, default_value, is_ref, is_mut_ref };
    proof {
        lemma_span_split(tokens@, pos as int, p as int, p3 as int);
        lemma_span_split(tokens@, p as int, p1 as int, p3 as int);
        lemma_span_split(tokens@, p1 as int, p2 as int, p3 as int);
        assert(param_leaves(param) =~= span_leaves(tokens@, pos as int, p3 as int));
    }
    Ok((param, p3))
}

/// `( parameters )`
fn parse_parameters(tokens: &Vec<Token>, pos: usize) -> (r: Result<(Vec<Parameter>, usize), ParseError>)
    requires
        ends_with_eof(tokens@),
        pos < tokens.len(),
    ensures
        advanced(r, tokens@, pos as int),
        r matches Ok((params, p)) ==> params_leaves(params@) == span_leaves(tokens@, pos as int, p as int),
{
    let start = expect(tokens, pos, Token::LeftParen, "'('")?;
    let mut p = start;
    let mut params: Vec<Parameter> = Vec::new();
    proof {
        lemma_span_empty(tokens@, start as int);
    }
    while !at(tokens, p, Token::RightParen)
        invariant
            ends_with_eof(tokens@),
            pos < start <= p < tokens.len(),
            start == pos + 1,
            params_leaves(params@) == span_leaves(tokens@, start as int, p as int),
        decreases tokens@.len() - p,
    {
        let (param, q) = parse_parameter(tokens, p)?;
        let ghost before = params@;
        params.push(param);
        proof {
            assert(params@.drop_last() =~= before);
            lemma_span_split(tokens@, start as int, p as int, q as int);
        }
        if at(tokens, q, Token::Comma) {
            proof {
                lemma_span_extend(tokens@, start as int, q as int);
            }
            p = q + 1;
        } else {
            p = q;
        }
    }
    proof {
        assert(tokens@[p as int] != Token::EOF);
        lemma_span_extend(tokens@, start as int, p as int);
        lemma_span_split(tokens@, pos as int, start as int, p + 1);
    }
    Ok((params, p + 1))
}

/// `[async] fn name(params) [: type | -> type] { body }`
#[verifier::rlimit(80)]
pub fn parse_function(tokens: &Vec<Token>, pos: usize) -> (r: Result<(Function, usize), ParseError>)
    requires
        ends_with_eof(tokens@),
        pos < tokens.len(),
    ensures
        advanced(r, tokens@, pos as int),
        r matches Ok((f, p)) ==> function_leaves(f) == span_leaves(tokens@, pos as int, p as int),
{
    let is_async = at(tokens, pos, Token::Async);
    let p0 = if is_async { pos + 1 } else { pos };
    proof {
        lemma_span_empty(tokens@, pos as int);
        lemma_span_extend(tokens@, pos as int, pos as int);
    }
    let p1 = expect(tokens, p0, Token::Fn, "'fn'")?;
    let (name, p2) = expect_identifier(tokens, p1)?;
    let (params, p3) = parse_parameters(tokens, p2)?;
    let mut return_type: Option<Type> = None;
    let mut p4 = p3;
    proof {
        lemma_span_empty(tokens@, p3 as int);
    }
    if at(tokens, p3, Token::Colon) || at(tokens, p3, Token::Arrow) {
        let (t, q) = parse_type(tokens, p3 + 1)?;
        proof {
            lemma_span_split(tokens@, p3 as int, p3 + 1, q as int);
            lemma_span_one(tokens@, p3 as int);
        }
        return_type = Some(t);
        p4 = q;
    }
    let (body, p5) = parse_block(tokens, p4)?;
    let f = Function { name, params, return_type, body, is_public: true, is_async };
    proof {
        lemma_span_split(tokens@, pos as int, p0 as int, p5 as int);
        lemma_span_split(tokens@, p0 as int, p1 as int, p5 as int);
        lemma_span_split(tokens@, p1 as int, p2 as int, p5 as int);
        lemma_span_split(tokens@, p2 as int, p3 as int, p5 as int);
        lemma_span_split(tokens@, p3 as int, p4 as int, p5 as int);
        assert(function_leaves(f) =~= span_leaves(tokens@, pos as int, p5 as int));
    }
    Ok((f, p5))
}

/// `name [: type] [= value];` inside a class.
fn parse_field(tokens: &Vec<Token>, pos: usize) -> (r: Result<(Field, usize), ParseError>)
    requires
        ends_with_eof(tokens@),
        pos < tokens.len(),
    ensures
        advanced(r, tokens@, pos as int),
{
    let (name, p) = expect_identifier(tokens, pos)?;
    let mut type_annotation: Option<Type> = None;
    let mut p = p;
    if at(tokens, p, Token::Colon) {
        let (t, q) = parse_type(tokens, p + 1)?;
        type_annotation = Some(t);
        p = q;
    }
    let mut initial_value: Option<Expr> = None;
    if at(tokens, p, Token::Assign) {
        let (e, q) = parse_expression(tokens, p + 1)?;
        initial_value = Some(e);
        p = q;
    }
    let p = expect(tokens, p, Token::Semicolon, "';'")?;
    Ok((Field { name, type_annotation, initial_value }, p))
}

/// `class Name { fields, methods, constructor }`
pub fn parse_class(tokens: &Vec<Token>, pos: usize) -> (r: Result<(Class, usize), ParseError>)
    requires
        ends_with_eof(tokens@),
        pos < tokens.len(),
    ensures
        advanced(r, tokens@, pos as int),
{
    let p = expect(tokens, pos, Token::Class, "'class'")?;
    let (name, p) = expect_identifier(tokens, p)?;
    let mut p = expect(tokens, p, Token::LeftBrace, "'{'")?;
    let mut fields: Vec<Field> = Vec::new();
    let mut methods: Vec<Function> = Vec::new();
    let mut constructor: Option<Constructor> = None;
    while !at(tokens, p, Token::RightBrace)
        invariant
            ends_with_eof(tokens@),
            pos < p < tokens.len(),
        decreases tokens@.len() - p,
    {
        if at(tokens, p, Token::Constructor) {
            let (params, q) = parse_parameters(tokens, p + 1)?;
            let (body, q) = parse_block(tokens, q)?;
            constructor = Some(Constructor { params, body });
            p = q;
        } else if at(tokens, p, Token::Fn) || at(tokens, p, Token::Async) {
            let (method, q) = parse_function(tokens, p)?;
            methods.push(method);
            p = q;
        } else {
            let (field, q) = parse_field(tokens, p)?;
            fields.push(field);
            p = q;
        }
    }
    proof {
        assert(tokens@[p as int] != Token::EOF);
    }
    Ok((Class { name, fields, methods, constructor }, p + 1))
}

/// `style { property: value; ... }`
fn parse_style(tokens: &Vec<Token>, pos: usize) -> (r: Result<(Vec<StyleProperty>, usize), ParseError>)
    requires
        ends_with_eof(tokens@),
        pos < tokens.len(),
    ensures
        advanced(r, tokens@, pos as int),
{
    let p = expect(tokens, pos, Token::Style, "'style'")?;
    let mut p = expect(tokens, p, Token::LeftBrace, "'{'")?;
    let mut style: Vec<StyleProperty> = Vec::new();
    while !at(tokens, p, Token::RightBrace)
        invariant
            ends_with_eof(tokens@),
            pos < p < tokens.len(),
        decreases tokens@.len() - p,
    {
        let (name, q) = expect_identifier(tokens, p)?;
        let q = expect(tokens, q, Token::Colon, "':'")?;
        let (value, q) = parse_expression(tokens, q)?;
        let q = expect(tokens, q, Token::Semicolon, "';'")?;
        style.push(StyleProperty { name, value });
        p = q;
    }
    proof {
        assert(tokens@[p as int] != Token::EOF);
    }
    Ok((style, p + 1))
}

/// `component Name { ... }` or `view Name { ... }`: state and derived
/// variables, inner functions, a style block and markup, in any order.
pub fn parse_component(tokens: &Vec<Token>, pos: usize) -> (r: Result<(Component, usize), ParseError>)
    requires
        ends_with_eof(tokens@),
        pos < tokens.len(),
    ensures
        advanced(r, tokens@, pos as int),
{
    let is_view = at(tokens, pos, Token::View);
    if !is_view && !at(tokens, pos, Token::Component) {
        return error(tokens, pos, "'component'");
    }
    let (name, p) = expect_identifier(tokens, pos + 1)?;
    let mut p = expect(tokens, p, Token::LeftBrace, "'{'")?;
    let mut component = Component {
        name,
        is_view,
        state_vars: Vec::new(),
        let_vars: Vec::new(),
        functions: Vec::new(),
        markup: Vec::new(),
        style: Vec::new(),
    };
    while !at(tokens, p, Token::RightBrace)
        invariant
            ends_with_eof(tokens@),
            pos < p < tokens.len(),
        decreases tokens@.len() - p,
    {
        match &tokens[p] {
            Token::State | Token::Cell => {
                let ((name, type_annotation, initial_value), q) = parse_binding(tokens, p + 1)?;
                component.state_vars.push(StateVar { name, type_annotation, initial_value });
                p = q;
            },
            Token::Let => {
                let ((name, type_annotation, value), q) = parse_binding(tokens, p + 1)?;
                component.let_vars.push(LetVar { name, type_annotation, value });
                p = q;
            },
            Token::Fn | Token::Async => {
                let (f, q) = parse_function(tokens, p)?;
                component.functions.push(f);
                p = q;
            },
            Token::Style => {
                let (mut style, q) = parse_style(tokens, p)?;
                component.style.append(&mut style);
                p = q;
            },
            Token::LessThan | Token::StringLiteral(_) | Token::LeftBrace | Token::HashIf
            | Token::HashFor => {
                let (node, q) = parse_markup_node(tokens, p)?;
                component.markup.push(node);
                p = q;
            },
            _ => {
                return error(tokens, p, "component member");
            },
        }
    }
    proof {
        assert(tokens@[p as int] != Token::EOF);
    }
    Ok((component, p + 1))
}

/// `import { a, b } from module [as alias];`
pub fn parse_import(tokens: &Vec<Token>, pos: usize) -> (r: Result<(Import, usize), ParseError>)
    requires
        ends_with_eof(tokens@),
        pos < tokens.len(),
    ensures
        advanced(r, tokens@, pos as int),
{
    let p = expect(tokens, pos, Token::Import, "'import'")?;
    let mut p = expect(tokens, p, Token::LeftBrace, "'{'")?;
    let mut items: Vec<String> = Vec::new();
    while !at(tokens, p, Token::RightBrace)
        invariant
            ends_with_eof(tokens@),
            pos < p < tokens.len(),
        decreases tokens@.len() - p,
    {
        let (item, q) = expect_identifier(tokens, p)?;
        items.push(item);
        p = if at(tokens, q, Token::Comma) { q + 1 } else { q };
    }
    proof {
        assert(tokens@[p as int] != Token::EOF);
    }
    let p = expect(tokens, p + 1, Token::From, "'from'")?;
    let (module, p) = match &tokens[p] {
        Token::StringLiteral(m) => (m.clone(), p + 1),
        _ => expect_identifier(tokens, p)?,
    };
    let mut alias: Option<String> = None;
    let mut p = p;
    if at(tokens, p, Token::As) {
        let (a, q) = expect_identifier(tokens, p + 1)?;
        alias = Some(a);
        p = q;
    }
    let p = expect(tokens, p, Token::Semicolon, "';'")?;
    Ok((Import { module, items, alias }, p))
}

/// `module name { functions, components, classes }`
pub fn parse_module(tokens: &Vec<Token>, pos: usize) -> (r: Result<(Module, usize), ParseError>)
    requires
        ends_with_eof(tokens@),
        pos < tokens.len(),
    ensures
        advanced(r, tokens@, pos as int),
{
    let p = expect(tokens, pos, Token::Module, "'module'")?;
    let (name, p) = expect_identifier(tokens, p)?;
    let mut p = expect(tokens, p, Token::LeftBrace, "'{'")?;
    let mut module = Module { name, functions: Vec::new(), components: Vec::new(), classes: Vec::new() };
    while !at(tokens, p, Token::RightBrace)
        invariant
            ends_with_eof(tokens@),
            pos < p < tokens.len(),
        decreases tokens@.len() - p,
    {
        match &tokens[p] {
            Token::Fn | Token::Async => {
                let (f, q) = parse_function(tokens, p)?;
                module.functions.push(f);
                p = q;
            },
            Token::Component | Token::View => {
                let (c, q) = parse_component(tokens, p)?;
                module.components.push(c);
                p = q;
            },
            Token::Class => {
                let (c, q) = parse_class(tokens, p)?;
                module.classes.push(c);
                p = q;
            },
            _ => {
                return error(tokens, p, "declaration in module");
            },
        }
    }
    proof {
        assert(tokens@[p as int] != Token::EOF);
    }
    Ok((module, p + 1))
}

/// Whether a token starts a top-level declaration.
pub open spec fn starts_declaration(t: Token) -> bool {
    t is Fn || t is Async || t is Component || t is View || t is Class || t is Module || t is Import
}

/// Whether a program holds no declaration.
pub open spec fn empty_program(ast: AST) -> bool {
    ast.functions@.len() == 0 && ast.components@.len() == 0 && ast.classes@.len() == 0
        && ast.modules@.len() == 0 && ast.imports@.len() == 0
}

/// A whole program: declarations up to `EOF`. Any other leading token is an
/// error.
pub fn parse_program(tokens: &Vec<Token>) -> (r: Result<AST, ParseError>)
    requires
        ends_with_eof(tokens@),
    ensures
        tokens@[0] == Token::EOF ==> (r matches Ok(ast) && empty_program(ast)),
        !starts_declaration(tokens@[0]) && tokens@[0] != Token::EOF ==> r is Err,
{
    let mut ast = AST {
        functions: Vec::new(),
        components: Vec::new(),
        classes: Vec::new(),
        modules: Vec::new(),
        imports: Vec::new(),
    };
    let mut p: usize = 0;
    while !at(tokens, p, Token::EOF)
        invariant
            ends_with_eof(tokens@),
            p < tokens.len(),
            p == 0 ==> empty_program(ast),
            p > 0 ==> starts_declaration(tokens@[0]),
        decreases tokens@.len() - p,
    {
        match &tokens[p] {
            Token::Fn | Token::Async => {
                let (f, q) = parse_function(tokens, p)?;
                ast.functions.push(f);
                p = q;
            },
            Token::Component | Token::View => {
                let (c, q) = parse_component(tokens, p)?;
                ast.components.push(c);
                p = q;
            },
            Token::Class => {
                let (c, q) = parse_class(tokens, p)?;
                ast.classes.push(c);
                p = q;
            },
            Token::Module => {
                let (m, q) = parse_module(tokens, p)?;
                ast.modules.push(m);
                p = q;
            },
            Token::Import => {
                let (i, q) = parse_import(tokens, p)?;
                ast.imports.push(i);
                p = q;
            },
            _ => {
                return error(tokens, p, "declaration");
            },
        }
    }
    Ok(ast)
}

/// A parser over a token sequence that ends with `EOF`.
pub struct Parser {
    tokens: Vec<Token>,
}

impl Parser {
    /// The tokens being parsed.
    pub closed spec fn tokens(&self) -> Seq<Token> {
        self.tokens@
    }

    /// A parser over `tokens`; an `EOF` is added when they do not end with one.
    pub fn new(tokens: Vec<Token>) -> (r: Parser)
        ensures
            ends_with_eof(r.tokens()),
            ends_with_eof(tokens@) ==> r.tokens() == tokens@,
            !ends_with_eof(tokens@) ==> r.tokens() == tokens@.push(Token::EOF),
    {
        let mut tokens = tokens;
        let n = tokens.len();
        if n == 0 || !(tokens[n - 1] == Token::EOF) {
            tokens.push(Token::EOF);
        }
        Parser { tokens }
    }

    /// Parses the whole token sequence: an input of only `EOF` is the empty
    /// program; a leading token that starts no declaration is an error.
    pub fn parse(&self) -> (r: Result<AST, ParseError>)
        requires
            ends_with_eof(self.tokens()),
        ensures
            self.tokens()[0] == Token::EOF ==> (r matches Ok(ast) && empty_program(ast)),
            !starts_declaration(self.tokens()[0]) && self.tokens()[0] != Token::EOF ==> r is Err,
    {
        parse_program(&self.tokens)
    }
}

} // verus!
