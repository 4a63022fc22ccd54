//! The expression grammar as spec functions over tokens, and the view of an
//! expression tree that they build. The parser is proved to build exactly
//! this view, and to fail exactly where the grammar has no parse.
//!
//! Precedence climbing: `||` (1) < `&&` (2) < `==`, `!=` (3) < relational
//! (4) < `+`, `-` (5) < `*`, `/`, `%` (6); operators of equal precedence
//! group to the left; unary `-` and `!` bind tighter than any binary
//! operator; the first token that is no operator ends the expression and is
//! not consumed.
use vstd::prelude::*;
use crate::ast::{BinaryOp, Expr, ObjectProperty, UnaryOp};
use crate::parser::{binary_op_of, precedence_of};
use crate::token::Token;

verus! {

/// An expression tree with its lists as sequences.
pub enum ExprV {
    StringLiteral(String),
    NumberLiteral(String),
    BooleanLiteral(bool),
    NullLiteral,
    UndefinedLiteral,
    ArrayLiteral(Seq<ExprV>),
    ObjectLiteral(Seq<PropV>),
    Identifier(String),
    BinaryOp { left: Box<ExprV>, op: BinaryOp, right: Box<ExprV> },
    UnaryOp { op: UnaryOp, operand: Box<ExprV> },
    Call { func: Box<ExprV>, args: Seq<ExprV> },
    MethodCall { object: Box<ExprV>, method: String, args: Seq<ExprV> },
    PropertyAccess { object: Box<ExprV>, property: String },
    ArrayAccess { array: Box<ExprV>, index: Box<ExprV> },
    New { class: String, args: Seq<ExprV> },
    Await(Box<ExprV>),
    Comprehension { target: String, iter: Box<ExprV>, filter: Option<Box<ExprV>>, expr: Box<ExprV> },
}

/// An object property of an expression view.
pub struct PropV {
    pub key: String,
    pub value: ExprV,
    pub shorthand: bool,
}

pub open spec fn expr_view(e: Expr) -> ExprV
    decreases e,
{
    match e {
        Expr::StringLiteral(s) => ExprV::StringLiteral(s),
        Expr::NumberLiteral(n) => ExprV::NumberLiteral(n),
        Expr::BooleanLiteral(b) => ExprV::BooleanLiteral(b),
        Expr::NullLiteral => ExprV::NullLiteral,
        Expr::UndefinedLiteral => ExprV::UndefinedLiteral,
        Expr::ArrayLiteral(items) => ExprV::ArrayLiteral(exprs_view(items@)),
        Expr::ObjectLiteral(props) => ExprV::ObjectLiteral(props_view(props@)),
        Expr::Identifier(n) => ExprV::Identifier(n),
        Expr::BinaryOp { left, op, right } => ExprV::BinaryOp {
            left: Box::new(expr_view(*left)),
            op,
            right: Box::new(expr_view(*right)),
        },
        Expr::UnaryOp { op, operand } => ExprV::UnaryOp { op, operand: Box::new(expr_view(*operand)) },
        Expr::Call { func, args } => ExprV::Call { func: Box::new(expr_view(*func)), args: exprs_view(args@) },
        Expr::MethodCall { object, method, args } => ExprV::MethodCall {
            object: Box::new(expr_view(*object)),
            method,
            args: exprs_view(args@),
        },
        Expr::PropertyAccess { object, property } => ExprV::PropertyAccess {
            object: Box::new(expr_view(*object)),
            property,
        },
        Expr::ArrayAccess { array, index } => ExprV::ArrayAccess {
            array: Box::new(expr_view(*array)),
            index: Box::new(expr_view(*index)),
        },
        Expr::New { class, args } => ExprV::New { class, args: exprs_view(args@) },
        Expr::Await(inner) => ExprV::Await(Box::new(expr_view(*inner))),
        Expr::Comprehension { target, iter, filter, expr } => ExprV::Comprehension {
            target,
            iter: Box::new(expr_view(*iter)),
            filter: match filter {
                Some(f) => Some(Box::new(expr_view(*f))),
                None => None,
            },
            expr: Box::new(expr_view(*expr)),
        },
    }
}

pub open spec fn exprs_view(es: Seq<Expr>) -> Seq<ExprV>
    decreases es,
{
    if es.len() == 0 {
        Seq::empty()
    } else {
        exprs_view(es.drop_last()).push(expr_view(es.last()))
    }
}

pub open spec fn props_view(ps: Seq<ObjectProperty>) -> Seq<PropV>
    decreases ps,
{
    if ps.len() == 0 {
        Seq::empty()
    } else {
        props_view(ps.drop_last()).push(
            PropV { key: ps.last().key, value: expr_view(ps.last().value), shorthand: ps.last().shorthand },
        )
    }
}

/// The token at `i`, or `EOF` outside the sequence.
pub open spec fn tok(ts: Seq<Token>, i: int) -> Token {
    if 0 <= i < ts.len() {
        ts[i]
    } else {
        Token::EOF
    }
}

/// Whether the token at `i` is `t`.
pub open spec fn at_tok(ts: Seq<Token>, i: int, t: Token) -> bool {
    0 <= i < ts.len() && ts[i]@ == t@
}

/// An expression from `pos`: the tree and the index after it, or no parse.
pub open spec fn expr_syntax(ts: Seq<Token>, pos: int) -> Result<(ExprV, int), ()>
    decreases ts.len() - pos, 20int,
{
    if pos < 0 || pos >= ts.len() {
        Err(())
    } else if at_tok(ts, pos, Token::Await) {
        match expr_syntax(ts, pos + 1) {
            Ok((e, p)) => Ok((ExprV::Await(Box::new(e)), p)),
            Err(_) => Err(()),
        }
    } else {
        binary_syntax(ts, pos, 1)
    }
}

/// A unary expression followed by operators of precedence at least `min`.
pub open spec fn binary_syntax(ts: Seq<Token>, pos: int, min: int) -> Result<(ExprV, int), ()>
    decreases ts.len() - pos, 19int,
{
    if pos < 0 || pos >= ts.len() {
        Err(())
    } else {
        match unary_syntax(ts, pos) {
            Ok((left, p)) => if pos < p < ts.len() {
                binary_rest(ts, left, p, min)
            } else {
                Err(())
            },
            Err(_) => Err(()),
        }
    }
}

/// After `left`, at `p`: an operator of precedence at least `min` takes a
/// right operand of strictly higher precedence and the result becomes the
/// new left operand; any other token ends the expression.
pub open spec fn binary_rest(ts: Seq<Token>, left: ExprV, p: int, min: int) -> Result<(ExprV, int), ()>
    decreases ts.len() - p, 18int,
{
    if p < 0 || p >= ts.len() {
        Err(())
    } else {
        let prec = precedence_of(ts[p]) as int;
        if prec == 0 || prec < min {
            Ok((left, p))
        } else {
            match binary_syntax(ts, p + 1, prec + 1) {
                Ok((right, q)) => if p < q < ts.len() {
                    binary_rest(
                        ts,
                        ExprV::BinaryOp { left: Box::new(left), op: binary_op_of(ts[p]), right: Box::new(right) },
                        q,
                        min,
                    )
                } else {
                    Err(())
                },
                Err(_) => Err(()),
            }
        }
    }
}

/// `-e`, `!e`, or a postfix expression.
pub open spec fn unary_syntax(ts: Seq<Token>, pos: int) -> Result<(ExprV, int), ()>
    decreases ts.len() - pos, 17int,
{
    if pos < 0 || pos >= ts.len() {
        Err(())
    } else if at_tok(ts, pos, Token::Minus) || at_tok(ts, pos, Token::Not) {
        match unary_syntax(ts, pos + 1) {
            Ok((operand, p)) => Ok((
                ExprV::UnaryOp {
                    op: if at_tok(ts, pos, Token::Minus) { UnaryOp::Minus } else { UnaryOp::Not },
                    operand: Box::new(operand),
                },
                p,
            )),
            Err(_) => Err(()),
        }
    } else {
        postfix_syntax(ts, pos)
    }
}

pub open spec fn postfix_syntax(ts: Seq<Token>, pos: int) -> Result<(ExprV, int), ()>
    decreases ts.len() - pos, 16int,
{
    if pos < 0 || pos >= ts.len() {
        Err(())
    } else {
        match primary_syntax(ts, pos) {
            Ok((e, p)) => if pos < p < ts.len() {
                postfix_rest(ts, e, p)
            } else {
                Err(())
            },
            Err(_) => Err(()),
        }
    }
}

/// After `e`, at `p`: a call (of a bare identifier), a method call, a
/// property access or an index access, repeatedly.
pub open spec fn postfix_rest(ts: Seq<Token>, e: ExprV, p: int) -> Result<(ExprV, int), ()>
    decreases ts.len() - p, 15int,
{
    if p < 0 || p >= ts.len() {
        Err(())
    } else if at_tok(ts, p, Token::LeftParen) && e is Identifier {
        match args_syntax(ts, p + 1) {
            Ok((args, q)) => if p < q < ts.len() {
                postfix_rest(ts, ExprV::Call { func: Box::new(e), args }, q)
            } else {
                Err(())
            },
            Err(_) => Err(()),
        }
    } else if at_tok(ts, p, Token::Dot) {
        match tok(ts, p + 1) {
            Token::Identifier(name) => if at_tok(ts, p + 2, Token::LeftParen) {
                match args_syntax(ts, p + 3) {
                    Ok((args, q)) => if p < q < ts.len() {
                        postfix_rest(ts, ExprV::MethodCall { object: Box::new(e), method: name, args }, q)
                    } else {
                        Err(())
                    },
                    Err(_) => Err(()),
                }
            } else {
                postfix_rest(ts, ExprV::PropertyAccess { object: Box::new(e), property: name }, p + 2)
            },
            _ => Err(()),
        }
    } else if at_tok(ts, p, Token::LeftBracket) {
        match expr_syntax(ts, p + 1) {
            Ok((index, q)) => if p < q && at_tok(ts, q, Token::RightBracket) {
                postfix_rest(ts, ExprV::ArrayAccess { array: Box::new(e), index: Box::new(index) }, q + 1)
            } else {
                Err(())
            },
            Err(_) => Err(()),
        }
    } else {
        Ok((e, p))
    }
}

/// Arguments from `pos` (just after `(`) through `)`.
pub open spec fn args_syntax(ts: Seq<Token>, pos: int) -> Result<(Seq<ExprV>, int), ()>
    decreases ts.len() - pos, 22int,
{
    args_rest(ts, pos, Seq::empty())
}

/// Arguments from `p` on, after `acc`; each may be followed by a comma.
pub open spec fn args_rest(ts: Seq<Token>, p: int, acc: Seq<ExprV>) -> Result<(Seq<ExprV>, int), ()>
    decreases ts.len() - p, 21int,
{
    if p < 0 || p >= ts.len() {
        Err(())
    } else if at_tok(ts, p, Token::RightParen) {
        Ok((acc, p + 1))
    } else {
        match expr_syntax(ts, p) {
            Ok((a, q)) => if p < q < ts.len() {
                args_rest(ts, if at_tok(ts, q, Token::Comma) { q + 1 } else { q }, acc.push(a))
            } else {
                Err(())
            },
            Err(_) => Err(()),
        }
    }
}

/// A literal, an identifier (`null` and `undefined` are literals), a
/// parenthesised expression, `new Class(args)`, an object literal, an array
/// literal or a list comprehension.
pub open spec fn primary_syntax(ts: Seq<Token>, pos: int) -> Result<(ExprV, int), ()>
    decreases ts.len() - pos, 14int,
{
    if pos < 0 || pos >= ts.len() {
        Err(())
    } else {
        match ts[pos] {
            Token::NumberLiteral(n) => Ok((ExprV::NumberLiteral(n), pos + 1)),
            Token::StringLiteral(v) => Ok((ExprV::StringLiteral(v), pos + 1)),
            Token::BooleanLiteral(b) => Ok((ExprV::BooleanLiteral(b), pos + 1)),
            Token::Identifier(name) => Ok((
                if name@ == "null"@ {
                    ExprV::NullLiteral
                } else if name@ == "undefined"@ {
                    ExprV::UndefinedLiteral
                } else {
                    ExprV::Identifier(name)
                },
                pos + 1,
            )),
            Token::LeftParen => match expr_syntax(ts, pos + 1) {
                Ok((e, p)) => if pos < p && at_tok(ts, p, Token::RightParen) {
                    Ok((e, p + 1))
                } else {
                    Err(())
                },
                Err(_) => Err(()),
            },
            Token::New => match tok(ts, pos + 1) {
                Token::Identifier(class) => if at_tok(ts, pos + 2, Token::LeftParen) {
                    match args_syntax(ts, pos + 3) {
                        Ok((args, q)) => Ok((ExprV::New { class, args }, q)),
                        Err(_) => Err(()),
                    }
                } else {
                    Err(())
                },
                _ => Err(()),
            },
            Token::LeftBrace => props_rest(ts, pos + 1, Seq::empty()),
            Token::LeftBracket => bracket_syntax(ts, pos),
            _ => Err(()),
        }
    }
}

/// From the `[` at `pos`: `[]`, an array literal or a list comprehension.
pub open spec fn bracket_syntax(ts: Seq<Token>, pos: int) -> Result<(ExprV, int), ()>
    decreases ts.len() - pos, 13int,
{
    if pos < 0 || pos >= ts.len() {
        Err(())
    } else if at_tok(ts, pos + 1, Token::RightBracket) {
        Ok((ExprV::ArrayLiteral(Seq::empty()), pos + 2))
    } else {
        match expr_syntax(ts, pos + 1) {
            Ok((first, p)) => if !(pos < p < ts.len()) {
                Err(())
            } else if at_tok(ts, p, Token::For) {
                comprehension_syntax(ts, first, p)
            } else {
                items_rest(ts, p, seq![first])
            },
            Err(_) => Err(()),
        }
    }
}

/// Object properties from `p` on, after `acc`, through `}`: `key: value` or
/// `key` alone, each maybe followed by a comma.
pub open spec fn props_rest(ts: Seq<Token>, p: int, acc: Seq<PropV>) -> Result<(ExprV, int), ()>
    decreases ts.len() - p, 13int,
{
    if p < 0 || p >= ts.len() {
        Err(())
    } else if at_tok(ts, p, Token::RightBrace) {
        Ok((ExprV::ObjectLiteral(acc), p + 1))
    } else {
        match ts[p] {
            Token::Identifier(key) => if at_tok(ts, p + 1, Token::Colon) {
                match expr_syntax(ts, p + 2) {
                    Ok((value, q)) => if p < q < ts.len() {
                        props_rest(
                            ts,
                            if at_tok(ts, q, Token::Comma) { q + 1 } else { q },
                            acc.push(PropV { key, value, shorthand: false }),
                        )
                    } else {
                        Err(())
                    },
                    Err(_) => Err(()),
                }
            } else {
                props_rest(
                    ts,
                    if at_tok(ts, p + 1, Token::Comma) { p + 2 } else { p + 1 },
                    acc.push(PropV { key, value: ExprV::Identifier(key), shorthand: true }),
                )
            },
            _ => Err(()),
        }
    }
}

/// `for target in iter [if filter] ]` after the element `first`, from the
/// `for` at `p`.
pub open spec fn comprehension_syntax(ts: Seq<Token>, first: ExprV, p: int) -> Result<(ExprV, int), ()>
    decreases ts.len() - p, 13int,
{
    match tok(ts, p + 1) {
        Token::Identifier(target) => if 0 <= p && at_tok(ts, p + 2, Token::In) {
            match expr_syntax(ts, p + 3) {
                Ok((iter, q)) => if !(p < q < ts.len()) {
                    Err(())
                } else if at_tok(ts, q, Token::If) {
                    match expr_syntax(ts, q + 1) {
                        Ok((f, r)) => if at_tok(ts, r, Token::RightBracket) {
                            Ok((
                                ExprV::Comprehension {
                                    target,
                                    iter: Box::new(iter),
                                    filter: Some(Box::new(f)),
                                    expr: Box::new(first),
                                },
                                r + 1,
                            ))
                        } else {
                            Err(())
                        },
                        Err(_) => Err(()),
                    }
                } else if at_tok(ts, q, Token::RightBracket) {
                    Ok((
                        ExprV::Comprehension { target, iter: Box::new(iter), filter: None, expr: Box::new(first) },
                        q + 1,
                    ))
                } else {
                    Err(())
                },
                Err(_) => Err(()),
            }
        } else {
            Err(())
        },
        _ => Err(()),
    }
}

/// Array items from `q` on, after `acc`: `, item` repeatedly, then `]`.
pub open spec fn items_rest(ts: Seq<Token>, q: int, acc: Seq<ExprV>) -> Result<(ExprV, int), ()>
    decreases ts.len() - q, 13int,
{
    if q < 0 || q >= ts.len() {
        Err(())
    } else if at_tok(ts, q, Token::Comma) {
        match expr_syntax(ts, q + 1) {
            Ok((item, r)) => if q < r < ts.len() {
                items_rest(ts, r, acc.push(item))
            } else {
                Err(())
            },
            Err(_) => Err(()),
        }
    } else if at_tok(ts, q, Token::RightBracket) {
        Ok((ExprV::ArrayLiteral(acc), q + 1))
    } else {
        Err(())
    }
}

} // verus!
