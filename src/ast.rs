//! The abstract syntax tree. Each node owns its children; nothing is
//! shared and nothing points back.
use vstd::prelude::*;

verus! {

/// A program: its declarations in source order, by kind.
#[derive(Debug)]
pub struct AST {
    pub functions: Vec<Function>,
    pub components: Vec<Component>,
    pub classes: Vec<Class>,
    pub modules: Vec<Module>,
    pub imports: Vec<Import>,
}

/// `module name { ... }`: a named group of declarations.
#[derive(Debug)]
pub struct Module {
    pub name: String,
    pub functions: Vec<Function>,
    pub components: Vec<Component>,
    pub classes: Vec<Class>,
}

/// `class Name { fields, methods, constructor }`.
#[derive(Debug)]
pub struct Class {
    pub name: String,
    pub fields: Vec<Field>,
    pub methods: Vec<Function>,
    pub constructor: Option<Constructor>,
}

/// A field of a class.
#[derive(Debug)]
pub struct Field {
    pub name: String,
    pub type_annotation: Option<Type>,
    pub initial_value: Option<Expr>,
}

/// The constructor of a class.
#[derive(Debug)]
pub struct Constructor {
    pub params: Vec<Parameter>,
    pub body: Vec<Stmt>,
}

/// A parameter: `name`, `&name` (by reference) or `&mut name` (by mutable
/// reference), with an optional type and default value.
#[derive(Debug)]
pub struct Parameter {
    pub name: String,
    pub type_annotation: Option<Type>,
    pub default_value: Option<Expr>,
    pub is_ref: bool,
    pub is_mut_ref: bool,
}

/// `import { a, b } from module as alias;`
#[derive(Debug)]
pub struct Import {
    pub module: String,
    pub items: Vec<String>,
    pub alias: Option<String>,
}

/// A function or a method.
#[derive(Debug)]
pub struct Function {
    pub name: String,
    pub params: Vec<Parameter>,
    pub return_type: Option<Type>,
    pub body: Vec<Stmt>,
    pub is_public: bool,
    pub is_async: bool,
}

/// A component (also written `view`): reactive state, derived values,
/// inner functions, markup and style.
#[derive(Debug)]
pub struct Component {
    pub name: String,
    pub is_view: bool,
    pub state_vars: Vec<StateVar>,
    pub let_vars: Vec<LetVar>,
    pub functions: Vec<Function>,
    pub markup: Vec<MarkupNode>,
    pub style: Vec<StyleProperty>,
}

/// `state name: type = value;` (also written `cell`).
#[derive(Debug)]
pub struct StateVar {
    pub name: String,
    pub type_annotation: Option<Type>,
    pub initial_value: Expr,
}

/// `let name: type = value;` inside a component: a derived value.
#[derive(Debug)]
pub struct LetVar {
    pub name: String,
    pub type_annotation: Option<Type>,
    pub value: Expr,
}

/// `property: value;` inside a `style { ... }` block.
#[derive(Debug)]
pub struct StyleProperty {
    pub name: String,
    pub value: Expr,
}

/// An attribute of a markup element.
#[derive(Debug)]
pub struct Attribute {
    pub name: String,
    pub value: Expr,
    /// Written as a bare name, which stands for `true`.
    pub bare: bool,
}

/// Markup inside a component.
#[derive(Debug)]
pub enum MarkupNode {
    /// `<tag attrs>children</tag>`, or `<tag attrs/>` when self-closing.
    Element { tag: String, attributes: Vec<Attribute>, children: Vec<MarkupNode>, self_closing: bool },
    Text(Expr),
    IfBlock { condition: Expr, then_branch: Vec<MarkupNode>, else_branch: Option<Vec<MarkupNode>> },
    ForLoop { iterator: String, iterable: Expr, body: Vec<MarkupNode> },
}

/// A statement.
#[derive(Debug)]
pub enum Stmt {
    Expr(Expr),
    Assign { target: String, value: Expr },
    If { condition: Expr, then: Vec<Stmt>, else_: Option<Vec<Stmt>> },
    While { condition: Expr, body: Vec<Stmt> },
    ForIn { variable: String, iterable: Expr, body: Vec<Stmt> },
    ForOf { variable: String, iterable: Expr, body: Vec<Stmt> },
    Return(Option<Expr>),
    Let { name: String, value: Expr, type_annotation: Option<Type> },
    State { name: String, value: Expr, type_annotation: Option<Type> },
    Block(Vec<Stmt>),
    Try { body: Vec<Stmt>, catch: Option<CatchBlock>, finally: Option<Vec<Stmt>> },
    Throw(Expr),
    Break(Option<String>),
    Continue(Option<String>),
    Switch { expression: Expr, cases: Vec<SwitchCase>, default: Option<Vec<Stmt>> },
    Reactive { name: String, expr: Expr },
    Comprehension { target: String, iter: Expr, filter: Option<Expr>, expr: Expr },
}

/// `catch (name) { ... }`
#[derive(Debug)]
pub struct CatchBlock {
    pub error_var: String,
    pub body: Vec<Stmt>,
}

/// `case value: { ... }`
#[derive(Debug)]
pub struct SwitchCase {
    pub value: Expr,
    pub body: Vec<Stmt>,
}

/// An expression. Number literals keep their source digits.
#[derive(Debug)]
pub enum Expr {
    StringLiteral(String),
    NumberLiteral(String),
    BooleanLiteral(bool),
    NullLiteral,
    UndefinedLiteral,
    ArrayLiteral(Vec<Expr>),
    ObjectLiteral(Vec<ObjectProperty>),
    Identifier(String),
    BinaryOp { left: Box<Expr>, op: BinaryOp, right: Box<Expr> },
    UnaryOp { op: UnaryOp, operand: Box<Expr> },
    Call { func: Box<Expr>, args: Vec<Expr> },
    MethodCall { object: Box<Expr>, method: String, args: Vec<Expr> },
    PropertyAccess { object: Box<Expr>, property: String },
    ArrayAccess { array: Box<Expr>, index: Box<Expr> },
    New { class: String, args: Vec<Expr> },
    Await(Box<Expr>),
    Comprehension { target: String, iter: Box<Expr>, filter: Option<Box<Expr>>, expr: Box<Expr> },
}

/// `key: value`, or `key` alone (shorthand for `key: key`).
#[derive(Debug)]
pub struct ObjectProperty {
    pub key: String,
    pub value: Expr,
    pub shorthand: bool,
}

/// Binary operators.
#[derive(Debug, Clone, Copy, PartialEq, Eq, Structural)]
pub enum BinaryOp {
    Add,
    Subtract,
    Multiply,
    Divide,
    Modulo,
    Equal,
    NotEqual,
    LessThan,
    LessThanEqual,
    GreaterThan,
    GreaterThanEqual,
    And,
    Or,
}

/// Unary operators.
#[derive(Debug, Clone, Copy, PartialEq, Eq, Structural)]
pub enum UnaryOp {
    Minus,
    Not,
}

/// Type annotations.
#[derive(Debug)]
pub enum Type {
    String,
    Number,
    Boolean,
    Void,
    Any,
    Array(Box<Type>),
    Object(Vec<ObjectTypeProperty>),
    Custom(String),
    Option(Box<Type>),
    Result(Box<Type>, Box<Type>),
    Ref(Box<Type>),
    MutRef(Box<Type>),
}

/// A property of an object type.
#[derive(Debug)]
pub struct ObjectTypeProperty {
    pub name: String,
    pub type_: Type,
    pub optional: bool,
}

} // verus!
