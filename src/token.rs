//! Tokens of the source language.
use vstd::prelude::*;

verus! {

/// A lexical token. Number literals keep their source digits.
#[derive(Debug, Clone)]
pub enum Token {
    // Keywords
    Fn,
    Async,
    Await,
    Component,
    View,
    State,
    Cell,
    Let,
    Mut,
    If,
    Else,
    Return,
    Try,
    Catch,
    Finally,
    Throw,
    Switch,
    Case,
    Default,
    For,
    In,
    Of,
    While,
    Break,
    Continue,
    Import,
    From,
    As,
    Class,
    Constructor,
    New,
    Style,
    Module,
    // Identifiers and literals
    Identifier(String),
    StringLiteral(String),
    NumberLiteral(String),
    BooleanLiteral(bool),
    // Operators
    Plus,
    Minus,
    Star,
    Slash,
    Percent,
    Assign,
    PlusAssign,
    MinusAssign,
    Equal,
    NotEqual,
    LessThan,
    LessThanEqual,
    GreaterThan,
    GreaterThanEqual,
    And,
    Or,
    Not,
    Ampersand,
    Arrow,
    Dollar,
    // Delimiters
    LeftParen,
    RightParen,
    LeftBrace,
    RightBrace,
    LeftBracket,
    RightBracket,
    Semicolon,
    Comma,
    Dot,
    Colon,
    // Markup blocks: `{#if`, `{#for`, `{:else`, `{/if`, `{/for`
    HashIf,
    HashFor,
    HashElse,
    SlashIf,
    SlashFor,
    // End of input
    EOF,
}

/// A token with its text as a sequence of characters.
pub enum TokenView {
    Identifier(Seq<char>),
    StringLiteral(Seq<char>),
    NumberLiteral(Seq<char>),
    /// A token without text (a keyword, operator, delimiter, boolean, end).
    Plain(Token),
}

impl View for Token {
    type V = TokenView;

    open spec fn view(&self) -> TokenView {
        match self {
            Token::Identifier(s) => TokenView::Identifier(s@),
            Token::StringLiteral(s) => TokenView::StringLiteral(s@),
            Token::NumberLiteral(s) => TokenView::NumberLiteral(s@),
            _ => TokenView::Plain(*self),
        }
    }
}

impl PartialEq for Token {
    fn eq(&self, other: &Token) -> (r: bool) {
        match (self, other) {
            (Token::Fn, Token::Fn) => true,
            (Token::Async, Token::Async) => true,
            (Token::Await, Token::Await) => true,
            (Token::Component, Token::Component) => true,
            (Token::View, Token::View) => true,
            (Token::State, Token::State) => true,
            (Token::Cell, Token::Cell) => true,
            (Token::Let, Token::Let) => true,
            (Token::Mut, Token::Mut) => true,
            (Token::If, Token::If) => true,
            (Token::Else, Token::Else) => true,
            (Token::Return, Token::Return) => true,
            (Token::Try, Token::Try) => true,
            (Token::Catch, Token::Catch) => true,
            (Token::Finally, Token::Finally) => true,
            (Token::Throw, Token::Throw) => true,
            (Token::Switch, Token::Switch) => true,
            (Token::Case, Token::Case) => true,
            (Token::Default, Token::Default) => true,
            (Token::For, Token::For) => true,
            (Token::In, Token::In) => true,
            (Token::Of, Token::Of) => true,
            (Token::While, Token::While) => true,
            (Token::Break, Token::Break) => true,
            (Token::Continue, Token::Continue) => true,
            (Token::Import, Token::Import) => true,
            (Token::From, Token::From) => true,
            (Token::As, Token::As) => true,
            (Token::Class, Token::Class) => true,
            (Token::Constructor, Token::Constructor) => true,
            (Token::New, Token::New) => true,
            (Token::Style, Token::Style) => true,
            (Token::Module, Token::Module) => true,
            (Token::Identifier(a), Token::Identifier(b)) => *a == *b,
            (Token::StringLiteral(a), Token::StringLiteral(b)) => *a == *b,
            (Token::NumberLiteral(a), Token::NumberLiteral(b)) => *a == *b,
            (Token::BooleanLiteral(a), Token::BooleanLiteral(b)) => *a == *b,
            (Token::Plus, Token::Plus) => true,
            (Token::Minus, Token::Minus) => true,
            (Token::Star, Token::Star) => true,
            (Token::Slash, Token::Slash) => true,
            (Token::Percent, Token::Percent) => true,
            (Token::Assign, Token::Assign) => true,
            (Token::PlusAssign, Token::PlusAssign) => true,
            (Token::MinusAssign, Token::MinusAssign) => true,
            (Token::Equal, Token::Equal) => true,
            (Token::NotEqual, Token::NotEqual) => true,
            (Token::LessThan, Token::LessThan) => true,
            (Token::LessThanEqual, Token::LessThanEqual) => true,
            (Token::GreaterThan, Token::GreaterThan) => true,
            (Token::GreaterThanEqual, Token::GreaterThanEqual) => true,
            (Token::And, Token::And) => true,
            (Token::Or, Token::Or) => true,
            (Token::Not, Token::Not) => true,
            (Token::Ampersand, Token::Ampersand) => true,
            (Token::Arrow, Token::Arrow) => true,
            (Token::Dollar, Token::Dollar) => true,
            (Token::LeftParen, Token::LeftParen) => true,
            (Token::RightParen, Token::RightParen) => true,
            (Token::LeftBrace, Token::LeftBrace) => true,
            (Token::RightBrace, Token::RightBrace) => true,
            (Token::LeftBracket, Token::LeftBracket) => true,
            (Token::RightBracket, Token::RightBracket) => true,
            (Token::Semicolon, Token::Semicolon) => true,
            (Token::Comma, Token::Comma) => true,
            (Token::Dot, Token::Dot) => true,
            (Token::Colon, Token::Colon) => true,
            (Token::HashIf, Token::HashIf) => true,
            (Token::HashFor, Token::HashFor) => true,
            (Token::HashElse, Token::HashElse) => true,
            (Token::SlashIf, Token::SlashIf) => true,
            (Token::SlashFor, Token::SlashFor) => true,
            (Token::EOF, Token::EOF) => true,
            _ => false,
        }
    }
}

impl vstd::std_specs::cmp::PartialEqSpecImpl for Token {
    open spec fn obeys_eq_spec() -> bool {
        true
    }

    open spec fn eq_spec(&self, other: &Token) -> bool {
        self@ == other@
    }
}

/// Whether a token sequence is non-empty and ends with `EOF`, as the
/// lexer's output always is.
pub open spec fn ends_with_eof(ts: Seq<Token>) -> bool {
    ts.len() > 0 && ts.last() == Token::EOF
}

/// The views of a token sequence.
pub open spec fn tokens_view(ts: Seq<Token>) -> Seq<TokenView> {
    ts.map_values(|t: Token| t@)
}

/// The keyword that a word spells, if any (`true` and `false` are boolean
/// literals).
pub open spec fn keyword_of(w: Seq<char>) -> Option<Token> {
    if w == "fn"@ { Some(Token::Fn) }
    else if w == "async"@ { Some(Token::Async) }
    else if w == "await"@ { Some(Token::Await) }
    else if w == "component"@ { Some(Token::Component) }
    else if w == "view"@ { Some(Token::View) }
    else if w == "state"@ { Some(Token::State) }
    else if w == "cell"@ { Some(Token::Cell) }
    else if w == "let"@ { Some(Token::Let) }
    else if w == "mut"@ { Some(Token::Mut) }
    else if w == "if"@ { Some(Token::If) }
    else if w == "else"@ { Some(Token::Else) }
    else if w == "return"@ { Some(Token::Return) }
    else if w == "try"@ { Some(Token::Try) }
    else if w == "catch"@ { Some(Token::Catch) }
    else if w == "finally"@ { Some(Token::Finally) }
    else if w == "throw"@ { Some(Token::Throw) }
    else if w == "switch"@ { Some(Token::Switch) }
    else if w == "case"@ { Some(Token::Case) }
    else if w == "default"@ { Some(Token::Default) }
    else if w == "for"@ { Some(Token::For) }
    else if w == "in"@ { Some(Token::In) }
    else if w == "of"@ { Some(Token::Of) }
    else if w == "while"@ { Some(Token::While) }
    else if w == "break"@ { Some(Token::Break) }
    else if w == "continue"@ { Some(Token::Continue) }
    else if w == "import"@ { Some(Token::Import) }
    else if w == "from"@ { Some(Token::From) }
    else if w == "as"@ { Some(Token::As) }
    else if w == "class"@ { Some(Token::Class) }
    else if w == "constructor"@ { Some(Token::Constructor) }
    else if w == "new"@ { Some(Token::New) }
    else if w == "style"@ { Some(Token::Style) }
    else if w == "module"@ { Some(Token::Module) }
    else if w == "true"@ { Some(Token::BooleanLiteral(true)) }
    else if w == "false"@ { Some(Token::BooleanLiteral(false)) }
    else { None }
}

} // verus!
