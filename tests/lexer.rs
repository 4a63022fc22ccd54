use gigli::lexer::{tokenize, LexErrorKind, Lexer};
use gigli::token::Token;

fn ident(s: &str) -> Token {
    Token::Identifier(s.to_string())
}

#[test]
fn tokens_end_with_eof() {
    for src in ["", "   ", "fn main() {}", "// only a comment", "x = 1 + 2;"] {
        let tokens = tokenize(src).unwrap();
        assert_eq!(tokens.last(), Some(&Token::EOF));
    }
}

#[test]
fn lexing_fails_or_ends_with_eof() {
    for src in ["@", "\"open", "1.2.3", "{#while}", "a | b", "fn f() { return 1; }"] {
        match tokenize(src) {
            Ok(tokens) => assert_eq!(tokens.last(), Some(&Token::EOF)),
            Err(_) => {}
        }
    }
    assert!(tokenize("@").is_err());
}

#[test]
fn empty_source_is_only_eof() {
    assert_eq!(tokenize("").unwrap(), vec![Token::EOF]);
}

#[test]
fn string_escape_becomes_real_newline() {
    let tokens = tokenize("\"a\\nb\"").unwrap();
    assert_eq!(tokens, vec![Token::StringLiteral("a\nb".to_string()), Token::EOF]);
}

#[test]
fn all_escapes_are_resolved() {
    let tokens = tokenize("\"\\t\\r\\\\\\\"\"").unwrap();
    assert_eq!(tokens[0], Token::StringLiteral("\t\r\\\"".to_string()));
}

#[test]
fn keywords_and_identifiers() {
    let tokens = tokenize("fn component view state cell let mut if else return async await foo _bar x1").unwrap();
    assert_eq!(
        tokens,
        vec![
            Token::Fn,
            Token::Component,
            Token::View,
            Token::State,
            Token::Cell,
            Token::Let,
            Token::Mut,
            Token::If,
            Token::Else,
            Token::Return,
            Token::Async,
            Token::Await,
            ident("foo"),
            ident("_bar"),
            ident("x1"),
            Token::EOF,
        ]
    );
}

#[test]
fn booleans_are_literals() {
    let tokens = tokenize("true false").unwrap();
    assert_eq!(tokens, vec![Token::BooleanLiteral(true), Token::BooleanLiteral(false), Token::EOF]);
}

#[test]
fn two_character_operators_win() {
    let tokens = tokenize("== != <= >= += -= -> && || = < > + - ! &").unwrap();
    assert_eq!(
        tokens,
        vec![
            Token::Equal,
            Token::NotEqual,
            Token::LessThanEqual,
            Token::GreaterThanEqual,
            Token::PlusAssign,
            Token::MinusAssign,
            Token::Arrow,
            Token::And,
            Token::Or,
            Token::Assign,
            Token::LessThan,
            Token::GreaterThan,
            Token::Plus,
            Token::Minus,
            Token::Not,
            Token::Ampersand,
            Token::EOF,
        ]
    );
}

#[test]
fn numbers_keep_their_digits() {
    let tokens = tokenize("42 3.14 7.").unwrap();
    assert_eq!(
        tokens,
        vec![
            Token::NumberLiteral("42".to_string()),
            Token::NumberLiteral("3.14".to_string()),
            Token::NumberLiteral("7.".to_string()),
            Token::EOF,
        ]
    );
}

#[test]
fn malformed_number_is_an_error() {
    let e = tokenize("x = 1.2.3;").unwrap_err();
    assert_eq!(e.kind, LexErrorKind::InvalidNumber);
    assert_eq!(e.position, 4);
}

#[test]
fn unterminated_string_is_an_error() {
    let e = tokenize("\"abc").unwrap_err();
    assert_eq!(e.kind, LexErrorKind::UnterminatedString);
    assert_eq!(e.position, 0);
    assert_eq!(tokenize("\"abc\\").unwrap_err().kind, LexErrorKind::UnterminatedString);
}

#[test]
fn unknown_escape_is_an_error() {
    let e = tokenize("\"a\\qb\"").unwrap_err();
    assert_eq!(e.kind, LexErrorKind::InvalidEscape('q'));
    assert_eq!(e.message(), "Invalid escape sequence \\q");
}

#[test]
fn unexpected_character_is_an_error() {
    let e = tokenize("let a = 1 @").unwrap_err();
    assert_eq!(e.kind, LexErrorKind::UnexpectedCharacter('@'));
    assert_eq!(e.position, 10);
    assert_eq!(e.message(), "Unexpected character '@'");
}

#[test]
fn markup_block_tokens() {
    let tokens = tokenize("{#if ok}{:else}{/if}{#for x in xs}{/for}").unwrap();
    assert_eq!(
        tokens,
        vec![
            Token::HashIf,
            ident("ok"),
            Token::RightBrace,
            Token::HashElse,
            Token::RightBrace,
            Token::SlashIf,
            Token::RightBrace,
            Token::HashFor,
            ident("x"),
            Token::In,
            ident("xs"),
            Token::RightBrace,
            Token::SlashFor,
            Token::RightBrace,
            Token::EOF,
        ]
    );
}

#[test]
fn unknown_markup_block_is_an_error() {
    assert_eq!(tokenize("{#while x}").unwrap_err().kind, LexErrorKind::UnknownBlock);
    assert_eq!(tokenize("{:elif}").unwrap_err().kind, LexErrorKind::UnknownBlock);
    assert_eq!(tokenize("{/each}").unwrap_err().kind, LexErrorKind::UnknownBlock);
}

#[test]
fn comments_are_skipped() {
    let tokens = tokenize("a // rest of line\nb").unwrap();
    assert_eq!(tokens, vec![ident("a"), ident("b"), Token::EOF]);
}

#[test]
fn reactive_binding_tokens() {
    let tokens = tokenize("$: y = x;").unwrap();
    assert_eq!(
        tokens,
        vec![Token::Dollar, Token::Colon, ident("y"), Token::Assign, ident("x"), Token::Semicolon, Token::EOF]
    );
}

#[test]
fn lexer_struct_tokenizes() {
    let mut lexer = Lexer::new("let x = 1;");
    let tokens = lexer.tokenize().unwrap();
    assert_eq!(tokens.len(), 6);
}
