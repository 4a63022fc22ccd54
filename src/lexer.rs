//! The lexer: source text to tokens, left to right with one character of
//! look-ahead. The first error stops it.
use vstd::prelude::*;
use crate::text::{
    char_is_alphabetic, char_is_alphanumeric, char_is_whitespace, chars_match, chars_of,
    is_alphabetic, is_alphanumeric, is_whitespace, push_char, string_of_range,
};
use crate::token::{keyword_of, tokens_view, Token, TokenView};

verus! {

/// What went wrong while lexing.
#[derive(Debug, Clone, Copy, PartialEq, Eq, Structural)]
pub enum LexErrorKind {
    /// `{#`, `{:` or `{/` followed by a name that is not a markup block.
    UnknownBlock,
    /// A character that starts no token.
    UnexpectedCharacter(char),
    /// A run of digits and dots that is not a number (more than one dot).
    InvalidNumber,
    /// A backslash followed by a character other than `n t r \ "`.
    InvalidEscape(char),
    /// The input ends inside a string literal.
    UnterminatedString,
}

/// A lexical error and the index (in characters) of the token it stopped at.
#[derive(Debug, Clone, Copy, PartialEq, Eq, Structural)]
pub struct LexError {
    pub position: usize,
    pub kind: LexErrorKind,
}

impl LexError {
    /// A description of the error.
    pub fn message(&self) -> (r: String)
        ensures
            match self.kind {
                LexErrorKind::UnknownBlock => r@ == "Unknown markup block"@,
                LexErrorKind::UnexpectedCharacter(c) => r@ == "Unexpected character '"@ + seq![c] + "'"@,
                LexErrorKind::InvalidNumber => r@ == "Invalid number"@,
                LexErrorKind::InvalidEscape(c) => r@ == "Invalid escape sequence \\"@ + seq![c],
                LexErrorKind::UnterminatedString => r@ == "Unterminated string literal"@,
            },
    {
        match self.kind {
            LexErrorKind::UnknownBlock => String::from_str("Unknown markup block"),
            LexErrorKind::UnexpectedCharacter(c) => {
                let mut m = String::from_str("Unexpected character '");
                push_char(&mut m, c);
                m.append("'");
                proof {
                    assert(m@ =~= "Unexpected character '"@ + seq![c] + "'"@);
                }
                m
            },
            LexErrorKind::InvalidNumber => String::from_str("Invalid number"),
            LexErrorKind::InvalidEscape(c) => {
                let mut m = String::from_str("Invalid escape sequence \\");
                push_char(&mut m, c);
                proof {
                    assert(m@ =~= "Invalid escape sequence \\"@ + seq![c]);
                }
                m
            },
            LexErrorKind::UnterminatedString => String::from_str("Unterminated string literal"),
        }
    }
}

pub open spec fn char_at(cs: Seq<char>, i: int) -> Option<char> {
    if 0 <= i < cs.len() {
        Some(cs[i])
    } else {
        None
    }
}

pub open spec fn is_ident_start(c: char) -> bool {
    ('a' <= c && c <= 'z') || ('A' <= c && c <= 'Z') || c == '_'
}

/// Letters, digits (Unicode alphanumeric beyond ASCII) and `_`.
pub open spec fn is_ident_char(c: char) -> bool {
    if (c as u32) < 128 {
        is_ascii_letter(c) || is_digit(c) || c == '_'
    } else {
        char_is_alphanumeric(c)
    }
}

pub open spec fn is_ascii_letter(c: char) -> bool {
    ('a' <= c && c <= 'z') || ('A' <= c && c <= 'Z')
}

/// Letters (Unicode alphabetic beyond ASCII).
pub open spec fn is_letter(c: char) -> bool {
    if (c as u32) < 128 {
        is_ascii_letter(c)
    } else {
        char_is_alphabetic(c)
    }
}

pub open spec fn is_digit(c: char) -> bool {
    '0' <= c && c <= '9'
}

pub open spec fn is_number_char(c: char) -> bool {
    is_digit(c) || c == '.'
}

/// End of the run of identifier characters that starts at `i`.
pub open spec fn ident_end(cs: Seq<char>, i: int) -> int
    decreases cs.len() - i,
{
    if 0 <= i < cs.len() && is_ident_char(cs[i]) {
        ident_end(cs, i + 1)
    } else {
        i
    }
}

/// End of the run of digits and dots that starts at `i`.
pub open spec fn number_end(cs: Seq<char>, i: int) -> int
    decreases cs.len() - i,
{
    if 0 <= i < cs.len() && is_number_char(cs[i]) {
        number_end(cs, i + 1)
    } else {
        i
    }
}

/// End of the run of alphabetic characters that starts at `i`.
pub open spec fn alpha_end(cs: Seq<char>, i: int) -> int
    decreases cs.len() - i,
{
    if 0 <= i < cs.len() && is_letter(cs[i]) {
        alpha_end(cs, i + 1)
    } else {
        i
    }
}

/// Index of the first newline at or after `i`, or the end of input.
pub open spec fn line_end(cs: Seq<char>, i: int) -> int
    decreases cs.len() - i,
{
    if 0 <= i < cs.len() && cs[i] != '\n' {
        line_end(cs, i + 1)
    } else {
        i
    }
}

pub open spec fn dot_count(w: Seq<char>) -> nat
    decreases w.len(),
{
    if w.len() == 0 {
        0
    } else {
        dot_count(w.drop_last()) + if w.last() == '.' { 1nat } else { 0nat }
    }
}

/// The character that an escape `\c` stands for.
pub open spec fn escape_of(c: char) -> Option<char> {
    if c == 'n' {
        Some('\n')
    } else if c == 't' {
        Some('\t')
    } else if c == 'r' {
        Some('\r')
    } else if c == '\\' {
        Some('\\')
    } else if c == '"' {
        Some('"')
    } else {
        None
    }
}

/// Reads the rest of a string literal from `i` (just after the opening
/// quote, or further on with `acc` read so far): its contents and the index
/// after the closing quote.
pub open spec fn string_scan(cs: Seq<char>, i: int, acc: Seq<char>) -> Result<
    (Seq<char>, int),
    LexErrorKind,
>
    decreases cs.len() - i,
{
    if i < 0 || i >= cs.len() {
        Err(LexErrorKind::UnterminatedString)
    } else if cs[i] == '"' {
        Ok((acc, i + 1))
    } else if cs[i] == '\\' {
        if i + 1 >= cs.len() {
            Err(LexErrorKind::UnterminatedString)
        } else {
            match escape_of(cs[i + 1]) {
                Some(e) => string_scan(cs, i + 2, acc.push(e)),
                None => Err(LexErrorKind::InvalidEscape(cs[i + 1])),
            }
        }
    } else {
        string_scan(cs, i + 1, acc.push(cs[i]))
    }
}

/// The markup block token that `{` + `prefix` + `name` spells.
pub open spec fn block_token(prefix: char, name: Seq<char>) -> Option<Token> {
    if prefix == '#' && name == "if"@ {
        Some(Token::HashIf)
    } else if prefix == '#' && name == "for"@ {
        Some(Token::HashFor)
    } else if prefix == ':' && name == "else"@ {
        Some(Token::HashElse)
    } else if prefix == '/' && name == "if"@ {
        Some(Token::SlashIf)
    } else if prefix == '/' && name == "for"@ {
        Some(Token::SlashFor)
    } else {
        None
    }
}

/// The operator or delimiter that starts with `c` (followed by `next`), and
/// how many characters it takes. Two-character operators win.
pub open spec fn operator_of(c: char, next: Option<char>) -> Option<(Token, usize)> {
    if c == '+' {
        if next == Some('=') { Some((Token::PlusAssign, 2)) } else { Some((Token::Plus, 1)) }
    } else if c == '-' {
        if next == Some('=') {
            Some((Token::MinusAssign, 2))
        } else if next == Some('>') {
            Some((Token::Arrow, 2))
        } else {
            Some((Token::Minus, 1))
        }
    } else if c == '*' {
        Some((Token::Star, 1))
    } else if c == '/' {
        Some((Token::Slash, 1))
    } else if c == '%' {
        Some((Token::Percent, 1))
    } else if c == '=' {
        if next == Some('=') { Some((Token::Equal, 2)) } else { Some((Token::Assign, 1)) }
    } else if c == '!' {
        if next == Some('=') { Some((Token::NotEqual, 2)) } else { Some((Token::Not, 1)) }
    } else if c == '<' {
        if next == Some('=') {
            Some((Token::LessThanEqual, 2))
        } else {
            Some((Token::LessThan, 1))
        }
    } else if c == '>' {
        if next == Some('=') {
            Some((Token::GreaterThanEqual, 2))
        } else {
            Some((Token::GreaterThan, 1))
        }
    } else if c == '&' {
        if next == Some('&') { Some((Token::And, 2)) } else { Some((Token::Ampersand, 1)) }
    } else if c == '|' {
        if next == Some('|') { Some((Token::Or, 2)) } else { None }
    } else if c == '$' {
        Some((Token::Dollar, 1))
    } else if c == '(' {
        Some((Token::LeftParen, 1))
    } else if c == ')' {
        Some((Token::RightParen, 1))
    } else if c == '{' {
        Some((Token::LeftBrace, 1))
    } else if c == '}' {
        Some((Token::RightBrace, 1))
    } else if c == '[' {
        Some((Token::LeftBracket, 1))
    } else if c == ']' {
        Some((Token::RightBracket, 1))
    } else if c == ';' {
        Some((Token::Semicolon, 1))
    } else if c == ',' {
        Some((Token::Comma, 1))
    } else if c == '.' {
        Some((Token::Dot, 1))
    } else if c == ':' {
        Some((Token::Colon, 1))
    } else {
        None
    }
}

/// One step of the lexer at `pos`: skip something, produce a token and
/// continue at an index, or fail.
pub enum Step {
    Skip(int),
    Emit(TokenView, int),
    Fail(LexErrorKind),
}

pub open spec fn is_block_prefix(next: Option<char>) -> bool {
    next == Some('#') || next == Some(':') || next == Some('/')
}

pub open spec fn step(cs: Seq<char>, pos: int) -> Step {
    let c = cs[pos];
    let next = char_at(cs, pos + 1);
    if char_is_whitespace(c) {
        Step::Skip(pos + 1)
    } else if c == '{' && is_block_prefix(next) {
        let e = alpha_end(cs, pos + 2);
        match block_token(cs[pos + 1], cs.subrange(pos + 2, e)) {
            Some(t) => Step::Emit(TokenView::Plain(t), e),
            None => Step::Fail(LexErrorKind::UnknownBlock),
        }
    } else if is_ident_start(c) {
        let e = ident_end(cs, pos + 1);
        let w = cs.subrange(pos, e);
        match keyword_of(w) {
            Some(t) => Step::Emit(TokenView::Plain(t), e),
            None => Step::Emit(TokenView::Identifier(w), e),
        }
    } else if is_digit(c) {
        let e = number_end(cs, pos);
        let w = cs.subrange(pos, e);
        if dot_count(w) <= 1 {
            Step::Emit(TokenView::NumberLiteral(w), e)
        } else {
            Step::Fail(LexErrorKind::InvalidNumber)
        }
    } else if c == '"' {
        match string_scan(cs, pos + 1, Seq::empty()) {
            Ok((s, e)) => Step::Emit(TokenView::StringLiteral(s), e),
            Err(k) => Step::Fail(k),
        }
    } else if c == '/' && next == Some('/') {
        Step::Skip(line_end(cs, pos))
    } else {
        match operator_of(c, next) {
            Some((t, w)) => Step::Emit(TokenView::Plain(t), pos + w),
            None => Step::Fail(LexErrorKind::UnexpectedCharacter(c)),
        }
    }
}

/// The tokens of `cs` from `pos` on, ending with `EOF`, or the first error.
/// The bounds checked on each step's end only make the recursion
/// well-founded: `lemma_step_advances` shows that every step that does not
/// fail ends after `pos` and within the input, so those error branches are
/// never taken.
pub open spec fn lex_from(cs: Seq<char>, pos: int) -> Result<Seq<TokenView>, LexError>
    decreases cs.len() - pos,
{
    if pos < 0 || pos >= cs.len() {
        Ok(seq![TokenView::Plain(Token::EOF)])
    } else {
        match step(cs, pos) {
            Step::Skip(n) => if pos < n <= cs.len() {
                lex_from(cs, n)
            } else {
                Err(LexError { position: pos as usize, kind: LexErrorKind::UnexpectedCharacter(cs[pos]) })
            },
            Step::Emit(t, n) => if pos < n <= cs.len() {
                match lex_from(cs, n) {
                    Ok(ts) => Ok(seq![t] + ts),
                    Err(e) => Err(e),
                }
            } else {
                Err(LexError { position: pos as usize, kind: LexErrorKind::UnexpectedCharacter(cs[pos]) })
            },
            Step::Fail(k) => Err(LexError { position: pos as usize, kind: k }),
        }
    }
}

/// The tokens of a whole source text.
pub open spec fn lex(cs: Seq<char>) -> Result<Seq<TokenView>, LexError> {
    lex_from(cs, 0)
}

pub open spec fn prepend(prefix: Seq<TokenView>, r: Result<Seq<TokenView>, LexError>) -> Result<
    Seq<TokenView>,
    LexError,
> {
    match r {
        Ok(ts) => Ok(prefix + ts),
        Err(e) => Err(e),
    }
}

pub open spec fn result_view(r: Result<Vec<Token>, LexError>) -> Result<Seq<TokenView>, LexError> {
    match r {
        Ok(ts) => Ok(tokens_view(ts@)),
        Err(e) => Err(e),
    }
}

/// Whatever the input, the lexer either fails or gives tokens whose last
/// one is `EOF`.
pub proof fn lemma_lex_ends_with_eof(cs: Seq<char>, pos: int)
    ensures
        lex_from(cs, pos) matches Ok(ts) ==> ts.len() > 0 && ts.last() == TokenView::Plain(Token::EOF),
    decreases cs.len() - pos,
{
    if 0 <= pos < cs.len() {
        match step(cs, pos) {
            Step::Skip(n) => if pos < n <= cs.len() {
                lemma_lex_ends_with_eof(cs, n);
            },
            Step::Emit(t, n) => if pos < n <= cs.len() {
                lemma_lex_ends_with_eof(cs, n);
                if let Ok(ts) = lex_from(cs, n) {
                    assert((seq![t] + ts).last() == ts.last());
                }
            },
            Step::Fail(_) => {},
        }
    }
}

proof fn lemma_run_ends(cs: Seq<char>, i: int)
    requires
        0 <= i <= cs.len(),
    ensures
        i <= ident_end(cs, i) <= cs.len(),
        i <= number_end(cs, i) <= cs.len(),
        i <= alpha_end(cs, i) <= cs.len(),
        i <= line_end(cs, i) <= cs.len(),
    decreases cs.len() - i,
{
    if i < cs.len() {
        lemma_run_ends(cs, i + 1);
    }
}

proof fn lemma_string_scan_end(cs: Seq<char>, i: int, acc: Seq<char>)
    requires
        0 <= i,
    ensures
        string_scan(cs, i, acc) matches Ok((_, e)) ==> i < e <= cs.len(),
    decreases cs.len() - i,
{
    if 0 <= i < cs.len() {
        if cs[i] == '\\' {
            if i + 1 < cs.len() {
                if let Some(e) = escape_of(cs[i + 1]) {
                    lemma_string_scan_end(cs, i + 2, acc.push(e));
                }
            }
        } else if cs[i] != '"' {
            lemma_string_scan_end(cs, i + 1, acc.push(cs[i]));
        }
    }
}

/// Every step that does not fail moves forward.
proof fn lemma_step_advances(cs: Seq<char>, pos: int)
    requires
        0 <= pos < cs.len(),
    ensures
        match step(cs, pos) {
            Step::Skip(n) => pos < n <= cs.len(),
            Step::Emit(_, n) => pos < n <= cs.len(),
            Step::Fail(_) => true,
        },
{
    lemma_run_ends(cs, pos);
    lemma_run_ends(cs, pos + 1);
    if pos + 2 <= cs.len() {
        lemma_run_ends(cs, pos + 2);
    }
    lemma_string_scan_end(cs, pos + 1, Seq::empty());
}

/// Outcome of one exec step.
enum Scan {
    Skipped,
    Produced(Token),
    Failed(LexErrorKind),
}

/// The lexer state: the characters, the index of the current one, and the
/// current character itself.
pub struct Lexer {
    input: Vec<char>,
    position: usize,
    current_char: Option<char>,
}

impl Lexer {
    /// The characters being lexed.
    pub closed spec fn source(&self) -> Seq<char> {
        self.input@
    }

    /// The index of the current character.
    pub closed spec fn pos(&self) -> int {
        self.position as int
    }

    pub closed spec fn wf(&self) -> bool {
        self.input@.len() <= usize::MAX && self.position <= self.input@.len() && self.current_char == char_at(
            self.input@,
            self.position as int,
        )
    }

    /// A lexer at the start of `input`.
    pub fn new(input: &str) -> (r: Lexer)
        ensures
            r.wf(),
            r.source() == input@,
            r.pos() == 0,
    {
        let chars = chars_of(input);
        let current_char = if chars.len() > 0 {
            Some(chars[0])
        } else {
            None
        };
        Lexer { input: chars, position: 0, current_char }
    }

    fn advance(&mut self)
        requires
            old(self).wf(),
            old(self).position < old(self).input@.len(),
        ensures
            final(self).wf(),
            final(self).input@ == old(self).input@,
            final(self).position == old(self).position + 1,
    {
        self.position = self.position + 1;
        self.current_char = if self.position < self.input.len() {
            Some(self.input[self.position])
        } else {
            None
        };
    }

    fn peek(&self) -> (r: Option<char>)
        requires
            self.wf(),
            self.position < self.input@.len(),
        ensures
            r == char_at(self.input@, self.position + 1),
    {
        if self.position + 1 < self.input.len() {
            Some(self.input[self.position + 1])
        } else {
            None
        }
    }

    fn skip_line_comment(&mut self)
        requires
            old(self).wf(),
        ensures
            final(self).wf(),
            final(self).input@ == old(self).input@,
            final(self).position == line_end(old(self).input@, old(self).position as int),
    {
        while self.current_char.is_some() && self.current_char.unwrap() != '\n'
            invariant
                self.wf(),
                self.input@ == old(self).input@,
                line_end(self.input@, self.position as int) == line_end(
                    self.input@,
                    old(self).position as int,
                ),
            decreases self.input@.len() - self.position,
        {
            self.advance();
        }
    }

    /// Reads a run of identifier characters: a keyword or an identifier.
    fn read_identifier_or_keyword(&mut self) -> (r: Token)
        requires
            old(self).wf(),
            old(self).position < old(self).input@.len(),
        ensures
            final(self).wf(),
            final(self).input@ == old(self).input@,
            final(self).position == ident_end(old(self).input@, old(self).position + 1),
            ({
                let w = old(self).input@.subrange(old(self).position as int, final(self).position as int);
                r@ == match keyword_of(w) {
                    Some(t) => TokenView::Plain(t),
                    None => TokenView::Identifier(w),
                }
            }),
    {
        let start = self.position;
        self.advance();
        while self.current_char.is_some() && ident_char(self.current_char.unwrap())
            invariant
                self.wf(),
                start <= self.position,
                self.input@ == old(self).input@,
                ident_end(self.input@, self.position as int) == ident_end(self.input@, start + 1),
            decreases self.input@.len() - self.position,
        {
            self.advance();
        }
        match keyword_lookup(&self.input, start, self.position) {
            Some(t) => t,
            None => Token::Identifier(string_of_range(&self.input, start, self.position)),
        }
    }

    /// Reads a run of digits and dots: a number, or an error when it holds
    /// more than one dot.
    fn read_number(&mut self) -> (r: Result<Token, LexErrorKind>)
        requires
            old(self).wf(),
        ensures
            final(self).wf(),
            final(self).input@ == old(self).input@,
            final(self).position == number_end(old(self).input@, old(self).position as int),
            ({
                let w = old(self).input@.subrange(old(self).position as int, final(self).position as int);
                if dot_count(w) <= 1 {
                    r matches Ok(t) && t@ == TokenView::NumberLiteral(w)
                } else {
                    r == Err::<Token, LexErrorKind>(LexErrorKind::InvalidNumber)
                }
            }),
    {
        let start = self.position;
        let mut dots: usize = 0;
        while self.current_char.is_some() && (('0' <= self.current_char.unwrap()
            && self.current_char.unwrap() <= '9') || self.current_char.unwrap() == '.')
            invariant
                self.wf(),
                start <= self.position,
                self.input@ == old(self).input@,
                dots == dot_count(self.input@.subrange(start as int, self.position as int)),
                dots <= self.position - start,
                number_end(self.input@, self.position as int) == number_end(self.input@, start as int),
            decreases self.input@.len() - self.position,
        {
            let c = self.current_char.unwrap();
            proof {
                let next = self.input@.subrange(start as int, self.position + 1);
                assert(next.drop_last() =~= self.input@.subrange(start as int, self.position as int));
            }
            if c == '.' {
                dots = dots + 1;
            }
            self.advance();
        }
        if dots <= 1 {
            Ok(Token::NumberLiteral(string_of_range(&self.input, start, self.position)))
        } else {
            Err(LexErrorKind::InvalidNumber)
        }
    }

    /// Reads a string literal from its opening quote, resolving escapes.
    fn read_string(&mut self) -> (r: Result<Token, LexErrorKind>)
        requires
            old(self).wf(),
            old(self).position < old(self).input@.len(),
        ensures
            final(self).wf(),
            final(self).input@ == old(self).input@,
            match string_scan(old(self).input@, old(self).position + 1, Seq::empty()) {
                Ok((s, e)) => r matches Ok(t) && t@ == TokenView::StringLiteral(s) && final(self).position == e,
                Err(k) => r == Err::<Token, LexErrorKind>(k),
            },
    {
        let ghost start: int = self.position as int + 1;
        let mut text = String::new();
        self.advance();
        loop
            invariant
                self.wf(),
                self.input@ == old(self).input@,
                start == old(self).position + 1,
                string_scan(self.input@, start, Seq::empty()) == string_scan(
                    self.input@,
                    self.position as int,
                    text@,
                ),
            decreases self.input@.len() - self.position,
        {
            match self.current_char {
                None => {
                    proof {
                        assert(string_scan(self.input@, self.position as int, text@) == Err::<(Seq<char>, int), LexErrorKind>(LexErrorKind::UnterminatedString));
                    }
                    return Err(LexErrorKind::UnterminatedString);
                },
                Some(c) => {
                    if c == '"' {
                        proof {
                            assert(string_scan(self.input@, self.position as int, text@) == Ok::<(Seq<char>, int), LexErrorKind>((text@, self.position + 1)));
                        }
                        self.advance();
                        return Ok(Token::StringLiteral(text));
                    } else if c == '\\' {
                        let ghost at = self.position as int;
                        self.advance();
                        match self.current_char {
                            None => {
                                proof {
                                    assert(string_scan(self.input@, at, text@) == Err::<(Seq<char>, int), LexErrorKind>(LexErrorKind::UnterminatedString));
                                }
                                return Err(LexErrorKind::UnterminatedString);
                            },
                            Some(escaped) => {
                                match escape(escaped) {
                                    Some(e) => push_char(&mut text, e),
                                    None => {
                                        return Err(LexErrorKind::InvalidEscape(escaped));
                                    },
                                }
                                self.advance();
                            },
                        }
                    } else {
                        push_char(&mut text, c);
                        self.advance();
                    }
                },
            }
        }
    }

    /// Reads `{#if`, `{#for`, `{:else`, `{/if` or `{/for`.
    fn read_block_marker(&mut self) -> (r: Result<Token, LexErrorKind>)
        requires
            old(self).wf(),
            old(self).position + 1 < old(self).input@.len(),
        ensures
            final(self).wf(),
            final(self).input@ == old(self).input@,
            ({
                let cs = old(self).input@;
                let p = old(self).position as int;
                let e = alpha_end(cs, p + 2);
                match block_token(cs[p + 1], cs.subrange(p + 2, e)) {
                    Some(t) => r == Ok::<Token, LexErrorKind>(t) && final(self).position == e,
                    None => r == Err::<Token, LexErrorKind>(LexErrorKind::UnknownBlock),
                }
            }),
    {
        let prefix = self.input[self.position + 1];
        self.advance();
        self.advance();
        let start = self.position;
        while self.current_char.is_some() && letter(self.current_char.unwrap())
            invariant
                self.wf(),
                start <= self.position,
                self.input@ == old(self).input@,
                alpha_end(self.input@, self.position as int) == alpha_end(self.input@, start as int),
            decreases self.input@.len() - self.position,
        {
            self.advance();
        }
        let end = self.position;
        if prefix == '#' && chars_match(&self.input, start, end, "if") {
            Ok(Token::HashIf)
        } else if prefix == '#' && chars_match(&self.input, start, end, "for") {
            Ok(Token::HashFor)
        } else if prefix == ':' && chars_match(&self.input, start, end, "else") {
            Ok(Token::HashElse)
        } else if prefix == '/' && chars_match(&self.input, start, end, "if") {
            Ok(Token::SlashIf)
        } else if prefix == '/' && chars_match(&self.input, start, end, "for") {
            Ok(Token::SlashFor)
        } else {
            Err(LexErrorKind::UnknownBlock)
        }
    }

    /// One step at the current character, which exists.
    fn scan(&mut self) -> (r: Scan)
        requires
            old(self).wf(),
            old(self).position < old(self).input@.len(),
        ensures
            final(self).wf(),
            final(self).input@ == old(self).input@,
            match step(old(self).input@, old(self).position as int) {
                Step::Skip(n) => r is Skipped && final(self).position == n,
                Step::Emit(t, n) => r matches Scan::Produced(tok) && tok@ == t
                    && final(self).position == n,
                Step::Fail(k) => r == Scan::Failed(k),
            },
    {
        let ch = self.current_char.unwrap();
        if is_whitespace(ch) {
            self.advance();
            return Scan::Skipped;
        }
        let next = self.peek();
        if ch == '{' && (next == Some('#') || next == Some(':') || next == Some('/')) {
            return match self.read_block_marker() {
                Ok(t) => Scan::Produced(t),
                Err(k) => Scan::Failed(k),
            };
        }
        if ('a' <= ch && ch <= 'z') || ('A' <= ch && ch <= 'Z') || ch == '_' {
            return Scan::Produced(self.read_identifier_or_keyword());
        }
        if '0' <= ch && ch <= '9' {
            return match self.read_number() {
                Ok(t) => Scan::Produced(t),
                Err(k) => Scan::Failed(k),
            };
        }
        if ch == '"' {
            return match self.read_string() {
                Ok(t) => Scan::Produced(t),
                Err(k) => Scan::Failed(k),
            };
        }
        if ch == '/' && next == Some('/') {
            self.skip_line_comment();
            return Scan::Skipped;
        }
        match operator_token(ch, next) {
            Some((t, width)) => {
                self.advance();
                if width == 2 {
                    self.advance();
                }
                Scan::Produced(t)
            },
            None => Scan::Failed(LexErrorKind::UnexpectedCharacter(ch)),
        }
    }

    /// Lexes from the current character to the end of input.
    pub fn tokenize(&mut self) -> (r: Result<Vec<Token>, LexError>)
        requires
            old(self).wf(),
        ensures
            result_view(r) == lex_from(old(self).source(), old(self).pos()),
            r matches Ok(ts) ==> ts@.len() > 0 && ts@.last() == Token::EOF,
    {
        let ghost cs = self.input@;
        let ghost start = self.position as int;
        let mut tokens: Vec<Token> = Vec::new();
        proof {
            assert(tokens_view(tokens@) =~= Seq::empty());
            assert(prepend(Seq::empty(), lex_from(cs, start)) =~= lex_from(cs, start)) by {
                if let Ok(ts) = lex_from(cs, start) {
                    assert(Seq::<TokenView>::empty() + ts =~= ts);
                }
            }
        }
        loop
            invariant
                self.wf(),
                self.input@ == cs,
                cs == old(self).source(),
                start == old(self).pos(),
                lex_from(cs, start) == prepend(tokens_view(tokens@), lex_from(cs, self.position as int)),
            decreases cs.len() - self.position,
        {
            if self.current_char.is_none() {
                let ghost before = tokens@;
                tokens.push(Token::EOF);
                proof {
                    assert(tokens_view(tokens@) =~= tokens_view(before) + seq![TokenView::Plain(Token::EOF)]);
                    lemma_lex_ends_with_eof(cs, start);
                    assert(tokens_view(tokens@).last() == tokens@.last()@);
                }
                return Ok(tokens);
            }
            let pos = self.position;
            proof {
                lemma_step_advances(cs, pos as int);
            }
            match self.scan() {
                Scan::Skipped => {},
                Scan::Produced(t) => {
                    let ghost before = tokens@;
                    proof {
                        if let Ok(ts) = lex_from(cs, self.position as int) {
                            assert(tokens_view(before) + (seq![t@] + ts) =~= tokens_view(before.push(t)) + ts);
                        }
                    }
                    tokens.push(t);
                },
                Scan::Failed(k) => {
                    return Err(LexError { position: pos, kind: k });
                },
            }
        }
    }
}

fn ident_char(c: char) -> (r: bool)
    ensures
        r == is_ident_char(c),
{
    if (c as u32) < 128 {
        ('a' <= c && c <= 'z') || ('A' <= c && c <= 'Z') || ('0' <= c && c <= '9') || c == '_'
    } else {
        is_alphanumeric(c)
    }
}

fn letter(c: char) -> (r: bool)
    ensures
        r == is_letter(c),
{
    if (c as u32) < 128 {
        ('a' <= c && c <= 'z') || ('A' <= c && c <= 'Z')
    } else {
        is_alphabetic(c)
    }
}

/// The escape that `\c` stands for.
fn escape(c: char) -> (r: Option<char>)
    ensures
        r == escape_of(c),
{
    if c == 'n' {
        Some('\n')
    } else if c == 't' {
        Some('\t')
    } else if c == 'r' {
        Some('\r')
    } else if c == '\\' {
        Some('\\')
    } else if c == '"' {
        Some('"')
    } else {
        None
    }
}

/// The keyword that `cs[start..end]` spells, if any.
fn keyword_lookup(cs: &Vec<char>, start: usize, end: usize) -> (r: Option<Token>)
    requires
        start <= end <= cs@.len(),
    ensures
        r == keyword_of(cs@.subrange(start as int, end as int)),
{
    if chars_match(cs, start, end, "fn") { Some(Token::Fn) }
    else if chars_match(cs, start, end, "async") { Some(Token::Async) }
    else if chars_match(cs, start, end, "await") { Some(Token::Await) }
    else if chars_match(cs, start, end, "component") { Some(Token::Component) }
    else if chars_match(cs, start, end, "view") { Some(Token::View) }
    else if chars_match(cs, start, end, "state") { Some(Token::State) }
    else if chars_match(cs, start, end, "cell") { Some(Token::Cell) }
    else if chars_match(cs, start, end, "let") { Some(Token::Let) }
    else if chars_match(cs, start, end, "mut") { Some(Token::Mut) }
    else if chars_match(cs, start, end, "if") { Some(Token::If) }
    else if chars_match(cs, start, end, "else") { Some(Token::Else) }
    else if chars_match(cs, start, end, "return") { Some(Token::Return) }
    else if chars_match(cs, start, end, "try") { Some(Token::Try) }
    else if chars_match(cs, start, end, "catch") { Some(Token::Catch) }
    else if chars_match(cs, start, end, "finally") { Some(Token::Finally) }
    else if chars_match(cs, start, end, "throw") { Some(Token::Throw) }
    else if chars_match(cs, start, end, "switch") { Some(Token::Switch) }
    else if chars_match(cs, start, end, "case") { Some(Token::Case) }
    else if chars_match(cs, start, end, "default") { Some(Token::Default) }
    else if chars_match(cs, start, end, "for") { Some(Token::For) }
    else if chars_match(cs, start, end, "in") { Some(Token::In) }
    else if chars_match(cs, start, end, "of") { Some(Token::Of) }
    else if chars_match(cs, start, end, "while") { Some(Token::While) }
    else if chars_match(cs, start, end, "break") { Some(Token::Break) }
    else if chars_match(cs, start, end, "continue") { Some(Token::Continue) }
    else if chars_match(cs, start, end, "import") { Some(Token::Import) }
    else if chars_match(cs, start, end, "from") { Some(Token::From) }
    else if chars_match(cs, start, end, "as") { Some(Token::As) }
    else if chars_match(cs, start, end, "class") { Some(Token::Class) }
    else if chars_match(cs, start, end, "constructor") { Some(Token::Constructor) }
    else if chars_match(cs, start, end, "new") { Some(Token::New) }
    else if chars_match(cs, start, end, "style") { Some(Token::Style) }
    else if chars_match(cs, start, end, "module") { Some(Token::Module) }
    else if chars_match(cs, start, end, "true") { Some(Token::BooleanLiteral(true)) }
    else if chars_match(cs, start, end, "false") { Some(Token::BooleanLiteral(false)) }
    else { None }
}

/// The operator or delimiter that starts with `c`, and its width.
fn operator_token(c: char, next: Option<char>) -> (r: Option<(Token, usize)>)
    ensures
        r == operator_of(c, next),
{
    if c == '+' {
        if next == Some('=') { Some((Token::PlusAssign, 2)) } else { Some((Token::Plus, 1)) }
    } else if c == '-' {
        if next == Some('=') {
            Some((Token::MinusAssign, 2))
        } else if next == Some('>') {
            Some((Token::Arrow, 2))
        } else {
            Some((Token::Minus, 1))
        }
    } else if c == '*' {
        Some((Token::Star, 1))
    } else if c == '/' {
        Some((Token::Slash, 1))
    } else if c == '%' {
        Some((Token::Percent, 1))
    } else if c == '=' {
        if next == Some('=') { Some((Token::Equal, 2)) } else { Some((Token::Assign, 1)) }
    } else if c == '!' {
        if next == Some('=') { Some((Token::NotEqual, 2)) } else { Some((Token::Not, 1)) }
    } else if c == '<' {
        if next == Some('=') {
            Some((Token::LessThanEqual, 2))
        } else {
            Some((Token::LessThan, 1))
        }
    } else if c == '>' {
        if next == Some('=') {
            Some((Token::GreaterThanEqual, 2))
        } else {
            Some((Token::GreaterThan, 1))
        }
    } else if c == '&' {
        if next == Some('&') { Some((Token::And, 2)) } else { Some((Token::Ampersand, 1)) }
    } else if c == '|' {
        if next == Some('|') { Some((Token::Or, 2)) } else { None }
    } else if c == '$' {
        Some((Token::Dollar, 1))
    } else if c == '(' {
        Some((Token::LeftParen, 1))
    } else if c == ')' {
        Some((Token::RightParen, 1))
    } else if c == '{' {
        Some((Token::LeftBrace, 1))
    } else if c == '}' {
        Some((Token::RightBrace, 1))
    } else if c == '[' {
        Some((Token::LeftBracket, 1))
    } else if c == ']' {
        Some((Token::RightBracket, 1))
    } else if c == ';' {
        Some((Token::Semicolon, 1))
    } else if c == ',' {
        Some((Token::Comma, 1))
    } else if c == '.' {
        Some((Token::Dot, 1))
    } else if c == ':' {
        Some((Token::Colon, 1))
    } else {
        None
    }
}

/// Lexes a whole source text.
pub fn tokenize(source: &str) -> (r: Result<Vec<Token>, LexError>)
    ensures
        result_view(r) == lex(source@),
        r matches Ok(ts) ==> ts@.len() > 0 && ts@.last() == Token::EOF,
{
    let mut lexer = Lexer::new(source);
    lexer.tokenize()
}

} // verus!
