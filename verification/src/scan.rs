//! What lexing means: the tokens of a source text, as a function of its
//! characters.

use vstd::prelude::*;
use crate::chars::{digit, ident_part, is_digit, is_ident_part, is_ident_start, is_space};
use crate::error::{ErrorKindView, ErrorView};
use crate::token::{keyword_kind, LocationView, TokenKind, TokenView};

verus! {

/// The line of the position `pos` in `src`: one more than the number of
/// line feeds before it.
pub open spec fn line_of(src: Seq<char>, pos: int) -> nat
    decreases pos,
{
    if pos <= 0 {
        1
    } else if src[pos - 1] == '\n' {
        line_of(src, pos - 1) + 1
    } else {
        line_of(src, pos - 1)
    }
}

/// The column of the position `pos` in `src`: one more than the number of
/// characters between it and the line feed before it, or the start.
pub open spec fn column_of(src: Seq<char>, pos: int) -> nat
    decreases pos,
{
    if pos <= 0 {
        1
    } else if src[pos - 1] == '\n' {
        1
    } else {
        column_of(src, pos - 1) + 1
    }
}

/// Lines and columns count from 1, and are at most one more than the
/// position they belong to.
pub proof fn lemma_location_bounds(src: Seq<char>, pos: int)
    ensures
        1 <= line_of(src, pos) <= if pos <= 0 { 1 } else { pos + 1 },
        1 <= column_of(src, pos) <= if pos <= 0 { 1 } else { pos + 1 },
    decreases pos,
{
    if pos > 0 {
        lemma_location_bounds(src, pos - 1);
    }
}

/// The location of the position `pos` of the source `src` named `file`.
pub open spec fn location_of(src: Seq<char>, file: Seq<char>, pos: int) -> LocationView {
    LocationView { line: line_of(src, pos), column: column_of(src, pos), filename: file }
}

/// The classes of characters of which the lexer reads maximal runs.
#[derive(Clone, Copy, Debug)]
pub enum CharClass {
    /// Decimal digits.
    Digit,
    /// Letters, digits and `_`.
    Word,
    /// Anything but a line feed: the rest of a comment.
    Comment,
    /// Anything but `"` and a line feed: the inside of a string literal.
    Quoted,
}

pub open spec fn in_class(class: CharClass, c: char) -> bool {
    match class {
        CharClass::Digit => is_digit(c),
        CharClass::Word => is_ident_part(c),
        CharClass::Comment => c != '\n',
        CharClass::Quoted => c != '"' && c != '\n',
    }
}

/// Whether `c` belongs to `class`.
pub fn belongs(class: CharClass, c: char) -> (r: bool)
    ensures
        r == in_class(class, c),
{
    match class {
        CharClass::Digit => digit(c),
        CharClass::Word => ident_part(c),
        CharClass::Comment => c != '\n',
        CharClass::Quoted => c != '"' && c != '\n',
    }
}

/// Where the maximal run of characters of `class` that begins at `pos` ends.
pub open spec fn run_end(src: Seq<char>, pos: int, class: CharClass) -> int
    decreases src.len() - pos,
{
    if 0 <= pos < src.len() && in_class(class, src[pos]) {
        run_end(src, pos + 1, class)
    } else {
        pos
    }
}

pub proof fn lemma_run_end(src: Seq<char>, pos: int, class: CharClass)
    requires
        0 <= pos <= src.len(),
    ensures
        pos <= run_end(src, pos, class) <= src.len(),
        forall|i: int| pos <= i < run_end(src, pos, class) ==> in_class(class, #[trigger] src[i]),
        run_end(src, pos, class) < src.len() ==> !in_class(
            class,
            src[run_end(src, pos, class)],
        ),
    decreases src.len() - pos,
{
    if pos < src.len() && in_class(class, src[pos]) {
        lemma_run_end(src, pos + 1, class);
    }
}

/// Whether the character after the one at `pos` is `c`.
pub open spec fn followed_by(src: Seq<char>, pos: int, c: char) -> bool {
    pos + 1 < src.len() && src[pos + 1] == c
}

/// The punctuation or comparison token that begins at `pos`, with its
/// length, if there is one.
pub open spec fn punctuation(src: Seq<char>, pos: int) -> Option<(TokenKind, int)> {
    let c = src[pos];
    if c == '+' {
        Some((TokenKind::Plus, 1))
    } else if c == '-' {
        Some((TokenKind::Minus, 1))
    } else if c == '*' {
        Some((TokenKind::Star, 1))
    } else if c == '/' {
        Some((TokenKind::Slash, 1))
    } else if c == '(' {
        Some((TokenKind::LeftParen, 1))
    } else if c == ')' {
        Some((TokenKind::RightParen, 1))
    } else if c == '[' {
        Some((TokenKind::LeftBracket, 1))
    } else if c == ']' {
        Some((TokenKind::RightBracket, 1))
    } else if c == '|' {
        Some((TokenKind::Pipe, 1))
    } else if c == ':' {
        Some((TokenKind::Colon, 1))
    } else if c == ';' {
        Some((TokenKind::SemiColon, 1))
    } else if c == ',' {
        Some((TokenKind::Comma, 1))
    } else if c == '{' {
        Some((TokenKind::LeftBrace, 1))
    } else if c == '}' {
        Some((TokenKind::RightBrace, 1))
    } else if c == '@' {
        Some((TokenKind::At, 1))
    } else if c == '=' {
        if followed_by(src, pos, '>') {
            Some((TokenKind::FatArrow, 2))
        } else if followed_by(src, pos, '=') {
            Some((TokenKind::EqualsEquals, 2))
        } else {
            Some((TokenKind::Equals, 1))
        }
    } else if c == '!' {
        if followed_by(src, pos, '=') {
            Some((TokenKind::BangEquals, 2))
        } else {
            None
        }
    } else if c == '<' {
        if followed_by(src, pos, '=') {
            Some((TokenKind::LessThanEquals, 2))
        } else {
            Some((TokenKind::LessThan, 1))
        }
    } else if c == '>' {
        if followed_by(src, pos, '=') {
            Some((TokenKind::GreaterThanEquals, 2))
        } else {
            Some((TokenKind::GreaterThan, 1))
        }
    } else if c == '.' {
        if followed_by(src, pos, '.') {
            Some((TokenKind::DotDot, 2))
        } else {
            None
        }
    } else {
        None
    }
}

/// What the lexer does at one position of the source.
pub ghost enum Scan {
    /// Nothing is emitted; reading goes on at `next`, and `newline` says
    /// whether a line feed was passed.
    Skip { next: int, newline: bool },
    /// A token of `kind` with `text` is emitted; reading goes on at `next`.
    Emit { kind: TokenKind, text: Seq<char>, next: int },
    /// Lexing fails.
    Fail { error: ErrorKindView },
}

/// The scanning rules, in their order of priority, at a position `pos`
/// inside `src`.
pub open spec fn scan(src: Seq<char>, pos: int) -> Scan
    recommends
        0 <= pos < src.len(),
{
    let c = src[pos];
    if is_space(c) {
        Scan::Skip { next: pos + 1, newline: c == '\n' }
    } else if is_digit(c) {
        let whole = run_end(src, pos, CharClass::Digit);
        if whole < src.len() && src[whole] == '.' {
            let fraction = run_end(src, whole + 1, CharClass::Digit);
            Scan::Emit {
                kind: TokenKind::FloatLiteral,
                text: src.subrange(pos, fraction),
                next: fraction,
            }
        } else {
            Scan::Emit { kind: TokenKind::IntegerLiteral, text: src.subrange(pos, whole), next: whole }
        }
    } else if c == '/' && followed_by(src, pos, '/') {
        let end = run_end(src, pos, CharClass::Comment);
        if end < src.len() {
            Scan::Skip { next: end + 1, newline: true }
        } else {
            Scan::Skip { next: end, newline: false }
        }
    } else if let Some((kind, len)) = punctuation(src, pos) {
        Scan::Emit { kind, text: src.subrange(pos, pos + len), next: pos + len }
    } else if c == '"' {
        let end = run_end(src, pos + 1, CharClass::Quoted);
        if end >= src.len() {
            Scan::Fail { error: ErrorKindView::UnterminatedString }
        } else if src[end] == '\n' {
            Scan::Fail { error: ErrorKindView::NewlineInString }
        } else {
            Scan::Emit {
                kind: TokenKind::StringLiteral,
                text: src.subrange(pos + 1, end),
                next: end + 1,
            }
        }
    } else if is_ident_start(c) {
        let end = run_end(src, pos, CharClass::Word);
        let text = src.subrange(pos, end);
        Scan::Emit { kind: keyword_kind(text), text, next: end }
    } else {
        Scan::Fail { error: ErrorKindView::UnexpectedCharacter(c) }
    }
}

/// Every rule that goes on reads at least one character and none beyond
/// the end of the source.
pub proof fn lemma_scan_advances(src: Seq<char>, pos: int)
    requires
        0 <= pos < src.len(),
    ensures
        match scan(src, pos) {
            Scan::Skip { next, .. } => pos < next <= src.len(),
            Scan::Emit { next, .. } => pos < next <= src.len(),
            Scan::Fail { .. } => true,
        },
{
    lemma_run_end(src, pos, CharClass::Digit);
    lemma_run_end(src, pos + 1, CharClass::Digit);
    lemma_run_end(src, pos, CharClass::Comment);
    lemma_run_end(src, pos, CharClass::Word);
    lemma_run_end(src, pos + 1, CharClass::Quoted);
    let whole = run_end(src, pos, CharClass::Digit);
    if whole < src.len() {
        lemma_run_end(src, whole + 1, CharClass::Digit);
    }
}

/// The end-of-input token of `src`.
pub open spec fn eof_token(src: Seq<char>, file: Seq<char>, newline: bool) -> TokenView {
    TokenView {
        kind: TokenKind::EOF,
        text: Seq::empty(),
        loc: location_of(src, file, src.len() as int),
        newline_before: newline,
    }
}

/// A result with the tokens `before` in front of its tokens.
pub open spec fn after(before: Seq<TokenView>, rest: Result<Seq<TokenView>, ErrorView>) -> Result<
    Seq<TokenView>,
    ErrorView,
> {
    match rest {
        Ok(tokens) => Ok(before + tokens),
        Err(e) => Err(e),
    }
}

/// The tokens of `src` from the position `pos` on, where `newline` says
/// whether a line feed was passed since the token before; or the first
/// error. The last token is always the end-of-input token.
pub open spec fn lex_from(src: Seq<char>, file: Seq<char>, pos: int, newline: bool) -> Result<
    Seq<TokenView>,
    ErrorView,
>
    decreases src.len() - pos,
{
    if pos < 0 || pos >= src.len() {
        Ok(seq![eof_token(src, file, newline)])
    } else {
        proof {
            lemma_scan_advances(src, pos);
        }
        match scan(src, pos) {
            Scan::Skip { next, newline: passed } => lex_from(src, file, next, newline || passed),
            Scan::Emit { kind, text, next } => after(
                seq![
                    TokenView {
                        kind,
                        text,
                        loc: location_of(src, file, pos),
                        newline_before: newline,
                    },
                ],
                lex_from(src, file, next, false),
            ),
            Scan::Fail { error } => Err(ErrorView { loc: location_of(src, file, pos), kind: error }),
        }
    }
}

/// The tokens of the source text `src` named `file`, or its first lexical
/// error.
pub open spec fn lex_source(src: Seq<char>, file: Seq<char>) -> Result<Seq<TokenView>, ErrorView> {
    lex_from(src, file, 0, false)
}

} // verus!
