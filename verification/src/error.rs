//! The one error type of the front end: what went wrong, and where.

use vstd::prelude::*;
use vstd::string::*;
use crate::token::{kind_name, location_text, Location, LocationView, TokenKind};

verus! {

/// What a lexical or syntactic error found.
#[derive(Debug, PartialEq, Eq)]
pub enum ErrorKind {
    /// A character that begins no token.
    UnexpectedCharacter(char),
    /// A line break inside a string literal.
    NewlineInString,
    /// The source ended inside a string literal.
    UnterminatedString,
    /// A token of one kind was required and another was found.
    ExpectedToken { expected: TokenKind, found: TokenKind },
    /// A statement was followed by neither a line break, `;` nor the end.
    ExpectedLineEnd { found: TokenKind },
    /// The message of an `assert` must be a string literal.
    ExpectedStringLiteral { found: TokenKind },
    /// `[]` with nothing between the brackets.
    EmptyIndex,
    /// An argument was followed by neither `,` nor `)`.
    ExpectedCloseOrComma { found: TokenKind },
    /// A parenthesized expression was not closed.
    ExpectedClose { found: TokenKind },
    /// The text of an integer literal is no 64-bit signed integer.
    InvalidInteger(String),
    /// The text of a float literal is no floating-point number.
    InvalidFloat(String),
    /// A token that begins no expression.
    UnexpectedToken { found: TokenKind },
}

pub ghost enum ErrorKindView {
    UnexpectedCharacter(char),
    NewlineInString,
    UnterminatedString,
    ExpectedToken { expected: TokenKind, found: TokenKind },
    ExpectedLineEnd { found: TokenKind },
    ExpectedStringLiteral { found: TokenKind },
    EmptyIndex,
    ExpectedCloseOrComma { found: TokenKind },
    ExpectedClose { found: TokenKind },
    InvalidInteger(Seq<char>),
    InvalidFloat(Seq<char>),
    UnexpectedToken { found: TokenKind },
}

impl View for ErrorKind {
    type V = ErrorKindView;

    open spec fn view(&self) -> ErrorKindView {
        match *self {
            ErrorKind::UnexpectedCharacter(c) => ErrorKindView::UnexpectedCharacter(c),
            ErrorKind::NewlineInString => ErrorKindView::NewlineInString,
            ErrorKind::UnterminatedString => ErrorKindView::UnterminatedString,
            ErrorKind::ExpectedToken { expected, found } => ErrorKindView::ExpectedToken {
                expected,
                found,
            },
            ErrorKind::ExpectedLineEnd { found } => ErrorKindView::ExpectedLineEnd { found },
            ErrorKind::ExpectedStringLiteral { found } => ErrorKindView::ExpectedStringLiteral {
                found,
            },
            ErrorKind::EmptyIndex => ErrorKindView::EmptyIndex,
            ErrorKind::ExpectedCloseOrComma { found } => ErrorKindView::ExpectedCloseOrComma {
                found,
            },
            ErrorKind::ExpectedClose { found } => ErrorKindView::ExpectedClose { found },
            ErrorKind::InvalidInteger(text) => ErrorKindView::InvalidInteger(text@),
            ErrorKind::InvalidFloat(text) => ErrorKindView::InvalidFloat(text@),
            ErrorKind::UnexpectedToken { found } => ErrorKindView::UnexpectedToken { found },
        }
    }
}

/// An error of the lexer or of the parser, with the place it was found at.
#[derive(Debug, PartialEq, Eq)]
pub struct Error {
    pub loc: Location,
    pub kind: ErrorKind,
}

pub ghost struct ErrorView {
    pub loc: LocationView,
    pub kind: ErrorKindView,
}

impl View for Error {
    type V = ErrorView;

    open spec fn view(&self) -> ErrorView {
        ErrorView { loc: self.loc@, kind: self.kind@ }
    }
}

/// The message of an error of `kind`.
pub open spec fn message_text(kind: ErrorKindView) -> Seq<char> {
    match kind {
        ErrorKindView::UnexpectedCharacter(c) => "Unexpected character: "@.push(c),
        ErrorKindView::NewlineInString => "Unexpected newline in string literal"@,
        ErrorKindView::UnterminatedString => "Unterminated string literal"@,
        ErrorKindView::ExpectedToken { expected, found } => "Expected token "@ + kind_name(
            expected,
        ) + ", but got "@ + kind_name(found),
        ErrorKindView::ExpectedLineEnd { found } => "Expected line end, but got "@ + kind_name(
            found,
        ),
        ErrorKindView::ExpectedStringLiteral { found } => "Expected string literal, but got "@
            + kind_name(found),
        ErrorKindView::EmptyIndex => "Cannot have empty index"@,
        ErrorKindView::ExpectedCloseOrComma { found } => "Expected `)` or `,` but got "@
            + kind_name(found),
        ErrorKindView::ExpectedClose { found } => "Expected `)` but got "@ + kind_name(found),
        ErrorKindView::InvalidInteger(text) => "Invalid integer literal: "@ + text,
        ErrorKindView::InvalidFloat(text) => "Invalid float literal: "@ + text,
        ErrorKindView::UnexpectedToken { found } => "Unexpected token in parse_atom: "@
            + kind_name(found),
    }
}

/// How an error is shown: its location, a space, and its message.
pub open spec fn error_text(e: ErrorView) -> Seq<char> {
    location_text(e.loc) + seq![' '] + message_text(e.kind)
}

/// `prefix` followed by `rest`.
fn joined(prefix: &str, rest: &str) -> (r: String)
    ensures
        r@ == prefix@ + rest@,
{
    let mut out = String::from_str(prefix);
    out.append(rest);
    out
}

impl ErrorKind {
    /// The message of this error, without its location.
    pub fn message(&self) -> (r: String)
        ensures
            r@ == message_text(self@),
    {
        match self {
            ErrorKind::UnexpectedCharacter(c) => {
                let mut out = String::from_str("Unexpected character: ");
                out.push(*c);
                out
            },
            ErrorKind::NewlineInString => String::from_str("Unexpected newline in string literal"),
            ErrorKind::UnterminatedString => String::from_str("Unterminated string literal"),
            ErrorKind::ExpectedToken { expected, found } => {
                let mut out = joined("Expected token ", expected.name());
                out.append(", but got ");
                out.append(found.name());
                out
            },
            ErrorKind::ExpectedLineEnd { found } => joined(
                "Expected line end, but got ",
                found.name(),
            ),
            ErrorKind::ExpectedStringLiteral { found } => joined(
                "Expected string literal, but got ",
                found.name(),
            ),
            ErrorKind::EmptyIndex => String::from_str("Cannot have empty index"),
            ErrorKind::ExpectedCloseOrComma { found } => joined(
                "Expected `)` or `,` but got ",
                found.name(),
            ),
            ErrorKind::ExpectedClose { found } => joined("Expected `)` but got ", found.name()),
            ErrorKind::InvalidInteger(text) => joined("Invalid integer literal: ", text.as_str()),
            ErrorKind::InvalidFloat(text) => joined("Invalid float literal: ", text.as_str()),
            ErrorKind::UnexpectedToken { found } => joined(
                "Unexpected token in parse_atom: ",
                found.name(),
            ),
        }
    }
}

impl Error {
    /// This error as it is shown: `<filename>:<line>:<column> <message>`.
    pub fn to_string(&self) -> (r: String)
        ensures
            r@ == error_text(self@),
    {
        let mut out = self.loc.to_string();
        out.push(' ');
        let message = self.kind.message();
        out.append(message.as_str());
        assert(out@ =~= error_text(self@));
        out
    }
}

} // verus!
