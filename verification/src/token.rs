//! Source locations and tokens.

use vstd::prelude::*;
use vstd::string::*;
use crate::chars::{decode, spells};
use crate::number::{decimal_text, push_decimal};

verus! {

/// A position in a named source text. Lines and columns count from 1.
#[derive(Debug, PartialEq, Eq)]
pub struct Location {
    pub line: usize,
    pub column: usize,
    pub filename: String,
}

pub ghost struct LocationView {
    pub line: nat,
    pub column: nat,
    pub filename: Seq<char>,
}

impl View for Location {
    type V = LocationView;

    open spec fn view(&self) -> LocationView {
        LocationView { line: self.line as nat, column: self.column as nat, filename: self.filename@ }
    }
}

/// How diagnostics spell a location: the name of the source, the line and
/// the column, with `:` between them.
pub open spec fn location_text(loc: LocationView) -> Seq<char> {
    loc.filename + seq![':'] + decimal_text(loc.line) + seq![':'] + decimal_text(loc.column)
}

impl Location {
    /// This location, as diagnostics spell it.
    pub fn to_string(&self) -> (r: String)
        ensures
            r@ == location_text(self@),
    {
        let mut out = self.filename.clone();
        out.push(':');
        push_decimal(&mut out, self.line);
        out.push(':');
        push_decimal(&mut out, self.column);
        assert(out@ =~= location_text(self@));
        out
    }
}

impl Clone for Location {
    fn clone(&self) -> (r: Self)
        ensures
            r == *self,
    {
        Location { line: self.line, column: self.column, filename: self.filename.clone() }
    }
}

/// The closed set of token kinds.
#[derive(Clone, Copy, Debug, PartialEq, Eq, Structural)]
pub enum TokenKind {
    IntegerLiteral,
    FloatLiteral,
    StringLiteral,
    True,
    False,
    Nothing,
    Identifier,
    Let,
    If,
    Else,
    Def,
    Continue,
    Break,
    While,
    For,
    In,
    Return,
    Assert,
    And,
    Or,
    Not,
    Plus,
    Minus,
    Star,
    Slash,
    LeftParen,
    RightParen,
    LeftBracket,
    RightBracket,
    Pipe,
    Colon,
    Equals,
    FatArrow,
    SemiColon,
    Comma,
    LeftBrace,
    RightBrace,
    At,
    DotDot,
    EqualsEquals,
    BangEquals,
    LessThan,
    GreaterThan,
    LessThanEquals,
    GreaterThanEquals,
    EOF,
}

/// The name of a token kind, as diagnostics spell it.
pub open spec fn kind_name(kind: TokenKind) -> Seq<char> {
    match kind {
        TokenKind::IntegerLiteral => "IntegerLiteral"@,
        TokenKind::FloatLiteral => "FloatLiteral"@,
        TokenKind::StringLiteral => "StringLiteral"@,
        TokenKind::True => "True"@,
        TokenKind::False => "False"@,
        TokenKind::Nothing => "Nothing"@,
        TokenKind::Identifier => "Identifier"@,
        TokenKind::Let => "Let"@,
        TokenKind::If => "If"@,
        TokenKind::Else => "Else"@,
        TokenKind::Def => "Def"@,
        TokenKind::Continue => "Continue"@,
        TokenKind::Break => "Break"@,
        TokenKind::While => "While"@,
        TokenKind::For => "For"@,
        TokenKind::In => "In"@,
        TokenKind::Return => "Return"@,
        TokenKind::Assert => "Assert"@,
        TokenKind::And => "And"@,
        TokenKind::Or => "Or"@,
        TokenKind::Not => "Not"@,
        TokenKind::Plus => "Plus"@,
        TokenKind::Minus => "Minus"@,
        TokenKind::Star => "Star"@,
        TokenKind::Slash => "Slash"@,
        TokenKind::LeftParen => "LeftParen"@,
        TokenKind::RightParen => "RightParen"@,
        TokenKind::LeftBracket => "LeftBracket"@,
        TokenKind::RightBracket => "RightBracket"@,
        TokenKind::Pipe => "Pipe"@,
        TokenKind::Colon => "Colon"@,
        TokenKind::Equals => "Equals"@,
        TokenKind::FatArrow => "FatArrow"@,
        TokenKind::SemiColon => "SemiColon"@,
        TokenKind::Comma => "Comma"@,
        TokenKind::LeftBrace => "LeftBrace"@,
        TokenKind::RightBrace => "RightBrace"@,
        TokenKind::At => "At"@,
        TokenKind::DotDot => "DotDot"@,
        TokenKind::EqualsEquals => "EqualsEquals"@,
        TokenKind::BangEquals => "BangEquals"@,
        TokenKind::LessThan => "LessThan"@,
        TokenKind::GreaterThan => "GreaterThan"@,
        TokenKind::LessThanEquals => "LessThanEquals"@,
        TokenKind::GreaterThanEquals => "GreaterThanEquals"@,
        TokenKind::EOF => "EOF"@,
    }
}

impl TokenKind {
    /// The name of this kind, as diagnostics spell it.
    pub fn name(&self) -> (r: &'static str)
        ensures
            r@ == kind_name(*self),
    {
        match *self {
            TokenKind::IntegerLiteral => "IntegerLiteral",
            TokenKind::FloatLiteral => "FloatLiteral",
            TokenKind::StringLiteral => "StringLiteral",
            TokenKind::True => "True",
            TokenKind::False => "False",
            TokenKind::Nothing => "Nothing",
            TokenKind::Identifier => "Identifier",
            TokenKind::Let => "Let",
            TokenKind::If => "If",
            TokenKind::Else => "Else",
            TokenKind::Def => "Def",
            TokenKind::Continue => "Continue",
            TokenKind::Break => "Break",
            TokenKind::While => "While",
            TokenKind::For => "For",
            TokenKind::In => "In",
            TokenKind::Return => "Return",
            TokenKind::Assert => "Assert",
            TokenKind::And => "And",
            TokenKind::Or => "Or",
            TokenKind::Not => "Not",
            TokenKind::Plus => "Plus",
            TokenKind::Minus => "Minus",
            TokenKind::Star => "Star",
            TokenKind::Slash => "Slash",
            TokenKind::LeftParen => "LeftParen",
            TokenKind::RightParen => "RightParen",
            TokenKind::LeftBracket => "LeftBracket",
            TokenKind::RightBracket => "RightBracket",
            TokenKind::Pipe => "Pipe",
            TokenKind::Colon => "Colon",
            TokenKind::Equals => "Equals",
            TokenKind::FatArrow => "FatArrow",
            TokenKind::SemiColon => "SemiColon",
            TokenKind::Comma => "Comma",
            TokenKind::LeftBrace => "LeftBrace",
            TokenKind::RightBrace => "RightBrace",
            TokenKind::At => "At",
            TokenKind::DotDot => "DotDot",
            TokenKind::EqualsEquals => "EqualsEquals",
            TokenKind::BangEquals => "BangEquals",
            TokenKind::LessThan => "LessThan",
            TokenKind::GreaterThan => "GreaterThan",
            TokenKind::LessThanEquals => "LessThanEquals",
            TokenKind::GreaterThanEquals => "GreaterThanEquals",
            TokenKind::EOF => "EOF",
        }
    }
}

/// The kind of the token that a maximal run of identifier characters makes:
/// the keyword that it spells, or an identifier.
pub open spec fn keyword_kind(text: Seq<char>) -> TokenKind {
    if text == "let"@ {
        TokenKind::Let
    } else if text == "if"@ {
        TokenKind::If
    } else if text == "else"@ {
        TokenKind::Else
    } else if text == "def"@ {
        TokenKind::Def
    } else if text == "continue"@ {
        TokenKind::Continue
    } else if text == "break"@ {
        TokenKind::Break
    } else if text == "while"@ {
        TokenKind::While
    } else if text == "for"@ {
        TokenKind::For
    } else if text == "in"@ {
        TokenKind::In
    } else if text == "return"@ {
        TokenKind::Return
    } else if text == "assert"@ {
        TokenKind::Assert
    } else if text == "and"@ {
        TokenKind::And
    } else if text == "or"@ {
        TokenKind::Or
    } else if text == "not"@ {
        TokenKind::Not
    } else if text == "true"@ {
        TokenKind::True
    } else if text == "false"@ {
        TokenKind::False
    } else if text == "nothing"@ {
        TokenKind::Nothing
    } else {
        TokenKind::Identifier
    }
}

/// Classifies the text of an identifier-shaped token.
pub fn classify(word: &Vec<char>) -> (kind: TokenKind)
    ensures
        kind == keyword_kind(word@),
{
    if spells(word, "let") {
        TokenKind::Let
    } else if spells(word, "if") {
        TokenKind::If
    } else if spells(word, "else") {
        TokenKind::Else
    } else if spells(word, "def") {
        TokenKind::Def
    } else if spells(word, "continue") {
        TokenKind::Continue
    } else if spells(word, "break") {
        TokenKind::Break
    } else if spells(word, "while") {
        TokenKind::While
    } else if spells(word, "for") {
        TokenKind::For
    } else if spells(word, "in") {
        TokenKind::In
    } else if spells(word, "return") {
        TokenKind::Return
    } else if spells(word, "assert") {
        TokenKind::Assert
    } else if spells(word, "and") {
        TokenKind::And
    } else if spells(word, "or") {
        TokenKind::Or
    } else if spells(word, "not") {
        TokenKind::Not
    } else if spells(word, "true") {
        TokenKind::True
    } else if spells(word, "false") {
        TokenKind::False
    } else if spells(word, "nothing") {
        TokenKind::Nothing
    } else {
        TokenKind::Identifier
    }
}

/// The smallest lexical unit: a kind, the text it was read from, where it
/// began, and whether a line break separates it from the token before it.
#[derive(Debug, PartialEq, Eq)]
pub struct Token {
    pub kind: TokenKind,
    pub text: String,
    pub loc: Location,
    pub newline_before: bool,
}

pub ghost struct TokenView {
    pub kind: TokenKind,
    pub text: Seq<char>,
    pub loc: LocationView,
    pub newline_before: bool,
}

impl View for Token {
    type V = TokenView;

    open spec fn view(&self) -> TokenView {
        TokenView {
            kind: self.kind,
            text: self.text@,
            loc: self.loc@,
            newline_before: self.newline_before,
        }
    }
}

impl Clone for Token {
    fn clone(&self) -> (r: Self)
        ensures
            r == *self,
    {
        Token {
            kind: self.kind,
            text: self.text.clone(),
            loc: self.loc.clone(),
            newline_before: self.newline_before,
        }
    }
}

/// The views of a sequence of tokens, in order.
pub open spec fn token_views(tokens: Seq<Token>) -> Seq<TokenView> {
    Seq::new(tokens.len(), |i: int| tokens[i]@)
}

impl Token {
    /// A token that no line break precedes.
    pub fn new(kind: TokenKind, loc: Location, text: String) -> (r: Token)
        ensures
            r@ == (TokenView { kind, text: text@, loc: loc@, newline_before: false }),
    {
        Token { kind, text, loc, newline_before: false }
    }

    /// The keyword or identifier token that `text` spells.
    pub fn from_str(text: String, loc: Location) -> (r: Token)
        ensures
            r@ == (TokenView {
                kind: keyword_kind(text@),
                text: text@,
                loc: loc@,
                newline_before: false,
            }),
    {
        let word = decode(text.as_str());
        let kind = classify(&word);
        Token { kind, text, loc, newline_before: false }
    }
}

} // verus!
