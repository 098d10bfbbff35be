//! What parsing means: the syntax tree of a token sequence, as a function
//! of the tokens.
//!
//! Every rule takes the tokens and the position of the token it begins at,
//! and gives either what it recognized together with the position after
//! it, or the first error together with the position at which reading
//! stopped. A position at or after the end of the tokens reads as the end
//! of input.

use vstd::prelude::*;
use crate::ast::{boxed, AstView};
use crate::error::{ErrorKindView, ErrorView};
use crate::number::{integer_value, is_float_text};
use crate::token::{LocationView, TokenKind, TokenView};

verus! {

/// Where and why a rule gave up: the error, and the position of the token
/// at which reading stopped.
pub ghost struct Stop {
    pub error: ErrorView,
    pub at: int,
}

/// A tree and the position after it, or where and why reading stopped.
pub type Parsed = Result<(AstView, int), Stop>;

/// A list of trees and the position after it, or where and why reading
/// stopped.
pub type ParsedList = Result<(Seq<AstView>, int), Stop>;

/// A list of names and the position after it, or where and why reading
/// stopped.
pub type ParsedNames = Result<(Seq<Seq<char>>, int), Stop>;

/// An optional tree and the position after it, or where and why reading
/// stopped.
pub type ParsedOption = Result<(Option<AstView>, int), Stop>;

/// The kind of the token at `pos`.
pub open spec fn kind_at(ts: Seq<TokenView>, pos: int) -> TokenKind {
    if 0 <= pos < ts.len() {
        ts[pos].kind
    } else {
        TokenKind::EOF
    }
}

/// The location of the token at `pos`.
pub open spec fn loc_at(ts: Seq<TokenView>, pos: int) -> LocationView {
    ts[pos].loc
}

/// The text of the token at `pos`.
pub open spec fn text_at(ts: Seq<TokenView>, pos: int) -> Seq<char> {
    ts[pos].text
}

/// The position after the token at `pos`. Nothing comes after the end of
/// input.
pub open spec fn advance(ts: Seq<TokenView>, pos: int) -> int {
    if kind_at(ts, pos) == TokenKind::EOF {
        pos
    } else {
        pos + 1
    }
}

/// The error `kind`, found at the token at `pos`.
pub open spec fn error_at(ts: Seq<TokenView>, pos: int, kind: ErrorKindView) -> ErrorView {
    ErrorView { loc: loc_at(ts, pos), kind }
}

/// The error `kind`, found at the token at `pos`, where reading stops.
pub open spec fn stop_at(ts: Seq<TokenView>, pos: int, kind: ErrorKindView) -> Stop {
    Stop { error: error_at(ts, pos, kind), at: pos }
}

/// A token of `kind` is required at `pos`: the position after it, or an
/// error that names both kinds.
pub open spec fn expect(ts: Seq<TokenView>, pos: int, kind: TokenKind) -> Result<int, Stop> {
    if kind_at(ts, pos) == kind {
        Ok(advance(ts, pos))
    } else {
        Err(stop_at(ts, pos, ErrorKindView::ExpectedToken { expected: kind, found: kind_at(ts, pos) }))
    }
}

/// The end of a statement is required at `pos`: a token that a line break
/// precedes, which stays; a `;`, which goes; or the end of input.
pub open spec fn line_end(ts: Seq<TokenView>, pos: int) -> Result<int, Stop> {
    if ts[pos].newline_before {
        Ok(pos)
    } else if kind_at(ts, pos) == TokenKind::SemiColon {
        Ok(pos + 1)
    } else if kind_at(ts, pos) == TokenKind::EOF {
        Ok(pos)
    } else {
        Err(stop_at(ts, pos, ErrorKindView::ExpectedLineEnd { found: kind_at(ts, pos) }))
    }
}

/// `r`, given that it ends after `from` and inside the tokens. Every rule
/// that recognizes something reads at least one token, so this changes no
/// result (the module `progress` proves it of each rule); it is what makes
/// the rules below well-founded.
pub open spec fn onward<T>(ts: Seq<TokenView>, from: int, r: Result<(T, int), Stop>) -> Result<
    (T, int),
    Stop,
> {
    match r {
        Ok((_, p)) => if from < p <= ts.len() {
            r
        } else {
            Err(arbitrary())
        },
        Err(_) => r,
    }
}

/// `r`, given that it ends at or after `from` and inside the tokens; for
/// the rules that may recognize nothing.
pub open spec fn not_before<T>(
    ts: Seq<TokenView>,
    from: int,
    r: Result<(T, int), Stop>,
) -> Result<(T, int), Stop> {
    match r {
        Ok((_, p)) => if from <= p <= ts.len() {
            r
        } else {
            Err(arbitrary())
        },
        Err(_) => r,
    }
}

/// `r`, followed by the end of a statement.
pub open spec fn ended(ts: Seq<TokenView>, r: Parsed) -> Parsed {
    match r {
        Ok((tree, p)) => match line_end(ts, p) {
            Ok(q) => Ok((tree, q)),
            Err(e) => Err(e),
        },
        Err(e) => Err(e),
    }
}

/// The levels of binary operators, from the loosest to the tightest.
pub ghost enum Level {
    Comparison,
    Or,
    And,
    Additive,
    Multiplicative,
}

/// The level that binds next tighter than `level`, if there is one.
pub open spec fn tighter(level: Level) -> Option<Level> {
    match level {
        Level::Comparison => Some(Level::Or),
        Level::Or => Some(Level::And),
        Level::And => Some(Level::Additive),
        Level::Additive => Some(Level::Multiplicative),
        Level::Multiplicative => None,
    }
}

/// How many levels bind at least as tight as `level`.
pub open spec fn height(level: Level) -> nat {
    match level {
        Level::Comparison => 5,
        Level::Or => 4,
        Level::And => 3,
        Level::Additive => 2,
        Level::Multiplicative => 1,
    }
}

/// Whether `kind` is an operator of `level`.
pub open spec fn operator_of(level: Level, kind: TokenKind) -> bool {
    match level {
        Level::Comparison => kind == TokenKind::EqualsEquals || kind == TokenKind::BangEquals
            || kind == TokenKind::LessThan || kind == TokenKind::GreaterThan || kind
            == TokenKind::LessThanEquals || kind == TokenKind::GreaterThanEquals,
        Level::Or => kind == TokenKind::Or,
        Level::And => kind == TokenKind::And,
        Level::Additive => kind == TokenKind::Plus || kind == TokenKind::Minus,
        Level::Multiplicative => kind == TokenKind::Star || kind == TokenKind::Slash,
    }
}

/// The node of the binary operator `kind` at `loc` with the operands
/// `left` and `right`.
pub open spec fn binary(kind: TokenKind, loc: LocationView, left: AstView, right: AstView) -> AstView
    recommends
        exists|level: Level| operator_of(level, kind),
{
    let l = Box::new(left);
    let r = Box::new(right);
    match kind {
        TokenKind::EqualsEquals => AstView::Equals(loc, l, r),
        TokenKind::BangEquals => AstView::NotEquals(loc, l, r),
        TokenKind::LessThan => AstView::LessThan(loc, l, r),
        TokenKind::GreaterThan => AstView::GreaterThan(loc, l, r),
        TokenKind::LessThanEquals => AstView::LessThanEquals(loc, l, r),
        TokenKind::GreaterThanEquals => AstView::GreaterThanEquals(loc, l, r),
        TokenKind::Or => AstView::Or(loc, l, r),
        TokenKind::And => AstView::And(loc, l, r),
        TokenKind::Plus => AstView::Plus(loc, l, r),
        TokenKind::Minus => AstView::Minus(loc, l, r),
        TokenKind::Star => AstView::Multiply(loc, l, r),
        _ => AstView::Divide(loc, l, r),
    }
}

/// The name that a function node declares; empty if it declares none.
pub open spec fn declared_name(function: AstView) -> Seq<char> {
    match function {
        AstView::Function { name: Some(n), .. } => n,
        _ => Seq::empty(),
    }
}

/// Parameter names up to, and without, the token of kind `close`: each an
/// identifier, each optionally followed by a comma. `names` are those
/// already read.
pub open spec fn params(ts: Seq<TokenView>, pos: int, close: TokenKind, names: Seq<Seq<char>>) -> ParsedNames
    decreases ts.len() - pos,
{
    if kind_at(ts, pos) == close {
        Ok((names, pos))
    } else {
        match expect(ts, pos, TokenKind::Identifier) {
            Ok(p) => params(
                ts,
                if kind_at(ts, p) == TokenKind::Comma {
                    p + 1
                } else {
                    p
                },
                close,
                names.push(text_at(ts, pos)),
            ),
            Err(e) => Err(e),
        }
    }
}

/// A parameter list ends where it began or later, at its closing token.
pub proof fn lemma_params_end(ts: Seq<TokenView>, pos: int, close: TokenKind, names: Seq<Seq<char>>)
    requires
        0 <= pos,
    ensures
        match params(ts, pos, close, names) {
            Ok((_, p)) => pos <= p && kind_at(ts, p) == close && (close != TokenKind::EOF ==> p
                < ts.len()),
            Err(_) => true,
        },
    decreases ts.len() - pos,
{
    if kind_at(ts, pos) != close {
        if let Ok(p) = expect(ts, pos, TokenKind::Identifier) {
            lemma_params_end(
                ts,
                if kind_at(ts, p) == TokenKind::Comma {
                    p + 1
                } else {
                    p
                },
                close,
                names.push(text_at(ts, pos)),
            );
        }
    }
}

/// A block: the statements between `{` and `}`, or, for the global block,
/// all statements up to the end of input.
pub open spec fn block(ts: Seq<TokenView>, pos: int, global: bool) -> Parsed
    decreases ts.len() - pos, 20nat,
{
    let opened = if global {
        Ok(pos)
    } else {
        expect(ts, pos, TokenKind::LeftBrace)
    };
    match opened {
        Ok(p) => match statements(ts, p, global, Seq::empty()) {
            Ok((list, q)) => Ok((AstView::Block(loc_at(ts, pos), list), q)),
            Err(e) => Err(e),
        },
        Err(e) => Err(e),
    }
}

/// The statements of a block up to its end: `}`, which goes, or, for the
/// global block, the end of input. `list` holds those already read.
pub open spec fn statements(ts: Seq<TokenView>, pos: int, global: bool, list: Seq<AstView>) -> ParsedList
    decreases ts.len() - pos, 19nat,
{
    if !global && kind_at(ts, pos) == TokenKind::RightBrace {
        Ok((list, pos + 1))
    } else if global && kind_at(ts, pos) == TokenKind::EOF {
        Ok((list, pos))
    } else {
        match onward(ts, pos, statement(ts, pos)) {
            Ok((tree, p)) => statements(ts, p, global, list.push(tree)),
            Err(e) => Err(e),
        }
    }
}

/// The body of a function: `=>` and an expression, which the body
/// returns, or a block. `loc` is the location of the function.
pub open spec fn body(ts: Seq<TokenView>, pos: int, loc: LocationView) -> Parsed
    decreases ts.len() - pos, 21nat,
{
    if kind_at(ts, pos) == TokenKind::FatArrow {
        match expression(ts, pos + 1) {
            Ok((value, p)) => Ok((AstView::Return(loc, Box::new(value)), p)),
            Err(e) => Err(e),
        }
    } else {
        block(ts, pos, false)
    }
}

/// `def` name `(` parameters `)` body, and the end of a statement.
pub open spec fn function(ts: Seq<TokenView>, pos: int) -> Parsed
    decreases ts.len() - pos, 17nat,
{
    match expect(ts, pos, TokenKind::Def) {
        Ok(p1) => match expect(ts, p1, TokenKind::Identifier) {
            Ok(p2) => match expect(ts, p2, TokenKind::LeftParen) {
                Ok(p3) => match params(ts, p3, TokenKind::RightParen, Seq::empty()) {
                    Ok((args, p4)) => {
                        proof {
                            lemma_params_end(ts, p3, TokenKind::RightParen, Seq::empty());
                        }
                        match body(ts, p4 + 1, loc_at(ts, pos)) {
                            Ok((inner, p5)) => ended(
                                ts,
                                Ok(
                                    (
                                        AstView::Function {
                                            loc: loc_at(ts, pos),
                                            name: Some(text_at(ts, p1)),
                                            args,
                                            body: Box::new(inner),
                                        },
                                        p5,
                                    ),
                                ),
                            ),
                            Err(e) => Err(e),
                        }
                    },
                    Err(e) => Err(e),
                },
                Err(e) => Err(e),
            },
            Err(e) => Err(e),
        },
        Err(e) => Err(e),
    }
}

/// `|` parameters `|` body: a function without a name.
pub open spec fn lambda(ts: Seq<TokenView>, pos: int) -> Parsed
    decreases ts.len() - pos, 0nat,
{
    match expect(ts, pos, TokenKind::Pipe) {
        Ok(p1) => match params(ts, p1, TokenKind::Pipe, Seq::empty()) {
            Ok((args, p2)) => {
                proof {
                    lemma_params_end(ts, p1, TokenKind::Pipe, Seq::empty());
                }
                match body(ts, p2 + 1, loc_at(ts, pos)) {
                    Ok((inner, p3)) => Ok(
                        (
                            AstView::Function {
                                loc: loc_at(ts, pos),
                                name: None,
                                args,
                                body: Box::new(inner),
                            },
                            p3,
                        ),
                    ),
                    Err(e) => Err(e),
                }
            },
            Err(e) => Err(e),
        },
        Err(e) => Err(e),
    }
}

/// `let` name `=` expression, and the end of a statement.
pub open spec fn let_statement(ts: Seq<TokenView>, pos: int) -> Parsed
    decreases ts.len() - pos, 17nat,
{
    match expect(ts, pos, TokenKind::Let) {
        Ok(p0) => {
            match expect(ts, p0, TokenKind::Identifier) {
                Ok(p1) => match expect(ts, p1, TokenKind::Equals) {
                    Ok(p2) => match expression(ts, p2) {
                        Ok((value, p3)) => ended(
                            ts,
                            Ok(
                                (
                                    AstView::VarDeclaration(
                                        loc_at(ts, pos),
                                        text_at(ts, p0),
                                        Box::new(value),
                                    ),
                                    p3,
                                ),
                            ),
                        ),
                        Err(e) => Err(e),
                    },
                    Err(e) => Err(e),
                },
                Err(e) => Err(e),
            }
        },
        Err(e) => Err(e),
    }
}

/// `if` condition block, optionally followed by `else` and a block or
/// another `if` statement. The conditional is located at its `if`.
pub open spec fn if_statement(ts: Seq<TokenView>, pos: int) -> Parsed
    decreases ts.len() - pos, 17nat,
{
    match expect(ts, pos, TokenKind::If) {
        Ok(p0) => {
            match onward(ts, p0, expression(ts, p0)) {
                Ok((cond, p1)) => match onward(ts, p1, block(ts, p1, false)) {
                    Ok((then, p2)) => if kind_at(ts, p2) == TokenKind::Else {
                        let otherwise = if kind_at(ts, p2 + 1) == TokenKind::If {
                            statement(ts, p2 + 1)
                        } else {
                            block(ts, p2 + 1, false)
                        };
                        match otherwise {
                            Ok((other, p3)) => Ok(
                                (
                                    AstView::If(
                                        loc_at(ts, pos),
                                        Box::new(cond),
                                        Box::new(then),
                                        Some(Box::new(other)),
                                    ),
                                    p3,
                                ),
                            ),
                            Err(e) => Err(e),
                        }
                    } else {
                        Ok((AstView::If(loc_at(ts, pos), Box::new(cond), Box::new(then), None), p2))
                    },
                    Err(e) => Err(e),
                },
                Err(e) => Err(e),
            }
        },
        Err(e) => Err(e),
    }
}

/// `@` decorator, the end of a statement, a named function, and the end
/// of a statement: the decorator is called with the function, and the
/// result is assigned to the function's name. All three nodes are located
/// at the `@`.
pub open spec fn decorated(ts: Seq<TokenView>, pos: int) -> Parsed
    decreases ts.len() - pos, 17nat,
{
    match expect(ts, pos, TokenKind::At) {
        Ok(p0) => {
            let loc = loc_at(ts, pos);
            match onward(ts, p0, postfix(ts, p0)) {
                Ok((decorator, p1)) => match line_end(ts, p1) {
                    Ok(p2) => ended(
                        ts,
                        match function(ts, p2) {
                            Ok((target, p3)) => Ok(
                                (
                                    AstView::Assignment(
                                        loc,
                                        Box::new(AstView::Variable(loc, declared_name(target))),
                                        Box::new(AstView::Call(loc, Box::new(decorator), seq![target])),
                                    ),
                                    p3,
                                ),
                            ),
                            Err(e) => Err(e),
                        },
                    ),
                    Err(e) => Err(e),
                },
                Err(e) => Err(e),
            }
        },
        Err(e) => Err(e),
    }
}

/// `while` condition block.
pub open spec fn while_statement(ts: Seq<TokenView>, pos: int) -> Parsed
    decreases ts.len() - pos, 17nat,
{
    match expect(ts, pos, TokenKind::While) {
        Ok(p0) => {
            match onward(ts, p0, expression(ts, p0)) {
                Ok((cond, p1)) => match block(ts, p1, false) {
                    Ok((inner, p2)) => Ok(
                        (AstView::While(loc_at(ts, pos), Box::new(cond), Box::new(inner)), p2),
                    ),
                    Err(e) => Err(e),
                },
                Err(e) => Err(e),
            }
        },
        Err(e) => Err(e),
    }
}

/// `for` name `in` expression block.
pub open spec fn for_statement(ts: Seq<TokenView>, pos: int) -> Parsed
    decreases ts.len() - pos, 17nat,
{
    match expect(ts, pos, TokenKind::For) {
        Ok(p0) => {
            match expect(ts, p0, TokenKind::Identifier) {
                Ok(p1) => match expect(ts, p1, TokenKind::In) {
                    Ok(p2) => match onward(ts, p2, expression(ts, p2)) {
                        Ok((iterable, p3)) => match block(ts, p3, false) {
                            Ok((inner, p4)) => Ok(
                                (
                                    AstView::For(
                                        loc_at(ts, pos),
                                        text_at(ts, p0),
                                        Box::new(iterable),
                                        Box::new(inner),
                                    ),
                                    p4,
                                ),
                            ),
                            Err(e) => Err(e),
                        },
                        Err(e) => Err(e),
                    },
                    Err(e) => Err(e),
                },
                Err(e) => Err(e),
            }
        },
        Err(e) => Err(e),
    }
}

/// `return` expression, and the end of a statement.
pub open spec fn return_statement(ts: Seq<TokenView>, pos: int) -> Parsed
    decreases ts.len() - pos, 17nat,
{
    match expect(ts, pos, TokenKind::Return) {
        Ok(p0) => {
            match expression(ts, p0) {
                Ok((value, p1)) => ended(ts, Ok((AstView::Return(loc_at(ts, pos), Box::new(value)), p1))),
                Err(e) => Err(e),
            }
        },
        Err(e) => Err(e),
    }
}

/// The optional message of an `assert`: nothing, or `,` and an expression
/// that begins with a string literal. Only the position after it is kept.
pub open spec fn assert_message(ts: Seq<TokenView>, pos: int) -> Result<int, Stop>
    decreases ts.len() - pos, 17nat,
{
    if kind_at(ts, pos) != TokenKind::Comma {
        Ok(pos)
    } else if kind_at(ts, pos + 1) != TokenKind::StringLiteral {
        Err(
            stop_at(
                ts,
                pos + 1,
                ErrorKindView::ExpectedStringLiteral { found: kind_at(ts, pos + 1) },
            ),
        )
    } else {
        match expression(ts, pos + 1) {
            Ok((_, p)) => Ok(p),
            Err(e) => Err(e),
        }
    }
}

/// `assert` condition, an optional message, and the end of a statement.
/// The node keeps the condition alone.
pub open spec fn assert_statement(ts: Seq<TokenView>, pos: int) -> Parsed
    decreases ts.len() - pos, 17nat,
{
    match expect(ts, pos, TokenKind::Assert) {
        Ok(p0) => match onward(ts, p0, expression(ts, p0)) {
            Ok((cond, p1)) => match assert_message(ts, p1) {
                Ok(p2) => ended(ts, Ok((AstView::Assert(loc_at(ts, pos), Box::new(cond)), p2))),
                Err(e) => Err(e),
            },
            Err(e) => Err(e),
        },
        Err(e) => Err(e),
    }
}

/// One statement, chosen by the kind of its first token; any token that
/// begins no other statement begins an expression, which the end of a
/// statement must follow.
pub open spec fn statement(ts: Seq<TokenView>, pos: int) -> Parsed
    decreases ts.len() - pos, 18nat,
{
    match kind_at(ts, pos) {
        TokenKind::Let => let_statement(ts, pos),
        TokenKind::If => if_statement(ts, pos),
        TokenKind::Def => function(ts, pos),
        TokenKind::At => decorated(ts, pos),
        TokenKind::Continue => ended(ts, Ok((AstView::Continue(loc_at(ts, pos)), pos + 1))),
        TokenKind::Break => ended(ts, Ok((AstView::Break(loc_at(ts, pos)), pos + 1))),
        TokenKind::While => while_statement(ts, pos),
        TokenKind::For => for_statement(ts, pos),
        TokenKind::Return => return_statement(ts, pos),
        TokenKind::Assert => assert_statement(ts, pos),
        _ => ended(ts, expression(ts, pos)),
    }
}

/// An expression.
pub open spec fn expression(ts: Seq<TokenView>, pos: int) -> Parsed
    decreases ts.len() - pos, 15nat,
{
    assignment(ts, pos)
}

/// A comparison, or a comparison, `=` and a comparison.
pub open spec fn assignment(ts: Seq<TokenView>, pos: int) -> Parsed
    decreases ts.len() - pos, 14nat,
{
    match onward(ts, pos, infix(ts, pos, Level::Comparison)) {
        Ok((left, p)) => if kind_at(ts, p) == TokenKind::Equals {
            match infix(ts, p + 1, Level::Comparison) {
                Ok((right, q)) => Ok(
                    (AstView::Assignment(loc_at(ts, p), Box::new(left), Box::new(right)), q),
                ),
                Err(e) => Err(e),
            }
        } else {
            Ok((left, p))
        },
        Err(e) => Err(e),
    }
}

/// An operand of the operators of `level`: an expression of the next
/// tighter level, or a prefix expression at the tightest.
pub open spec fn operand(ts: Seq<TokenView>, pos: int, level: Level) -> Parsed
    decreases ts.len() - pos, 2 + 2 * height(level),
{
    match tighter(level) {
        Some(next) => infix(ts, pos, next),
        None => prefix(ts, pos),
    }
}

/// Operands joined by the operators of `level`, nested to the left.
pub open spec fn infix(ts: Seq<TokenView>, pos: int, level: Level) -> Parsed
    decreases ts.len() - pos, 3 + 2 * height(level),
{
    match onward(ts, pos, operand(ts, pos, level)) {
        Ok((left, p)) => infix_rest(ts, p, level, left),
        Err(e) => Err(e),
    }
}

/// What follows the operands joined so far into `left`: as long as an
/// operator of `level` comes next, one more operand, joined to `left`.
pub open spec fn infix_rest(ts: Seq<TokenView>, pos: int, level: Level, left: AstView) -> Parsed
    decreases ts.len() - pos, 0nat,
{
    if operator_of(level, kind_at(ts, pos)) {
        match onward(ts, pos + 1, operand(ts, pos + 1, level)) {
            Ok((right, p)) => infix_rest(
                ts,
                p,
                level,
                binary(kind_at(ts, pos), loc_at(ts, pos), left, right),
            ),
            Err(e) => Err(e),
        }
    } else {
        Ok((left, pos))
    }
}

/// `not` and a prefix expression, or a postfix expression.
pub open spec fn prefix(ts: Seq<TokenView>, pos: int) -> Parsed
    decreases ts.len() - pos, 3nat,
{
    if kind_at(ts, pos) == TokenKind::Not {
        match prefix(ts, pos + 1) {
            Ok((inner, p)) => Ok((AstView::Not(loc_at(ts, pos), Box::new(inner)), p)),
            Err(e) => Err(e),
        }
    } else {
        postfix(ts, pos)
    }
}

/// An atom and the indexings, slicings, calls and ranges applied to it.
pub open spec fn postfix(ts: Seq<TokenView>, pos: int) -> Parsed
    decreases ts.len() - pos, 2nat,
{
    match onward(ts, pos, atom(ts, pos)) {
        Ok((base, p)) => postfix_rest(ts, p, base),
        Err(e) => Err(e),
    }
}

/// What is applied to `base`, from the left to the right.
pub open spec fn postfix_rest(ts: Seq<TokenView>, pos: int, base: AstView) -> Parsed
    decreases ts.len() - pos, 0nat,
{
    let loc = loc_at(ts, pos);
    match kind_at(ts, pos) {
        TokenKind::LeftBracket => match not_before(ts, pos + 1, slice_value(ts, pos + 1)) {
            Ok((start, p1)) => if kind_at(ts, p1) == TokenKind::RightBracket {
                match start {
                    Some(index) => postfix_rest(
                        ts,
                        p1 + 1,
                        AstView::Index(loc, Box::new(base), Box::new(index)),
                    ),
                    None => Err(Stop { error: error_at(ts, pos, ErrorKindView::EmptyIndex), at: p1 }),
                }
            } else {
                match expect(ts, p1, TokenKind::Colon) {
                    Ok(p2) => match not_before(ts, p2, slice_value(ts, p2)) {
                        Ok((end, p3)) => if kind_at(ts, p3) == TokenKind::RightBracket {
                            postfix_rest(
                                ts,
                                p3 + 1,
                                AstView::Slice {
                                    loc,
                                    lhs: Box::new(base),
                                    start: boxed(start),
                                    end: boxed(end),
                                    step: None,
                                },
                            )
                        } else {
                            match expect(ts, p3, TokenKind::Colon) {
                                Ok(p4) => match not_before(ts, p4, slice_value(ts, p4)) {
                                    Ok((step, p5)) => match expect(
                                        ts,
                                        p5,
                                        TokenKind::RightBracket,
                                    ) {
                                        Ok(p6) => postfix_rest(
                                            ts,
                                            p6,
                                            AstView::Slice {
                                                loc,
                                                lhs: Box::new(base),
                                                start: boxed(start),
                                                end: boxed(end),
                                                step: boxed(step),
                                            },
                                        ),
                                        Err(e) => Err(e),
                                    },
                                    Err(e) => Err(e),
                                },
                                Err(e) => Err(e),
                            }
                        },
                        Err(e) => Err(e),
                    },
                    Err(e) => Err(e),
                }
            },
            Err(e) => Err(e),
        },
        TokenKind::LeftParen => match onward(ts, pos + 1, arguments(ts, pos + 1, Seq::empty())) {
            Ok((args, p)) => postfix_rest(ts, p, AstView::Call(loc, Box::new(base), args)),
            Err(e) => Err(e),
        },
        TokenKind::DotDot => match onward(ts, pos + 1, atom(ts, pos + 1)) {
            Ok((end, p)) => postfix_rest(ts, p, AstView::Range(loc, Box::new(base), Box::new(end))),
            Err(e) => Err(e),
        },
        _ => Ok((base, pos)),
    }
}

/// A bound or the step of a slice: nothing before `:` and `]`, an
/// expression otherwise.
pub open spec fn slice_value(ts: Seq<TokenView>, pos: int) -> ParsedOption
    decreases ts.len() - pos, 16nat,
{
    if kind_at(ts, pos) == TokenKind::Colon || kind_at(ts, pos) == TokenKind::RightBracket {
        Ok((None, pos))
    } else {
        match expression(ts, pos) {
            Ok((value, p)) => Ok((Some(value), p)),
            Err(e) => Err(e),
        }
    }
}

/// The arguments of a call up to `)`, which goes: expressions, each
/// followed by `,` or by the closing `)`. `list` holds those already read.
pub open spec fn arguments(ts: Seq<TokenView>, pos: int, list: Seq<AstView>) -> ParsedList
    decreases ts.len() - pos, 16nat,
{
    if kind_at(ts, pos) == TokenKind::RightParen {
        Ok((list, pos + 1))
    } else {
        match onward(ts, pos, expression(ts, pos)) {
            Ok((value, p)) => if kind_at(ts, p) == TokenKind::Comma {
                arguments(ts, p + 1, list.push(value))
            } else if kind_at(ts, p) == TokenKind::RightParen {
                arguments(ts, p, list.push(value))
            } else {
                Err(
                    stop_at(ts, p, ErrorKindView::ExpectedCloseOrComma { found: kind_at(ts, p) }),
                )
            },
            Err(e) => Err(e),
        }
    }
}

/// A parenthesized expression, a function without a name, a literal, or a
/// variable.
pub open spec fn atom(ts: Seq<TokenView>, pos: int) -> Parsed
    decreases ts.len() - pos, 1nat,
{
    let loc = loc_at(ts, pos);
    let text = text_at(ts, pos);
    match kind_at(ts, pos) {
        TokenKind::LeftParen => match expression(ts, pos + 1) {
            Ok((inner, p)) => if kind_at(ts, p) == TokenKind::RightParen {
                Ok((inner, p + 1))
            } else {
                Err(stop_at(ts, p, ErrorKindView::ExpectedClose { found: kind_at(ts, p) }))
            },
            Err(e) => Err(e),
        },
        TokenKind::Pipe => lambda(ts, pos),
        TokenKind::IntegerLiteral => match integer_value(text) {
            Some(value) => Ok((AstView::IntegerLiteral(loc, value), pos + 1)),
            None => Err(
                Stop { error: error_at(ts, pos, ErrorKindView::InvalidInteger(text)), at: pos + 1 },
            ),
        },
        TokenKind::FloatLiteral => if is_float_text(text) {
            Ok((AstView::FloatLiteral(loc, text), pos + 1))
        } else {
            Err(Stop { error: error_at(ts, pos, ErrorKindView::InvalidFloat(text)), at: pos + 1 })
        },
        TokenKind::StringLiteral => Ok((AstView::StringLiteral(loc, text), pos + 1)),
        TokenKind::Identifier => Ok((AstView::Variable(loc, text), pos + 1)),
        TokenKind::True => Ok((AstView::BooleanLiteral(loc, true), pos + 1)),
        TokenKind::False => Ok((AstView::BooleanLiteral(loc, false), pos + 1)),
        TokenKind::Nothing => Ok((AstView::Nothing(loc), pos + 1)),
        found => Err(stop_at(ts, pos, ErrorKindView::UnexpectedToken { found })),
    }
}

/// The whole program: the global block.
pub open spec fn program(ts: Seq<TokenView>, pos: int) -> Parsed {
    block(ts, pos, true)
}

} // verus!
