//! Every rule of the grammar that recognizes something reads at least one
//! token and ends inside the tokens. The grammar's definition asks for
//! this where one rule follows another; here it is proved of every rule,
//! so what the definition asks for always holds.

use vstd::prelude::*;
use crate::ast::AstView;
use crate::grammar;
use crate::grammar::{
    expect, kind_at, lemma_params_end, line_end, not_before, onward, Level, Stop,
};
use crate::token::{LocationView, TokenKind, TokenView};

verus! {

/// `r` ends after `from` and inside the tokens, if it ends at all.
pub open spec fn advances<T>(ts: Seq<TokenView>, from: int, r: Result<(T, int), Stop>) -> bool {
    onward(ts, from, r) == r
}

/// `r` ends at `from` or after it, and inside the tokens, if it ends at
/// all.
pub open spec fn stays<T>(ts: Seq<TokenView>, from: int, r: Result<(T, int), Stop>) -> bool {
    not_before(ts, from, r) == r
}

/// An atom reads at least its first token.
pub proof fn atom_advances(ts: Seq<TokenView>, pos: int)
    requires
        0 <= pos,
    ensures
        advances(ts, pos, grammar::atom(ts, pos)),
    decreases ts.len() - pos, 1nat,
{
    if kind_at(ts, pos) == TokenKind::LeftParen {
        expression_advances(ts, pos + 1);
    } else if kind_at(ts, pos) == TokenKind::Pipe {
        lambda_advances(ts, pos);
    }
}

/// The body of a function reads at least one token.
pub proof fn body_advances(ts: Seq<TokenView>, pos: int, loc: LocationView)
    requires
        0 <= pos,
    ensures
        advances(ts, pos, grammar::body(ts, pos, loc)),
    decreases ts.len() - pos, 21nat,
{
    if kind_at(ts, pos) == TokenKind::FatArrow {
        expression_advances(ts, pos + 1);
    } else {
        block_advances(ts, pos, false);
    }
}

/// A function without a name reads at least its first `|`.
pub proof fn lambda_advances(ts: Seq<TokenView>, pos: int)
    requires
        0 <= pos,
    ensures
        advances(ts, pos, grammar::lambda(ts, pos)),
    decreases ts.len() - pos, 0nat,
{
    if let Ok(p1) = expect(ts, pos, TokenKind::Pipe) {
        lemma_params_end(ts, p1, TokenKind::Pipe, Seq::empty());
        if let Ok((_, p2)) = grammar::params(ts, p1, TokenKind::Pipe, Seq::empty()) {
            body_advances(ts, p2 + 1, grammar::loc_at(ts, pos));
        }
    }
}

/// A named function reads at least its `def`.
pub proof fn function_advances(ts: Seq<TokenView>, pos: int)
    requires
        0 <= pos,
    ensures
        advances(ts, pos, grammar::function(ts, pos)),
    decreases ts.len() - pos, 17nat,
{
    if let Ok(p1) = expect(ts, pos, TokenKind::Def) {
        if let Ok(p2) = expect(ts, p1, TokenKind::Identifier) {
            if let Ok(p3) = expect(ts, p2, TokenKind::LeftParen) {
                lemma_params_end(ts, p3, TokenKind::RightParen, Seq::empty());
                if let Ok((_, p4)) = grammar::params(ts, p3, TokenKind::RightParen, Seq::empty()) {
                    body_advances(ts, p4 + 1, grammar::loc_at(ts, pos));
                }
            }
        }
    }
}

/// A block in braces reads at least its braces; the global block may be
/// empty.
pub proof fn block_advances(ts: Seq<TokenView>, pos: int, global: bool)
    requires
        0 <= pos,
        global ==> pos <= ts.len(),
    ensures
        stays(ts, pos, grammar::block(ts, pos, global)),
        !global ==> advances(ts, pos, grammar::block(ts, pos, global)),
    decreases ts.len() - pos, 20nat,
{
    if global {
        statements_stay(ts, pos, global, Seq::empty());
    } else if let Ok(p) = expect(ts, pos, TokenKind::LeftBrace) {
        statements_stay(ts, p, global, Seq::empty());
    }
}

/// The statements of a block end where they began or later.
pub proof fn statements_stay(ts: Seq<TokenView>, pos: int, global: bool, list: Seq<AstView>)
    requires
        0 <= pos <= ts.len(),
    ensures
        stays(ts, pos, grammar::statements(ts, pos, global, list)),
    decreases ts.len() - pos, 19nat,
{
    if !global && kind_at(ts, pos) == TokenKind::RightBrace {
    } else if global && kind_at(ts, pos) == TokenKind::EOF {
    } else {
        statement_advances(ts, pos);
        if let Ok((tree, p)) = onward(ts, pos, grammar::statement(ts, pos)) {
            statements_stay(ts, p, global, list.push(tree));
        }
    }
}

/// A `let` statement reads at least its keyword.
pub proof fn let_advances(ts: Seq<TokenView>, pos: int)
    requires
        0 <= pos,
    ensures
        advances(ts, pos, grammar::let_statement(ts, pos)),
    decreases ts.len() - pos, 17nat,
{
    if let Ok(p0) = expect(ts, pos, TokenKind::Let) {
        if let Ok(p1) = expect(ts, p0, TokenKind::Identifier) {
            if let Ok(p2) = expect(ts, p1, TokenKind::Equals) {
                expression_advances(ts, p2);
            }
        }
    }
}

/// An `if` statement reads at least its keyword.
pub proof fn if_advances(ts: Seq<TokenView>, pos: int)
    requires
        0 <= pos,
    ensures
        advances(ts, pos, grammar::if_statement(ts, pos)),
    decreases ts.len() - pos, 17nat,
{
    if let Ok(p0) = expect(ts, pos, TokenKind::If) {
        expression_advances(ts, p0);
        if let Ok((_, p1)) = onward(ts, p0, grammar::expression(ts, p0)) {
            block_advances(ts, p1, false);
            if let Ok((_, p2)) = onward(ts, p1, grammar::block(ts, p1, false)) {
                if kind_at(ts, p2) == TokenKind::Else {
                    if kind_at(ts, p2 + 1) == TokenKind::If {
                        statement_advances(ts, p2 + 1);
                    } else {
                        block_advances(ts, p2 + 1, false);
                    }
                }
            }
        }
    }
}

/// A decorated function reads at least its `@`.
pub proof fn decorated_advances(ts: Seq<TokenView>, pos: int)
    requires
        0 <= pos,
    ensures
        advances(ts, pos, grammar::decorated(ts, pos)),
    decreases ts.len() - pos, 17nat,
{
    if let Ok(p0) = expect(ts, pos, TokenKind::At) {
        postfix_advances(ts, p0);
        if let Ok((_, p1)) = onward(ts, p0, grammar::postfix(ts, p0)) {
            if let Ok(p2) = line_end(ts, p1) {
                function_advances(ts, p2);
            }
        }
    }
}

/// A `while` statement reads at least its keyword.
pub proof fn while_advances(ts: Seq<TokenView>, pos: int)
    requires
        0 <= pos,
    ensures
        advances(ts, pos, grammar::while_statement(ts, pos)),
    decreases ts.len() - pos, 17nat,
{
    if let Ok(p0) = expect(ts, pos, TokenKind::While) {
        expression_advances(ts, p0);
        if let Ok((_, p1)) = onward(ts, p0, grammar::expression(ts, p0)) {
            block_advances(ts, p1, false);
        }
    }
}

/// A `for` statement reads at least its keyword.
pub proof fn for_advances(ts: Seq<TokenView>, pos: int)
    requires
        0 <= pos,
    ensures
        advances(ts, pos, grammar::for_statement(ts, pos)),
    decreases ts.len() - pos, 17nat,
{
    if let Ok(p0) = expect(ts, pos, TokenKind::For) {
        if let Ok(p1) = expect(ts, p0, TokenKind::Identifier) {
            if let Ok(p2) = expect(ts, p1, TokenKind::In) {
                expression_advances(ts, p2);
                if let Ok((_, p3)) = onward(ts, p2, grammar::expression(ts, p2)) {
                    block_advances(ts, p3, false);
                }
            }
        }
    }
}

/// A `return` statement reads at least its keyword.
pub proof fn return_advances(ts: Seq<TokenView>, pos: int)
    requires
        0 <= pos,
    ensures
        advances(ts, pos, grammar::return_statement(ts, pos)),
    decreases ts.len() - pos, 17nat,
{
    if let Ok(p0) = expect(ts, pos, TokenKind::Return) {
        expression_advances(ts, p0);
    }
}

/// The message of an `assert` may be missing.
pub proof fn assert_message_stays(ts: Seq<TokenView>, pos: int)
    requires
        0 <= pos <= ts.len(),
    ensures
        match grammar::assert_message(ts, pos) {
            Ok(p) => pos <= p <= ts.len(),
            Err(_) => true,
        },
    decreases ts.len() - pos, 17nat,
{
    if kind_at(ts, pos) == TokenKind::Comma && kind_at(ts, pos + 1) == TokenKind::StringLiteral {
        expression_advances(ts, pos + 1);
    }
}

/// An `assert` statement reads at least its keyword.
pub proof fn assert_advances(ts: Seq<TokenView>, pos: int)
    requires
        0 <= pos,
    ensures
        advances(ts, pos, grammar::assert_statement(ts, pos)),
    decreases ts.len() - pos, 17nat,
{
    if let Ok(p0) = expect(ts, pos, TokenKind::Assert) {
        expression_advances(ts, p0);
        if let Ok((_, p1)) = onward(ts, p0, grammar::expression(ts, p0)) {
            assert_message_stays(ts, p1);
        }
    }
}

/// A statement reads at least one token.
pub proof fn statement_advances(ts: Seq<TokenView>, pos: int)
    requires
        0 <= pos,
    ensures
        advances(ts, pos, grammar::statement(ts, pos)),
    decreases ts.len() - pos, 18nat,
{
    match kind_at(ts, pos) {
        TokenKind::Let => let_advances(ts, pos),
        TokenKind::If => if_advances(ts, pos),
        TokenKind::Def => function_advances(ts, pos),
        TokenKind::At => decorated_advances(ts, pos),
        TokenKind::Continue => {},
        TokenKind::Break => {},
        TokenKind::While => while_advances(ts, pos),
        TokenKind::For => for_advances(ts, pos),
        TokenKind::Return => return_advances(ts, pos),
        TokenKind::Assert => assert_advances(ts, pos),
        _ => expression_advances(ts, pos),
    }
}

/// An expression reads at least one token.
pub proof fn expression_advances(ts: Seq<TokenView>, pos: int)
    requires
        0 <= pos,
    ensures
        advances(ts, pos, grammar::expression(ts, pos)),
    decreases ts.len() - pos, 15nat,
{
    assignment_advances(ts, pos);
}

/// An assignment reads at least one token.
pub proof fn assignment_advances(ts: Seq<TokenView>, pos: int)
    requires
        0 <= pos,
    ensures
        advances(ts, pos, grammar::assignment(ts, pos)),
    decreases ts.len() - pos, 14nat,
{
    infix_advances(ts, pos, Level::Comparison);
    if let Ok((_, p)) = onward(ts, pos, grammar::infix(ts, pos, Level::Comparison)) {
        if kind_at(ts, p) == TokenKind::Equals {
            infix_advances(ts, p + 1, Level::Comparison);
        }
    }
}

/// An operand reads at least one token.
pub proof fn operand_advances(ts: Seq<TokenView>, pos: int, level: Level)
    requires
        0 <= pos,
    ensures
        advances(ts, pos, grammar::operand(ts, pos, level)),
    decreases ts.len() - pos, 2 + 2 * grammar::height(level),
{
    match grammar::tighter(level) {
        Some(next) => infix_advances(ts, pos, next),
        None => prefix_advances(ts, pos),
    }
}

/// Operands joined by operators read at least one token.
pub proof fn infix_advances(ts: Seq<TokenView>, pos: int, level: Level)
    requires
        0 <= pos,
    ensures
        advances(ts, pos, grammar::infix(ts, pos, level)),
    decreases ts.len() - pos, 3 + 2 * grammar::height(level),
{
    operand_advances(ts, pos, level);
    if let Ok((left, p)) = onward(ts, pos, grammar::operand(ts, pos, level)) {
        infix_rest_stays(ts, p, level, left);
    }
}

/// What follows the operands joined so far may be nothing.
pub proof fn infix_rest_stays(ts: Seq<TokenView>, pos: int, level: Level, left: AstView)
    requires
        0 <= pos <= ts.len(),
    ensures
        stays(ts, pos, grammar::infix_rest(ts, pos, level, left)),
    decreases ts.len() - pos, 0nat,
{
    if grammar::operator_of(level, kind_at(ts, pos)) {
        operand_advances(ts, pos + 1, level);
        if let Ok((right, p)) = onward(ts, pos + 1, grammar::operand(ts, pos + 1, level)) {
            infix_rest_stays(
                ts,
                p,
                level,
                grammar::binary(kind_at(ts, pos), grammar::loc_at(ts, pos), left, right),
            );
        }
    }
}

/// A prefix expression reads at least one token.
pub proof fn prefix_advances(ts: Seq<TokenView>, pos: int)
    requires
        0 <= pos,
    ensures
        advances(ts, pos, grammar::prefix(ts, pos)),
    decreases ts.len() - pos, 3nat,
{
    if kind_at(ts, pos) == TokenKind::Not {
        prefix_advances(ts, pos + 1);
    } else {
        postfix_advances(ts, pos);
    }
}

/// A postfix expression reads at least its atom.
pub proof fn postfix_advances(ts: Seq<TokenView>, pos: int)
    requires
        0 <= pos,
    ensures
        advances(ts, pos, grammar::postfix(ts, pos)),
    decreases ts.len() - pos, 2nat,
{
    atom_advances(ts, pos);
    if let Ok((base, p)) = onward(ts, pos, grammar::atom(ts, pos)) {
        postfix_rest_stays(ts, p, base);
    }
}

/// A bound of a slice may be missing.
pub proof fn slice_value_stays(ts: Seq<TokenView>, pos: int)
    requires
        0 <= pos <= ts.len(),
    ensures
        stays(ts, pos, grammar::slice_value(ts, pos)),
    decreases ts.len() - pos, 16nat,
{
    if kind_at(ts, pos) != TokenKind::Colon && kind_at(ts, pos) != TokenKind::RightBracket {
        expression_advances(ts, pos);
    }
}

/// The arguments of a call read at least the closing `)`.
pub proof fn arguments_advance(ts: Seq<TokenView>, pos: int, list: Seq<AstView>)
    requires
        0 <= pos,
    ensures
        advances(ts, pos, grammar::arguments(ts, pos, list)),
    decreases ts.len() - pos, 16nat,
{
    if kind_at(ts, pos) != TokenKind::RightParen {
        expression_advances(ts, pos);
        if let Ok((value, p)) = onward(ts, pos, grammar::expression(ts, pos)) {
            if kind_at(ts, p) == TokenKind::Comma {
                arguments_advance(ts, p + 1, list.push(value));
            } else if kind_at(ts, p) == TokenKind::RightParen {
                arguments_advance(ts, p, list.push(value));
            }
        }
    }
}

/// What is applied to an atom may be nothing.
pub proof fn postfix_rest_stays(ts: Seq<TokenView>, pos: int, base: AstView)
    requires
        0 <= pos <= ts.len(),
    ensures
        stays(ts, pos, grammar::postfix_rest(ts, pos, base)),
    decreases ts.len() - pos, 0nat,
{
    let loc = grammar::loc_at(ts, pos);
    match kind_at(ts, pos) {
        TokenKind::LeftBracket => {
            slice_value_stays(ts, pos + 1);
            if let Ok((start, p1)) = not_before(ts, pos + 1, grammar::slice_value(ts, pos + 1)) {
                if kind_at(ts, p1) == TokenKind::RightBracket {
                    if let Some(index) = start {
                        postfix_rest_stays(
                            ts,
                            p1 + 1,
                            AstView::Index(loc, Box::new(base), Box::new(index)),
                        );
                    }
                } else if let Ok(p2) = expect(ts, p1, TokenKind::Colon) {
                    slice_value_stays(ts, p2);
                    if let Ok((end, p3)) = not_before(ts, p2, grammar::slice_value(ts, p2)) {
                        if kind_at(ts, p3) == TokenKind::RightBracket {
                            postfix_rest_stays(
                                ts,
                                p3 + 1,
                                AstView::Slice {
                                    loc,
                                    lhs: Box::new(base),
                                    start: crate::ast::boxed(start),
                                    end: crate::ast::boxed(end),
                                    step: None,
                                },
                            );
                        } else if let Ok(p4) = expect(ts, p3, TokenKind::Colon) {
                            slice_value_stays(ts, p4);
                            if let Ok((step, p5)) = not_before(
                                ts,
                                p4,
                                grammar::slice_value(ts, p4),
                            ) {
                                if let Ok(p6) = expect(ts, p5, TokenKind::RightBracket) {
                                    postfix_rest_stays(
                                        ts,
                                        p6,
                                        AstView::Slice {
                                            loc,
                                            lhs: Box::new(base),
                                            start: crate::ast::boxed(start),
                                            end: crate::ast::boxed(end),
                                            step: crate::ast::boxed(step),
                                        },
                                    );
                                }
                            }
                        }
                    }
                }
            }
        },
        TokenKind::LeftParen => {
            arguments_advance(ts, pos + 1, Seq::empty());
            if let Ok((args, p)) = onward(ts, pos + 1, grammar::arguments(ts, pos + 1, Seq::empty())) {
                postfix_rest_stays(ts, p, AstView::Call(loc, Box::new(base), args));
            }
        },
        TokenKind::DotDot => {
            atom_advances(ts, pos + 1);
            if let Ok((end, p)) = onward(ts, pos + 1, grammar::atom(ts, pos + 1)) {
                postfix_rest_stays(ts, p, AstView::Range(loc, Box::new(base), Box::new(end)));
            }
        },
        _ => {},
    }
}

/// A program that parses ends at the end of input that the parser was at
/// or that lay ahead of it.
pub proof fn program_stays(ts: Seq<TokenView>, pos: int)
    requires
        0 <= pos <= ts.len(),
    ensures
        stays(ts, pos, grammar::program(ts, pos)),
{
    block_advances(ts, pos, true);
}

} // verus!
