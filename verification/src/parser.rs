//! The parser: recursive descent over a token sequence, one function for
//! each rule of the grammar.

use vstd::prelude::*;
use std::sync::Arc;
use crate::ast::{
    lemma_strings_push, lemma_trees_push, optional_tree, string_views, trees_of, AstView, AST,
};
use crate::error::{Error, ErrorKind};
use crate::grammar::{
    advance, arguments, assert_message, assert_statement, assignment, atom, block, body,
    declared_name, decorated, error_at, expect, expression, for_statement, function,
    if_statement, infix, infix_rest, kind_at, lambda, let_statement, line_end, loc_at, operand,
    params, postfix, postfix_rest, prefix, program, return_statement, slice_value, statement,
    statements, text_at, while_statement, Level, Parsed, Stop,
};
use crate::number::{is_float, parse_integer};
use crate::token::{token_views, Location, Token, TokenKind, TokenView};

verus! {

/// Whether one of the tokens is the end of input.
pub open spec fn has_eof(ts: Seq<TokenView>) -> bool {
    exists|i: int| 0 <= i < ts.len() && (#[trigger] ts[i]).kind == TokenKind::EOF
}

/// Whether the end of input is at `pos` or after it.
pub open spec fn eof_ahead(ts: Seq<TokenView>, pos: int) -> bool
    decreases ts.len() - pos,
{
    0 <= pos < ts.len() && (ts[pos].kind == TokenKind::EOF || eof_ahead(ts, pos + 1))
}

pub proof fn lemma_eof_ahead(ts: Seq<TokenView>, pos: int, at: int)
    requires
        0 <= pos <= at < ts.len(),
        ts[at].kind == TokenKind::EOF,
    ensures
        eof_ahead(ts, pos),
    decreases at - pos,
{
    if pos < at {
        lemma_eof_ahead(ts, pos + 1, at);
    }
}

/// An operand of a level is an expression of the next tighter level.
pub proof fn lemma_operand(ts: Seq<TokenView>, pos: int, level: Level)
    ensures
        operand(ts, pos, level) == match level {
            Level::Comparison => infix(ts, pos, Level::Or),
            Level::Or => infix(ts, pos, Level::And),
            Level::And => infix(ts, pos, Level::Additive),
            Level::Additive => infix(ts, pos, Level::Multiplicative),
            Level::Multiplicative => prefix(ts, pos),
        },
{
}

/// `r` is the tree that `expected` gives, and `position` the position
/// after it; or `r` is the error that `expected` gives, and `position` the
/// position at which it stopped.
pub open spec fn agrees(r: Result<Arc<AST>, Error>, position: int, expected: Parsed) -> bool {
    match r {
        Ok(tree) => expected == Ok::<(AstView, int), Stop>((tree@, position)),
        Err(e) => expected == Err::<(AstView, int), Stop>(Stop { error: e@, at: position }),
    }
}

/// A recursive-descent parser over one token sequence. It owns its cursor:
/// the index of the next token.
pub struct Parser {
    tokens: Vec<Token>,
    current_index: usize,
}

impl Parser {
    /// The tokens that the parser reads.
    pub closed spec fn stream(&self) -> Seq<TokenView> {
        token_views(self.tokens@)
    }

    /// The index of the next token.
    pub closed spec fn position(&self) -> int {
        self.current_index as int
    }

    /// The cursor is at a token, and the end of input is there or ahead.
    pub closed spec fn wf(&self) -> bool {
        eof_ahead(token_views(self.tokens@), self.current_index as int)
    }

    /// The parser reads the tokens that `before` read, and has not gone
    /// back.
    pub closed spec fn follows(&self, before: Parser) -> bool {
        &&& self.wf()
        &&& self.tokens == before.tokens
        &&& before.current_index <= self.current_index < self.tokens@.len()
    }

    /// A parser at the first of `tokens`, one of which must be the end of
    /// input.
    pub fn new(tokens: Vec<Token>) -> (r: Parser)
        requires
            has_eof(token_views(tokens@)),
        ensures
            r.wf(),
            r.stream() == token_views(tokens@),
            r.position() == 0,
    {
        proof {
            let ts = token_views(tokens@);
            let at = choose|i: int| 0 <= i < ts.len() && (#[trigger] ts[i]).kind == TokenKind::EOF;
            lemma_eof_ahead(ts, 0, at);
        }
        Parser { tokens, current_index: 0 }
    }

    /// The token under the cursor.
    fn cur(&self) -> (r: &Token)
        requires
            self.wf(),
        ensures
            0 <= self.position() < self.stream().len(),
            r@ == self.stream()[self.position()],
            r.kind == kind_at(self.stream(), self.position()),
            r.loc@ == loc_at(self.stream(), self.position()),
            r.text@ == text_at(self.stream(), self.position()),
    {
        &self.tokens[self.current_index]
    }

    /// Moves the cursor over one token, but never over the end of input.
    fn increment(&mut self)
        requires
            old(self).wf(),
        ensures
            final(self).follows(*old(self)),
            final(self).position() == advance(old(self).stream(), old(self).position()),
    {
        match self.cur().kind {
            TokenKind::EOF => {},
            _ => {
                assert(self.current_index + 1 < self.tokens.len()) by {
                    assert(eof_ahead(token_views(self.tokens@), self.current_index + 1));
                }
                self.current_index += 1;
            },
        }
    }

    /// The error `kind`, found at the token under the cursor.
    fn error_here(&self, kind: ErrorKind) -> (e: Error)
        requires
            self.wf(),
        ensures
            e@ == error_at(self.stream(), self.position(), kind@),
    {
        Error { loc: self.cur().loc.clone(), kind }
    }

    /// Moves over the token under the cursor and returns it, if it is of
    /// `kind`; a token of another kind stays under the cursor.
    fn consume(&mut self, kind: TokenKind) -> (r: Result<Token, Error>)
        requires
            old(self).wf(),
        ensures
            final(self).follows(*old(self)),
            match r {
                Ok(token) => {
                    &&& expect(old(self).stream(), old(self).position(), kind) == Ok::<
                        int,
                        Stop,
                    >(final(self).position())
                    &&& token@ == old(self).stream()[old(self).position()]
                },
                Err(e) => {
                    &&& expect(old(self).stream(), old(self).position(), kind) == Err::<
                        int,
                        Stop,
                    >(Stop { error: e@, at: final(self).position() })
                    &&& final(self).position() == old(self).position()
                },
            },
    {
        if self.cur().kind == kind {
            let res = self.cur().clone();
            self.increment();
            Ok(res)
        } else {
            Err(self.error_here(ErrorKind::ExpectedToken { expected: kind, found: self.cur().kind }))
        }
    }

    /// Parses the whole program: all statements up to the end of input, as
    /// one block. After a success the cursor is at the end of input; after
    /// an error it is where it was.
    pub fn parse(&mut self) -> (r: Result<Arc<AST>, Error>)
        requires
            old(self).wf(),
        ensures
            final(self).wf(),
            final(self).stream() == old(self).stream(),
            match r {
                Ok(tree) => {
                    &&& program(old(self).stream(), old(self).position()) == Ok::<
                        (AstView, int),
                        Stop,
                    >((tree@, final(self).position()))
                    &&& kind_at(final(self).stream(), final(self).position()) == TokenKind::EOF
                },
                Err(e) => {
                    &&& program(old(self).stream(), old(self).position()) matches Err(stop)
                        && stop.error == e@
                    &&& final(self).position() == old(self).position()
                },
            },
    {
        let start = self.current_index;
        match self.parse_block(true) {
            Ok(tree) => match self.consume(TokenKind::EOF) {
                Ok(_) => Ok(tree),
                Err(e) => {
                    self.current_index = start;
                    Err(e)
                },
            },
            Err(e) => {
                self.current_index = start;
                Err(e)
            },
        }
    }

    /// Parses a block: the statements between `{` and `}`, or, for the
    /// global block, all statements up to the end of input. Where `{` is
    /// missing the cursor stays.
    fn parse_block(&mut self, global: bool) -> (r: Result<Arc<AST>, Error>)
        requires
            old(self).wf(),
        ensures
            final(self).follows(*old(self)),
            agrees(r, final(self).position(), block(old(self).stream(), old(self).position(), global)),
            r is Ok && !global ==> old(self).position() < final(self).position(),
            r is Ok && global ==> kind_at(final(self).stream(), final(self).position())
                == TokenKind::EOF,
            !global && expect(old(self).stream(), old(self).position(), TokenKind::LeftBrace)
                is Err ==> final(self).position() == old(self).position(),
        decreases old(self).tokens@.len() - old(self).current_index, 20nat,
    {
        let loc = self.cur().loc.clone();
        let mut list: Vec<Arc<AST>> = Vec::new();
        if !global {
            match self.consume(TokenKind::LeftBrace) {
                Ok(_) => {},
                Err(e) => {
                    return Err(e);
                },
            }
        }
        let ghost ts = self.stream();
        let ghost opened = self.position();
        assert(trees_of(list@) =~= Seq::<AstView>::empty());
        loop
            invariant_except_break
                statements(ts, self.position(), global, trees_of(list@)) == statements(
                    ts,
                    opened,
                    global,
                    Seq::empty(),
                ),
            invariant
                self.follows(*old(self)),
                ts == old(self).stream(),
                old(self).position() <= opened <= self.position(),
                !global ==> old(self).position() < opened,
                global ==> opened == old(self).position(),
                !global ==> expect(ts, old(self).position(), TokenKind::LeftBrace) == Ok::<
                    int,
                    Stop,
                >(opened),
            ensures
                statements(ts, opened, global, Seq::empty()) == Ok::<
                    (Seq<AstView>, int),
                    Stop,
                >((trees_of(list@), self.position())),
                global ==> kind_at(ts, self.position()) == TokenKind::EOF,
            decreases self.tokens@.len() - self.current_index,
        {
            if !global && self.cur().kind == TokenKind::RightBrace {
                self.increment();
                break ;
            }
            if global && self.cur().kind == TokenKind::EOF {
                break ;
            }
            let ghost before = list@;
            match self.parse_statement() {
                Ok(tree) => {
                    list.push(tree);
                    proof {
                        lemma_trees_push(before, tree);
                    }
                },
                Err(e) => {
                    return Err(e);
                },
            }
        }
        Ok(Arc::new(AST::Block(loc, list)))
    }

    /// Requires the end of a statement under the cursor: a token that a
    /// line break precedes, `;`, which is passed, or the end of input. Any
    /// other token stays under the cursor.
    fn consume_line_end(&mut self) -> (r: Result<(), Error>)
        requires
            old(self).wf(),
        ensures
            final(self).follows(*old(self)),
            match r {
                Ok(_) => line_end(old(self).stream(), old(self).position()) == Ok::<int, Stop>(
                    final(self).position(),
                ),
                Err(e) => {
                    &&& line_end(old(self).stream(), old(self).position()) == Err::<
                        int,
                        Stop,
                    >(Stop { error: e@, at: final(self).position() })
                    &&& final(self).position() == old(self).position()
                },
            },
    {
        if self.cur().newline_before {
            return Ok(());
        }
        match self.cur().kind {
            TokenKind::SemiColon => {
                self.increment();
                Ok(())
            },
            TokenKind::EOF => Ok(()),
            found => Err(self.error_here(ErrorKind::ExpectedLineEnd { found })),
        }
    }

    /// Parses parameter names up to the token of kind `close`, which
    /// stays.
    fn parse_params(&mut self, close: TokenKind) -> (r: Result<Vec<String>, Error>)
        requires
            old(self).wf(),
        ensures
            final(self).follows(*old(self)),
            match r {
                Ok(names) => {
                    &&& params(old(self).stream(), old(self).position(), close, Seq::empty())
                        == Ok::<(Seq<Seq<char>>, int), Stop>(
                        (string_views(names@), final(self).position()),
                    )
                    &&& kind_at(final(self).stream(), final(self).position()) == close
                },
                Err(e) => params(old(self).stream(), old(self).position(), close, Seq::empty())
                    == Err::<(Seq<Seq<char>>, int), Stop>(
                    Stop { error: e@, at: final(self).position() },
                ),
            },
    {
        let mut names: Vec<String> = Vec::new();
        let ghost ts = self.stream();
        assert(string_views(names@) =~= Seq::<Seq<char>>::empty());
        while self.cur().kind != close
            invariant
                self.follows(*old(self)),
                ts == old(self).stream(),
                params(ts, self.position(), close, string_views(names@)) == params(
                    ts,
                    old(self).position(),
                    close,
                    Seq::empty(),
                ),
            decreases self.tokens@.len() - self.current_index,
        {
            let ghost before = names@;
            match self.consume(TokenKind::Identifier) {
                Ok(token) => {
                    names.push(token.text);
                    proof {
                        lemma_strings_push(before, token.text);
                    }
                },
                Err(e) => {
                    return Err(e);
                },
            }
            if self.cur().kind == TokenKind::Comma {
                self.increment();
            }
        }
        Ok(names)
    }

    /// Parses the body of a function whose parameter list has just been
    /// closed.
    fn parse_body(&mut self, loc: &Location) -> (r: Result<Arc<AST>, Error>)
        requires
            old(self).wf(),
        ensures
            final(self).follows(*old(self)),
            agrees(r, final(self).position(), body(old(self).stream(), old(self).position(), loc@)),
            r is Ok ==> old(self).position() < final(self).position(),
        decreases old(self).tokens@.len() - old(self).current_index, 21nat,
    {
        if self.cur().kind == TokenKind::FatArrow {
            self.increment();
            match self.parse_expression() {
                Ok(value) => Ok(Arc::new(AST::Return(loc.clone(), value))),
                Err(e) => Err(e),
            }
        } else {
            self.parse_block(false)
        }
    }

    /// Parses a function without a name: `|` parameters `|` body.
    fn parse_lambda(&mut self) -> (r: Result<Arc<AST>, Error>)
        requires
            old(self).wf(),
        ensures
            final(self).follows(*old(self)),
            agrees(r, final(self).position(), lambda(old(self).stream(), old(self).position())),
            r is Ok ==> old(self).position() < final(self).position(),
        decreases old(self).tokens@.len() - old(self).current_index, 0nat,
    {
        let loc = match self.consume(TokenKind::Pipe) {
            Ok(token) => token.loc,
            Err(e) => {
                return Err(e);
            },
        };
        let args = match self.parse_params(TokenKind::Pipe) {
            Ok(names) => names,
            Err(e) => {
                return Err(e);
            },
        };
        self.increment();
        let inner = match self.parse_body(&loc) {
            Ok(tree) => tree,
            Err(e) => {
                return Err(e);
            },
        };
        Ok(Arc::new(AST::Function { loc, name: None, args, body: inner }))
    }

    /// Parses a named function: `def` name `(` parameters `)` body, and
    /// the end of a statement. Returns the function and its name.
    fn parse_function(&mut self) -> (r: Result<(Arc<AST>, String), Error>)
        requires
            old(self).wf(),
        ensures
            final(self).follows(*old(self)),
            match r {
                Ok((tree, name)) => {
                    &&& function(old(self).stream(), old(self).position()) == Ok::<
                        (AstView, int),
                        Stop,
                    >((tree@, final(self).position()))
                    &&& name@ == declared_name(tree@)
                    &&& old(self).position() < final(self).position()
                },
                Err(e) => function(old(self).stream(), old(self).position()) == Err::<
                    (AstView, int),
                    Stop,
                >(Stop { error: e@, at: final(self).position() }),
            },
        decreases old(self).tokens@.len() - old(self).current_index, 17nat,
    {
        let loc = match self.consume(TokenKind::Def) {
            Ok(token) => token.loc,
            Err(e) => {
                return Err(e);
            },
        };
        let name = match self.consume(TokenKind::Identifier) {
            Ok(token) => token,
            Err(e) => {
                return Err(e);
            },
        };
        match self.consume(TokenKind::LeftParen) {
            Ok(_) => {},
            Err(e) => {
                return Err(e);
            },
        }
        let args = match self.parse_params(TokenKind::RightParen) {
            Ok(names) => names,
            Err(e) => {
                return Err(e);
            },
        };
        self.increment();
        let inner = match self.parse_body(&loc) {
            Ok(tree) => tree,
            Err(e) => {
                return Err(e);
            },
        };
        match self.consume_line_end() {
            Ok(_) => {},
            Err(e) => {
                return Err(e);
            },
        }
        let tree = Arc::new(
            AST::Function { loc, name: Some(name.text.clone()), args, body: inner },
        );
        Ok((tree, name.text))
    }

    /// Parses `let` name `=` expression, and the end of a statement.
    fn parse_let(&mut self) -> (r: Result<Arc<AST>, Error>)
        requires
            old(self).wf(),
            kind_at(old(self).stream(), old(self).position()) == TokenKind::Let,
        ensures
            final(self).follows(*old(self)),
            agrees(r, final(self).position(), let_statement(old(self).stream(), old(self).position())),
            r is Ok ==> old(self).position() < final(self).position(),
        decreases old(self).tokens@.len() - old(self).current_index, 17nat,
    {
        let loc = self.cur().loc.clone();
        self.increment();
        let ident = match self.consume(TokenKind::Identifier) {
            Ok(token) => token,
            Err(e) => {
                return Err(e);
            },
        };
        match self.consume(TokenKind::Equals) {
            Ok(_) => {},
            Err(e) => {
                return Err(e);
            },
        }
        let value = match self.parse_expression() {
            Ok(tree) => tree,
            Err(e) => {
                return Err(e);
            },
        };
        match self.consume_line_end() {
            Ok(_) => {},
            Err(e) => {
                return Err(e);
            },
        }
        Ok(Arc::new(AST::VarDeclaration(loc, ident.text, value)))
    }

    /// Parses `if` condition block, and an else-branch if `else` follows.
    fn parse_if(&mut self) -> (r: Result<Arc<AST>, Error>)
        requires
            old(self).wf(),
            kind_at(old(self).stream(), old(self).position()) == TokenKind::If,
        ensures
            final(self).follows(*old(self)),
            agrees(r, final(self).position(), if_statement(old(self).stream(), old(self).position())),
            r is Ok ==> old(self).position() < final(self).position(),
        decreases old(self).tokens@.len() - old(self).current_index, 17nat,
    {
        let loc = self.cur().loc.clone();
        self.increment();
        let cond = match self.parse_expression() {
            Ok(tree) => tree,
            Err(e) => {
                return Err(e);
            },
        };
        let then = match self.parse_block(false) {
            Ok(tree) => tree,
            Err(e) => {
                return Err(e);
            },
        };
        if self.cur().kind == TokenKind::Else {
            self.increment();
            let otherwise = if self.cur().kind == TokenKind::If {
                self.parse_statement()
            } else {
                self.parse_block(false)
            };
            match otherwise {
                Ok(other) => Ok(Arc::new(AST::If(loc, cond, then, Some(other)))),
                Err(e) => Err(e),
            }
        } else {
            Ok(Arc::new(AST::If(loc, cond, then, None)))
        }
    }

    /// Parses `@` decorator and the named function after it, into the
    /// assignment of the decorator's result to the function's name.
    fn parse_decorated(&mut self) -> (r: Result<Arc<AST>, Error>)
        requires
            old(self).wf(),
            kind_at(old(self).stream(), old(self).position()) == TokenKind::At,
        ensures
            final(self).follows(*old(self)),
            agrees(r, final(self).position(), decorated(old(self).stream(), old(self).position())),
            r is Ok ==> old(self).position() < final(self).position(),
        decreases old(self).tokens@.len() - old(self).current_index, 17nat,
    {
        let loc = self.cur().loc.clone();
        self.increment();
        let decorator = match self.parse_postfix() {
            Ok(tree) => tree,
            Err(e) => {
                return Err(e);
            },
        };
        match self.consume_line_end() {
            Ok(_) => {},
            Err(e) => {
                return Err(e);
            },
        }
        let (target, name) = match self.parse_function() {
            Ok(pair) => pair,
            Err(e) => {
                return Err(e);
            },
        };
        match self.consume_line_end() {
            Ok(_) => {},
            Err(e) => {
                return Err(e);
            },
        }
        let mut args: Vec<Arc<AST>> = Vec::new();
        args.push(target);
        let variable = Arc::new(AST::Variable(loc.clone(), name));
        let call = Arc::new(AST::Call(loc.clone(), decorator, args));
        proof {
            assert(trees_of(args@) =~= seq![target@]);
            assert(variable@ == AstView::Variable(loc@, name@));
            assert(call@ == AstView::Call(loc@, Box::new(decorator@), seq![target@]));
        }
        Ok(Arc::new(AST::Assignment(loc, variable, call)))
    }

    /// Parses `while` condition block.
    fn parse_while(&mut self) -> (r: Result<Arc<AST>, Error>)
        requires
            old(self).wf(),
            kind_at(old(self).stream(), old(self).position()) == TokenKind::While,
        ensures
            final(self).follows(*old(self)),
            agrees(r, final(self).position(), while_statement(old(self).stream(), old(self).position())),
            r is Ok ==> old(self).position() < final(self).position(),
        decreases old(self).tokens@.len() - old(self).current_index, 17nat,
    {
        let loc = self.cur().loc.clone();
        self.increment();
        let cond = match self.parse_expression() {
            Ok(tree) => tree,
            Err(e) => {
                return Err(e);
            },
        };
        match self.parse_block(false) {
            Ok(inner) => Ok(Arc::new(AST::While(loc, cond, inner))),
            Err(e) => Err(e),
        }
    }

    /// Parses `for` name `in` expression block.
    fn parse_for(&mut self) -> (r: Result<Arc<AST>, Error>)
        requires
            old(self).wf(),
            kind_at(old(self).stream(), old(self).position()) == TokenKind::For,
        ensures
            final(self).follows(*old(self)),
            agrees(r, final(self).position(), for_statement(old(self).stream(), old(self).position())),
            r is Ok ==> old(self).position() < final(self).position(),
        decreases old(self).tokens@.len() - old(self).current_index, 17nat,
    {
        let loc = self.cur().loc.clone();
        self.increment();
        let ident = match self.consume(TokenKind::Identifier) {
            Ok(token) => token,
            Err(e) => {
                return Err(e);
            },
        };
        match self.consume(TokenKind::In) {
            Ok(_) => {},
            Err(e) => {
                return Err(e);
            },
        }
        let iterable = match self.parse_expression() {
            Ok(tree) => tree,
            Err(e) => {
                return Err(e);
            },
        };
        match self.parse_block(false) {
            Ok(inner) => Ok(Arc::new(AST::For(loc, ident.text, iterable, inner))),
            Err(e) => Err(e),
        }
    }

    /// Parses `return` expression, and the end of a statement.
    fn parse_return(&mut self) -> (r: Result<Arc<AST>, Error>)
        requires
            old(self).wf(),
            kind_at(old(self).stream(), old(self).position()) == TokenKind::Return,
        ensures
            final(self).follows(*old(self)),
            agrees(r, final(self).position(), return_statement(old(self).stream(), old(self).position())),
            r is Ok ==> old(self).position() < final(self).position(),
        decreases old(self).tokens@.len() - old(self).current_index, 17nat,
    {
        let loc = self.cur().loc.clone();
        self.increment();
        let value = match self.parse_expression() {
            Ok(tree) => tree,
            Err(e) => {
                return Err(e);
            },
        };
        match self.consume_line_end() {
            Ok(_) => Ok(Arc::new(AST::Return(loc, value))),
            Err(e) => Err(e),
        }
    }

    /// Parses the optional message of an `assert`, and drops it.
    fn parse_message(&mut self) -> (r: Result<(), Error>)
        requires
            old(self).wf(),
        ensures
            final(self).follows(*old(self)),
            match r {
                Ok(_) => assert_message(old(self).stream(), old(self).position()) == Ok::<
                    int,
                    Stop,
                >(final(self).position()),
                Err(e) => assert_message(old(self).stream(), old(self).position()) == Err::<
                    int,
                    Stop,
                >(Stop { error: e@, at: final(self).position() }),
            },
        decreases old(self).tokens@.len() - old(self).current_index, 17nat,
    {
        if self.cur().kind == TokenKind::Comma {
            self.increment();
            if self.cur().kind != TokenKind::StringLiteral {
                return Err(
                    self.error_here(ErrorKind::ExpectedStringLiteral { found: self.cur().kind }),
                );
            }
            match self.parse_expression() {
                Ok(_) => Ok(()),
                Err(e) => Err(e),
            }
        } else {
            Ok(())
        }
    }

    /// Parses `assert` condition, an optional message, and the end of a
    /// statement.
    fn parse_assert(&mut self) -> (r: Result<Arc<AST>, Error>)
        requires
            old(self).wf(),
            kind_at(old(self).stream(), old(self).position()) == TokenKind::Assert,
        ensures
            final(self).follows(*old(self)),
            agrees(
                r,
                final(self).position(),
                assert_statement(old(self).stream(), old(self).position()),
            ),
            r is Ok ==> old(self).position() < final(self).position(),
        decreases old(self).tokens@.len() - old(self).current_index, 17nat,
    {
        let loc = self.cur().loc.clone();
        self.increment();
        let cond = match self.parse_expression() {
            Ok(tree) => tree,
            Err(e) => {
                return Err(e);
            },
        };
        match self.parse_message() {
            Ok(_) => {},
            Err(e) => {
                return Err(e);
            },
        }
        match self.consume_line_end() {
            Ok(_) => Ok(Arc::new(AST::Assert(loc, cond))),
            Err(e) => Err(e),
        }
    }

    /// Parses one statement, chosen by the kind of the token under the
    /// cursor.
    fn parse_statement(&mut self) -> (r: Result<Arc<AST>, Error>)
        requires
            old(self).wf(),
        ensures
            final(self).follows(*old(self)),
            agrees(r, final(self).position(), statement(old(self).stream(), old(self).position())),
            r is Ok ==> old(self).position() < final(self).position(),
        decreases old(self).tokens@.len() - old(self).current_index, 18nat,
    {
        match self.cur().kind {
            TokenKind::Let => self.parse_let(),
            TokenKind::If => self.parse_if(),
            TokenKind::Def => match self.parse_function() {
                Ok((tree, _)) => Ok(tree),
                Err(e) => Err(e),
            },
            TokenKind::At => self.parse_decorated(),
            TokenKind::Continue => {
                let loc = self.cur().loc.clone();
                self.increment();
                match self.consume_line_end() {
                    Ok(_) => Ok(Arc::new(AST::Continue(loc))),
                    Err(e) => Err(e),
                }
            },
            TokenKind::Break => {
                let loc = self.cur().loc.clone();
                self.increment();
                match self.consume_line_end() {
                    Ok(_) => Ok(Arc::new(AST::Break(loc))),
                    Err(e) => Err(e),
                }
            },
            TokenKind::While => self.parse_while(),
            TokenKind::For => self.parse_for(),
            TokenKind::Return => self.parse_return(),
            TokenKind::Assert => self.parse_assert(),
            _ => {
                let value = match self.parse_expression() {
                    Ok(tree) => tree,
                    Err(e) => {
                        return Err(e);
                    },
                };
                match self.consume_line_end() {
                    Ok(_) => Ok(value),
                    Err(e) => Err(e),
                }
            },
        }
    }

    /// Parses an expression.
    fn parse_expression(&mut self) -> (r: Result<Arc<AST>, Error>)
        requires
            old(self).wf(),
        ensures
            final(self).follows(*old(self)),
            agrees(r, final(self).position(), expression(old(self).stream(), old(self).position())),
            r is Ok ==> old(self).position() < final(self).position(),
        decreases old(self).tokens@.len() - old(self).current_index, 15nat,
    {
        self.parse_assignment()
    }

    /// Parses a comparison, or a comparison, `=` and a comparison.
    fn parse_assignment(&mut self) -> (r: Result<Arc<AST>, Error>)
        requires
            old(self).wf(),
        ensures
            final(self).follows(*old(self)),
            agrees(r, final(self).position(), assignment(old(self).stream(), old(self).position())),
            r is Ok ==> old(self).position() < final(self).position(),
        decreases old(self).tokens@.len() - old(self).current_index, 14nat,
    {
        let left = match self.parse_comparison() {
            Ok(tree) => tree,
            Err(e) => {
                return Err(e);
            },
        };
        if self.cur().kind == TokenKind::Equals {
            let loc = self.cur().loc.clone();
            self.increment();
            match self.parse_comparison() {
                Ok(right) => Ok(Arc::new(AST::Assignment(loc, left, right))),
                Err(e) => Err(e),
            }
        } else {
            Ok(left)
        }
    }

    /// Parses operands joined by comparison operators, nested to the left.
    fn parse_comparison(&mut self) -> (r: Result<Arc<AST>, Error>)
        requires
            old(self).wf(),
        ensures
            final(self).follows(*old(self)),
            agrees(
                r,
                final(self).position(),
                infix(old(self).stream(), old(self).position(), Level::Comparison),
            ),
            r is Ok ==> old(self).position() < final(self).position(),
        decreases old(self).tokens@.len() - old(self).current_index, 13nat,
    {
        let ghost ts = self.stream();
        let ghost goal = infix(ts, self.position(), Level::Comparison);
        proof {
            lemma_operand(ts, self.position(), Level::Comparison);
        }
        let mut left = match self.parse_logical_or() {
            Ok(tree) => tree,
            Err(e) => {
                return Err(e);
            },
        };
        loop
            invariant_except_break
                infix_rest(ts, self.position(), Level::Comparison, left@) == goal,
            invariant
                goal == infix(ts, old(self).position(), Level::Comparison),
                self.follows(*old(self)),
                ts == old(self).stream(),
                old(self).position() < self.position(),
            ensures
                goal == Ok::<(AstView, int), Stop>((left@, self.position())),
            decreases self.tokens@.len() - self.current_index,
        {
            let op = self.cur().kind;
            match op {
                TokenKind::EqualsEquals
                | TokenKind::BangEquals
                | TokenKind::LessThan
                | TokenKind::GreaterThan
                | TokenKind::LessThanEquals
                | TokenKind::GreaterThanEquals => {
                    let loc = self.cur().loc.clone();
                    self.increment();
                    proof {
                        lemma_operand(ts, self.position(), Level::Comparison);
                    }
                    let right = match self.parse_logical_or() {
                        Ok(tree) => tree,
                        Err(e) => {
                            return Err(e);
                        },
                    };
                    left =
                    match op {
                        TokenKind::EqualsEquals => Arc::new(AST::Equals(loc, left, right)),
                        TokenKind::BangEquals => Arc::new(AST::NotEquals(loc, left, right)),
                        TokenKind::LessThan => Arc::new(AST::LessThan(loc, left, right)),
                        TokenKind::GreaterThan => Arc::new(AST::GreaterThan(loc, left, right)),
                        TokenKind::LessThanEquals => Arc::new(
                            AST::LessThanEquals(loc, left, right),
                        ),
                        _ => Arc::new(AST::GreaterThanEquals(loc, left, right)),
                    };
                },
                _ => {
                    break ;
                },
            }
        }
        Ok(left)
    }

    /// Parses operands joined by `or`, nested to the left.
    fn parse_logical_or(&mut self) -> (r: Result<Arc<AST>, Error>)
        requires
            old(self).wf(),
        ensures
            final(self).follows(*old(self)),
            agrees(
                r,
                final(self).position(),
                infix(old(self).stream(), old(self).position(), Level::Or),
            ),
            r is Ok ==> old(self).position() < final(self).position(),
        decreases old(self).tokens@.len() - old(self).current_index, 11nat,
    {
        let ghost ts = self.stream();
        let ghost goal = infix(ts, self.position(), Level::Or);
        proof {
            lemma_operand(ts, self.position(), Level::Or);
        }
        let mut left = match self.parse_logical_and() {
            Ok(tree) => tree,
            Err(e) => {
                return Err(e);
            },
        };
        loop
            invariant_except_break
                infix_rest(ts, self.position(), Level::Or, left@) == goal,
            invariant
                goal == infix(ts, old(self).position(), Level::Or),
                self.follows(*old(self)),
                ts == old(self).stream(),
                old(self).position() < self.position(),
            ensures
                goal == Ok::<(AstView, int), Stop>((left@, self.position())),
            decreases self.tokens@.len() - self.current_index,
        {
            match self.cur().kind {
                TokenKind::Or => {
                    let loc = self.cur().loc.clone();
                    self.increment();
                    proof {
                        lemma_operand(ts, self.position(), Level::Or);
                    }
                    let right = match self.parse_logical_and() {
                        Ok(tree) => tree,
                        Err(e) => {
                            return Err(e);
                        },
                    };
                    left = Arc::new(AST::Or(loc, left, right));
                },
                _ => {
                    break ;
                },
            }
        }
        Ok(left)
    }

    /// Parses operands joined by `and`, nested to the left.
    fn parse_logical_and(&mut self) -> (r: Result<Arc<AST>, Error>)
        requires
            old(self).wf(),
        ensures
            final(self).follows(*old(self)),
            agrees(
                r,
                final(self).position(),
                infix(old(self).stream(), old(self).position(), Level::And),
            ),
            r is Ok ==> old(self).position() < final(self).position(),
        decreases old(self).tokens@.len() - old(self).current_index, 9nat,
    {
        let ghost ts = self.stream();
        let ghost goal = infix(ts, self.position(), Level::And);
        proof {
            lemma_operand(ts, self.position(), Level::And);
        }
        let mut left = match self.parse_additive() {
            Ok(tree) => tree,
            Err(e) => {
                return Err(e);
            },
        };
        loop
            invariant_except_break
                infix_rest(ts, self.position(), Level::And, left@) == goal,
            invariant
                goal == infix(ts, old(self).position(), Level::And),
                self.follows(*old(self)),
                ts == old(self).stream(),
                old(self).position() < self.position(),
            ensures
                goal == Ok::<(AstView, int), Stop>((left@, self.position())),
            decreases self.tokens@.len() - self.current_index,
        {
            match self.cur().kind {
                TokenKind::And => {
                    let loc = self.cur().loc.clone();
                    self.increment();
                    proof {
                        lemma_operand(ts, self.position(), Level::And);
                    }
                    let right = match self.parse_additive() {
                        Ok(tree) => tree,
                        Err(e) => {
                            return Err(e);
                        },
                    };
                    left = Arc::new(AST::And(loc, left, right));
                },
                _ => {
                    break ;
                },
            }
        }
        Ok(left)
    }

    /// Parses operands joined by `+` and `-`, nested to the left.
    fn parse_additive(&mut self) -> (r: Result<Arc<AST>, Error>)
        requires
            old(self).wf(),
        ensures
            final(self).follows(*old(self)),
            agrees(
                r,
                final(self).position(),
                infix(old(self).stream(), old(self).position(), Level::Additive),
            ),
            r is Ok ==> old(self).position() < final(self).position(),
        decreases old(self).tokens@.len() - old(self).current_index, 7nat,
    {
        let ghost ts = self.stream();
        let ghost goal = infix(ts, self.position(), Level::Additive);
        proof {
            lemma_operand(ts, self.position(), Level::Additive);
        }
        let mut left = match self.parse_multiplicative() {
            Ok(tree) => tree,
            Err(e) => {
                return Err(e);
            },
        };
        loop
            invariant_except_break
                infix_rest(ts, self.position(), Level::Additive, left@) == goal,
            invariant
                goal == infix(ts, old(self).position(), Level::Additive),
                self.follows(*old(self)),
                ts == old(self).stream(),
                old(self).position() < self.position(),
            ensures
                goal == Ok::<(AstView, int), Stop>((left@, self.position())),
            decreases self.tokens@.len() - self.current_index,
        {
            let op = self.cur().kind;
            match op {
                TokenKind::Plus | TokenKind::Minus => {
                    let loc = self.cur().loc.clone();
                    self.increment();
                    proof {
                        lemma_operand(ts, self.position(), Level::Additive);
                    }
                    let right = match self.parse_multiplicative() {
                        Ok(tree) => tree,
                        Err(e) => {
                            return Err(e);
                        },
                    };
                    left =
                    match op {
                        TokenKind::Plus => Arc::new(AST::Plus(loc, left, right)),
                        _ => Arc::new(AST::Minus(loc, left, right)),
                    };
                },
                _ => {
                    break ;
                },
            }
        }
        Ok(left)
    }

    /// Parses operands joined by `*` and `/`, nested to the left.
    fn parse_multiplicative(&mut self) -> (r: Result<Arc<AST>, Error>)
        requires
            old(self).wf(),
        ensures
            final(self).follows(*old(self)),
            agrees(
                r,
                final(self).position(),
                infix(old(self).stream(), old(self).position(), Level::Multiplicative),
            ),
            r is Ok ==> old(self).position() < final(self).position(),
        decreases old(self).tokens@.len() - old(self).current_index, 5nat,
    {
        let ghost ts = self.stream();
        let ghost goal = infix(ts, self.position(), Level::Multiplicative);
        proof {
            lemma_operand(ts, self.position(), Level::Multiplicative);
        }
        let mut left = match self.parse_prefix() {
            Ok(tree) => tree,
            Err(e) => {
                return Err(e);
            },
        };
        loop
            invariant_except_break
                infix_rest(ts, self.position(), Level::Multiplicative, left@) == goal,
            invariant
                goal == infix(ts, old(self).position(), Level::Multiplicative),
                self.follows(*old(self)),
                ts == old(self).stream(),
                old(self).position() < self.position(),
            ensures
                goal == Ok::<(AstView, int), Stop>((left@, self.position())),
            decreases self.tokens@.len() - self.current_index,
        {
            let op = self.cur().kind;
            match op {
                TokenKind::Star | TokenKind::Slash => {
                    let loc = self.cur().loc.clone();
                    self.increment();
                    proof {
                        lemma_operand(ts, self.position(), Level::Multiplicative);
                    }
                    let right = match self.parse_prefix() {
                        Ok(tree) => tree,
                        Err(e) => {
                            return Err(e);
                        },
                    };
                    left =
                    match op {
                        TokenKind::Star => Arc::new(AST::Multiply(loc, left, right)),
                        _ => Arc::new(AST::Divide(loc, left, right)),
                    };
                },
                _ => {
                    break ;
                },
            }
        }
        Ok(left)
    }

    /// Parses a bound or the step of a slice: nothing before `:` and `]`,
    /// an expression otherwise.
    fn parse_slice_value(&mut self) -> (r: Result<Option<Arc<AST>>, Error>)
        requires
            old(self).wf(),
        ensures
            final(self).follows(*old(self)),
            match r {
                Ok(value) => slice_value(old(self).stream(), old(self).position()) == Ok::<
                    (Option<AstView>, int),
                    Stop,
                >((optional_tree(value), final(self).position())),
                Err(e) => slice_value(old(self).stream(), old(self).position()) == Err::<
                    (Option<AstView>, int),
                    Stop,
                >(Stop { error: e@, at: final(self).position() }),
            },
        decreases old(self).tokens@.len() - old(self).current_index, 16nat,
    {
        match self.cur().kind {
            TokenKind::Colon | TokenKind::RightBracket => Ok(None),
            _ => match self.parse_expression() {
                Ok(value) => Ok(Some(value)),
                Err(e) => Err(e),
            },
        }
    }

    /// Parses `not` and a prefix expression, or a postfix expression.
    fn parse_prefix(&mut self) -> (r: Result<Arc<AST>, Error>)
        requires
            old(self).wf(),
        ensures
            final(self).follows(*old(self)),
            agrees(r, final(self).position(), prefix(old(self).stream(), old(self).position())),
            r is Ok ==> old(self).position() < final(self).position(),
        decreases old(self).tokens@.len() - old(self).current_index, 3nat,
    {
        match self.cur().kind {
            TokenKind::Not => {
                let loc = self.cur().loc.clone();
                self.increment();
                match self.parse_prefix() {
                    Ok(inner) => Ok(Arc::new(AST::Not(loc, inner))),
                    Err(e) => Err(e),
                }
            },
            _ => self.parse_postfix(),
        }
    }

    /// Parses the arguments of a call whose `(` has just been passed, up
    /// to and over the closing `)`.
    fn parse_arguments(&mut self) -> (r: Result<Vec<Arc<AST>>, Error>)
        requires
            old(self).wf(),
        ensures
            final(self).follows(*old(self)),
            match r {
                Ok(args) => {
                    &&& arguments(old(self).stream(), old(self).position(), Seq::empty()) == Ok::<
                        (Seq<AstView>, int),
                        Stop,
                    >((trees_of(args@), final(self).position()))
                    &&& old(self).position() < final(self).position()
                },
                Err(e) => arguments(old(self).stream(), old(self).position(), Seq::empty())
                    == Err::<(Seq<AstView>, int), Stop>(
                    Stop { error: e@, at: final(self).position() },
                ),
            },
        decreases old(self).tokens@.len() - old(self).current_index, 16nat,
    {
        let mut args: Vec<Arc<AST>> = Vec::new();
        let ghost ts = self.stream();
        let ghost goal = arguments(ts, self.position(), Seq::empty());
        assert(trees_of(args@) =~= Seq::<AstView>::empty());
        loop
            invariant_except_break
                arguments(ts, self.position(), trees_of(args@)) == goal,
            invariant
                goal == arguments(ts, old(self).position(), Seq::empty()),
                self.follows(*old(self)),
                ts == old(self).stream(),
            ensures
                goal == Ok::<(Seq<AstView>, int), Stop>((trees_of(args@), self.position())),
                old(self).position() < self.position(),
            decreases self.tokens@.len() - self.current_index,
        {
            match self.cur().kind {
                TokenKind::RightParen => {
                    self.increment();
                    break ;
                },
                _ => {
                    let ghost before = args@;
                    match self.parse_expression() {
                        Ok(value) => {
                            args.push(value);
                            proof {
                                lemma_trees_push(before, value);
                            }
                        },
                        Err(e) => {
                            return Err(e);
                        },
                    }
                    match self.cur().kind {
                        TokenKind::Comma => {
                            self.increment();
                        },
                        TokenKind::RightParen => {},
                        found => {
                            return Err(
                                self.error_here(ErrorKind::ExpectedCloseOrComma { found }),
                            );
                        },
                    }
                },
            }
        }
        Ok(args)
    }

    /// Parses what stands between `[` and `]`, both included, and applies
    /// it to `base`: one index, or the bounds and the step of a slice.
    fn parse_subscript(&mut self, base: Arc<AST>) -> (r: Result<Arc<AST>, Error>)
        requires
            old(self).wf(),
            kind_at(old(self).stream(), old(self).position()) == TokenKind::LeftBracket,
        ensures
            final(self).follows(*old(self)),
            match r {
                Ok(tree) => {
                    &&& postfix_rest(old(self).stream(), old(self).position(), base@)
                        == postfix_rest(old(self).stream(), final(self).position(), tree@)
                    &&& old(self).position() < final(self).position()
                },
                Err(e) => postfix_rest(old(self).stream(), old(self).position(), base@) == Err::<
                    (AstView, int),
                    Stop,
                >(Stop { error: e@, at: final(self).position() }),
            },
        decreases old(self).tokens@.len() - old(self).current_index, 17nat,
    {
        let loc = self.cur().loc.clone();
        self.increment();
        let start = match self.parse_slice_value() {
            Ok(value) => value,
            Err(e) => {
                return Err(e);
            },
        };
        if self.cur().kind == TokenKind::RightBracket {
            return match start {
                Some(index) => {
                    self.increment();
                    Ok(Arc::new(AST::Index(loc, base, index)))
                },
                None => Err(Error { loc, kind: ErrorKind::EmptyIndex }),
            };
        }
        match self.consume(TokenKind::Colon) {
            Ok(_) => {},
            Err(e) => {
                return Err(e);
            },
        }
        let end = match self.parse_slice_value() {
            Ok(value) => value,
            Err(e) => {
                return Err(e);
            },
        };
        if self.cur().kind == TokenKind::RightBracket {
            self.increment();
            return Ok(Arc::new(AST::Slice { loc, lhs: base, start, end, step: None }));
        }
        match self.consume(TokenKind::Colon) {
            Ok(_) => {},
            Err(e) => {
                return Err(e);
            },
        }
        let step = match self.parse_slice_value() {
            Ok(value) => value,
            Err(e) => {
                return Err(e);
            },
        };
        match self.consume(TokenKind::RightBracket) {
            Ok(_) => {},
            Err(e) => {
                return Err(e);
            },
        }
        Ok(Arc::new(AST::Slice { loc, lhs: base, start, end, step }))
    }

    /// Parses an atom and the indexings, slicings, calls and ranges
    /// applied to it, from the left to the right.
    fn parse_postfix(&mut self) -> (r: Result<Arc<AST>, Error>)
        requires
            old(self).wf(),
        ensures
            final(self).follows(*old(self)),
            agrees(r, final(self).position(), postfix(old(self).stream(), old(self).position())),
            r is Ok ==> old(self).position() < final(self).position(),
        decreases old(self).tokens@.len() - old(self).current_index, 2nat,
    {
        let mut val = match self.parse_atom() {
            Ok(tree) => tree,
            Err(e) => {
                return Err(e);
            },
        };
        let ghost ts = self.stream();
        let ghost goal = postfix(ts, old(self).position());
        loop
            invariant_except_break
                postfix_rest(ts, self.position(), val@) == goal,
            invariant
                goal == postfix(ts, old(self).position()),
                self.follows(*old(self)),
                ts == old(self).stream(),
                old(self).position() < self.position(),
            ensures
                goal == Ok::<(AstView, int), Stop>((val@, self.position())),
            decreases self.tokens@.len() - self.current_index,
        {
            match self.cur().kind {
                TokenKind::LeftBracket => {
                    val =
                    match self.parse_subscript(val) {
                        Ok(tree) => tree,
                        Err(e) => {
                            return Err(e);
                        },
                    };
                },
                TokenKind::LeftParen => {
                    let loc = self.cur().loc.clone();
                    self.increment();
                    let args = match self.parse_arguments() {
                        Ok(list) => list,
                        Err(e) => {
                            return Err(e);
                        },
                    };
                    val = Arc::new(AST::Call(loc, val, args));
                },
                TokenKind::DotDot => {
                    let loc = self.cur().loc.clone();
                    self.increment();
                    let end = match self.parse_atom() {
                        Ok(tree) => tree,
                        Err(e) => {
                            return Err(e);
                        },
                    };
                    val = Arc::new(AST::Range(loc, val, end));
                },
                _ => {
                    break ;
                },
            }
        }
        Ok(val)
    }

    /// Parses a parenthesized expression, a function without a name, a
    /// literal, or a variable. A token that begins none of these stays
    /// under the cursor; a number token whose text denotes no number is
    /// passed.
    fn parse_atom(&mut self) -> (r: Result<Arc<AST>, Error>)
        requires
            old(self).wf(),
        ensures
            final(self).follows(*old(self)),
            agrees(r, final(self).position(), atom(old(self).stream(), old(self).position())),
            r is Ok ==> old(self).position() < final(self).position(),
        decreases old(self).tokens@.len() - old(self).current_index, 1nat,
    {
        let loc = self.cur().loc.clone();
        match self.cur().kind {
            TokenKind::LeftParen => {
                self.increment();
                let inner = match self.parse_expression() {
                    Ok(tree) => tree,
                    Err(e) => {
                        return Err(e);
                    },
                };
                match self.cur().kind {
                    TokenKind::RightParen => {
                        self.increment();
                        Ok(inner)
                    },
                    found => Err(self.error_here(ErrorKind::ExpectedClose { found })),
                }
            },
            TokenKind::Pipe => self.parse_lambda(),
            TokenKind::IntegerLiteral => {
                let text = self.cur().text.clone();
                self.increment();
                match parse_integer(text.as_str()) {
                    Some(value) => Ok(Arc::new(AST::IntegerLiteral(loc, value))),
                    None => Err(Error { loc, kind: ErrorKind::InvalidInteger(text) }),
                }
            },
            TokenKind::FloatLiteral => {
                let text = self.cur().text.clone();
                self.increment();
                if is_float(text.as_str()) {
                    Ok(Arc::new(AST::FloatLiteral(loc, text)))
                } else {
                    Err(Error { loc, kind: ErrorKind::InvalidFloat(text) })
                }
            },
            TokenKind::StringLiteral => {
                let text = self.cur().text.clone();
                self.increment();
                Ok(Arc::new(AST::StringLiteral(loc, text)))
            },
            TokenKind::Identifier => {
                let text = self.cur().text.clone();
                self.increment();
                Ok(Arc::new(AST::Variable(loc, text)))
            },
            TokenKind::True => {
                self.increment();
                Ok(Arc::new(AST::BooleanLiteral(loc, true)))
            },
            TokenKind::False => {
                self.increment();
                Ok(Arc::new(AST::BooleanLiteral(loc, false)))
            },
            TokenKind::Nothing => {
                self.increment();
                Ok(Arc::new(AST::Nothing(loc)))
            },
            found => Err(self.error_here(ErrorKind::UnexpectedToken { found })),
        }
    }
}

} // verus!
