//! The lexer: one pass over the characters of a source text.

use vstd::prelude::*;
use crate::chars::{
    collect, decode, digit, ident_start, is_digit, is_ident_start, is_space, space,
};
use crate::error::{Error, ErrorKind, ErrorView};
use crate::scan::{
    after, belongs, eof_token, followed_by, lemma_location_bounds, lemma_run_end, lex_from,
    location_of, punctuation, run_end, scan, CharClass, Scan,
};
use crate::token::{token_views, Location, Token, TokenKind, TokenView};

verus! {

/// A scanner over one source text. It owns its cursor: the index of the
/// next character, the location of that character, and whether a line feed
/// was passed since the last token.
#[derive(Debug)]
pub struct Lexer {
    location: Location,
    input: Vec<char>,
    current_index: usize,
    seen_newline: bool,
}

impl Lexer {
    /// The characters of the source text.
    pub closed spec fn source(&self) -> Seq<char> {
        self.input@
    }

    /// The name under which locations report the source text.
    pub closed spec fn filename(&self) -> Seq<char> {
        self.location.filename@
    }

    /// The index of the next character to read.
    pub closed spec fn position(&self) -> int {
        self.current_index as int
    }

    /// Whether a line feed was passed since the last token.
    pub closed spec fn pending_newline(&self) -> bool {
        self.seen_newline
    }

    /// The cursor is inside the source or at its end, and the location is
    /// that of the cursor.
    pub closed spec fn wf(&self) -> bool {
        &&& self.current_index <= self.input@.len()
        &&& self.input@.len() < usize::MAX
        &&& self.location@ == location_of(
            self.input@,
            self.location.filename@,
            self.current_index as int,
        )
    }

    /// A lexer at the start of `input`, which locations will call `filename`.
    /// Lines and columns count one past the position, so the number of
    /// characters must lie below `usize::MAX`.
    pub fn new(input: String, filename: String) -> (r: Lexer)
        requires
            input@.len() < usize::MAX,
        ensures
            r.wf(),
            r.source() == input@,
            r.filename() == filename@,
            r.position() == 0,
            !r.pending_newline(),
    {
        let chars = decode(input.as_str());
        Lexer {
            location: Location { line: 1, column: 1, filename },
            input: chars,
            current_index: 0,
            seen_newline: false,
        }
    }

    /// The character under the cursor, if the source has not ended.
    fn cur(&self) -> (r: Option<char>)
        requires
            self.wf(),
        ensures
            r == if self.position() < self.source().len() {
                Some(self.source()[self.position()])
            } else {
                None
            },
    {
        if self.current_index < self.input.len() {
            Some(self.input[self.current_index])
        } else {
            None
        }
    }

    /// The character `offset` places after the cursor, if there is one.
    fn peek(&self, offset: usize) -> (r: Option<char>)
        requires
            self.wf(),
        ensures
            r == if self.position() + offset < self.source().len() {
                Some(self.source()[self.position() + offset])
            } else {
                None
            },
    {
        if offset < self.input.len() - self.current_index {
            Some(self.input[self.current_index + offset])
        } else {
            None
        }
    }

    /// Moves the cursor over one character, if there is one left. A line
    /// feed begins a new line; any other character, a new column.
    fn increment(&mut self)
        requires
            old(self).wf(),
        ensures
            final(self).wf(),
            final(self).source() == old(self).source(),
            final(self).filename() == old(self).filename(),
            old(self).position() < old(self).source().len() ==> {
                &&& final(self).position() == old(self).position() + 1
                &&& final(self).pending_newline() == (old(self).pending_newline() || old(
                    self,
                ).source()[old(self).position()] == '\n')
            },
            old(self).position() >= old(self).source().len() ==> {
                &&& final(self).position() == old(self).position()
                &&& final(self).pending_newline() == old(self).pending_newline()
            },
    {
        proof {
            lemma_location_bounds(self.input@, self.current_index as int);
        }
        match self.cur() {
            Some('\n') => {
                self.location.line += 1;
                self.location.column = 1;
                self.current_index += 1;
                self.seen_newline = true;
            },
            Some(_) => {
                self.current_index += 1;
                self.location.column += 1;
            },
            None => {},
        }
    }

    /// Emits `token`, marked with whether a line feed was passed since the
    /// token before it.
    fn push(&mut self, tokens: &mut Vec<Token>, token: Token)
        requires
            old(self).wf(),
        ensures
            final(self).wf(),
            final(self).source() == old(self).source(),
            final(self).filename() == old(self).filename(),
            final(self).position() == old(self).position(),
            !final(self).pending_newline(),
            token_views(final(tokens)@) == token_views(old(tokens)@).push(
                TokenView { newline_before: old(self).pending_newline(), ..token@ },
            ),
    {
        let mut token = token;
        token.newline_before = self.seen_newline;
        tokens.push(token);
        self.seen_newline = false;
        assert(token_views(tokens@) =~= token_views(old(tokens)@).push(token@));
    }

    /// Emits the token of `kind` that the next `len` characters make, and
    /// moves over them.
    fn push_simple(&mut self, tokens: &mut Vec<Token>, kind: TokenKind, len: usize)
        requires
            old(self).wf(),
            old(self).position() + len <= old(self).source().len(),
            forall|i: int|
                old(self).position() <= i < old(self).position() + len ==> old(self).source()[i]
                    != '\n',
        ensures
            final(self).wf(),
            final(self).source() == old(self).source(),
            final(self).filename() == old(self).filename(),
            final(self).position() == old(self).position() + len,
            !final(self).pending_newline(),
            token_views(final(tokens)@) == token_views(old(tokens)@).push(
                TokenView {
                    kind,
                    text: old(self).source().subrange(
                        old(self).position(),
                        old(self).position() + len,
                    ),
                    loc: location_of(old(self).source(), old(self).filename(), old(self).position()),
                    newline_before: old(self).pending_newline(),
                },
            ),
    {
        let text = collect(&self.input, self.current_index, self.current_index + len);
        let token = Token::new(kind, self.location.clone(), text);
        self.push(tokens, token);
        let mut done: usize = 0;
        while done < len
            invariant
                self.wf(),
                self.source() == old(self).source(),
                self.filename() == old(self).filename(),
                self.position() == old(self).position() + done,
                done <= len,
                old(self).position() + len <= old(self).source().len(),
                !self.pending_newline(),
                forall|i: int|
                    old(self).position() <= i < old(self).position() + len ==> old(
                        self,
                    ).source()[i] != '\n',
            decreases len - done,
        {
            self.increment();
            done += 1;
        }
    }

    /// Moves the cursor to the end of the maximal run of characters of
    /// `class` that begins under it.
    fn advance_run(&mut self, class: CharClass)
        requires
            old(self).wf(),
        ensures
            final(self).wf(),
            final(self).source() == old(self).source(),
            final(self).filename() == old(self).filename(),
            final(self).pending_newline() == old(self).pending_newline(),
            final(self).position() == run_end(old(self).source(), old(self).position(), class),
            old(self).position() <= final(self).position() <= old(self).source().len(),
    {
        loop
            invariant
                self.wf(),
                self.source() == old(self).source(),
                self.filename() == old(self).filename(),
                self.pending_newline() == old(self).pending_newline(),
                old(self).position() <= self.position() <= self.source().len(),
                run_end(self.source(), self.position(), class) == run_end(
                    old(self).source(),
                    old(self).position(),
                    class,
                ),
            ensures
                self.position() == run_end(old(self).source(), old(self).position(), class),
            decreases self.source().len() - self.position(),
        {
            match self.cur() {
                Some(c) => {
                    if belongs(class, c) {
                        self.increment();
                    } else {
                        break ;
                    }
                },
                None => {
                    break ;
                },
            }
        }
    }

    /// Reads the number that begins under the cursor.
    fn lex_number(&mut self) -> (token: Token)
        requires
            old(self).wf(),
            old(self).position() < old(self).source().len(),
            !is_space(old(self).source()[old(self).position()]),
            is_digit(old(self).source()[old(self).position()]),
        ensures
            final(self).wf(),
            final(self).source() == old(self).source(),
            final(self).filename() == old(self).filename(),
            final(self).pending_newline() == old(self).pending_newline(),
            scan(old(self).source(), old(self).position()) == (Scan::Emit {
                kind: token.kind,
                text: token.text@,
                next: final(self).position(),
            }),
            token.loc@ == location_of(old(self).source(), old(self).filename(), old(self).position()),
            old(self).position() < final(self).position() <= old(self).source().len(),
    {
        let loc = self.location.clone();
        let start = self.current_index;
        proof {
            lemma_run_end(self.source(), self.position() + 1, CharClass::Digit);
        }
        self.advance_run(CharClass::Digit);
        if let Some('.') = self.cur() {
            self.increment();
            self.advance_run(CharClass::Digit);
            let text = collect(&self.input, start, self.current_index);
            Token::new(TokenKind::FloatLiteral, loc, text)
        } else {
            let text = collect(&self.input, start, self.current_index);
            Token::new(TokenKind::IntegerLiteral, loc, text)
        }
    }

    /// Reads the keyword or identifier that begins under the cursor.
    fn lex_word(&mut self) -> (token: Token)
        requires
            old(self).wf(),
            old(self).position() < old(self).source().len(),
            !is_space(old(self).source()[old(self).position()]),
            !is_digit(old(self).source()[old(self).position()]),
            punctuation(old(self).source(), old(self).position()) is None,
            old(self).source()[old(self).position()] != '"',
            is_ident_start(old(self).source()[old(self).position()]),
        ensures
            final(self).wf(),
            final(self).source() == old(self).source(),
            final(self).filename() == old(self).filename(),
            final(self).pending_newline() == old(self).pending_newline(),
            scan(old(self).source(), old(self).position()) == (Scan::Emit {
                kind: token.kind,
                text: token.text@,
                next: final(self).position(),
            }),
            token.loc@ == location_of(old(self).source(), old(self).filename(), old(self).position()),
            old(self).position() < final(self).position() <= old(self).source().len(),
    {
        let loc = self.location.clone();
        let start = self.current_index;
        proof {
            lemma_run_end(self.source(), self.position() + 1, CharClass::Word);
        }
        self.advance_run(CharClass::Word);
        let text = collect(&self.input, start, self.current_index);
        Token::from_str(text, loc)
    }

    /// Moves the cursor over the comment that begins under it, and over the
    /// line feed that ends it.
    fn skip_comment(&mut self)
        requires
            old(self).wf(),
            old(self).position() < old(self).source().len(),
            old(self).source()[old(self).position()] == '/',
            followed_by(old(self).source(), old(self).position(), '/'),
        ensures
            final(self).wf(),
            final(self).source() == old(self).source(),
            final(self).filename() == old(self).filename(),
            match scan(old(self).source(), old(self).position()) {
                Scan::Skip { next, newline } => {
                    &&& final(self).position() == next
                    &&& final(self).pending_newline() == (old(self).pending_newline() || newline)
                },
                _ => false,
            },
            old(self).position() < final(self).position() <= old(self).source().len(),
    {
        proof {
            lemma_run_end(self.source(), self.position(), CharClass::Comment);
            lemma_run_end(self.source(), self.position() + 1, CharClass::Comment);
        }
        self.advance_run(CharClass::Comment);
        self.increment();
    }

    /// Reads the string literal whose opening quote is under the cursor.
    /// The text of the token is what stands between the quotes, verbatim.
    /// After a failure the cursor is at the line feed, or at the end of the
    /// source, that stands where the closing quote is missing.
    fn lex_string_literal(&mut self) -> (r: Result<Token, Error>)
        requires
            old(self).wf(),
            old(self).position() < old(self).source().len(),
            old(self).source()[old(self).position()] == '"',
        ensures
            final(self).wf(),
            final(self).source() == old(self).source(),
            final(self).filename() == old(self).filename(),
            final(self).pending_newline() == old(self).pending_newline(),
            match r {
                Ok(token) => {
                    &&& scan(old(self).source(), old(self).position()) == (Scan::Emit {
                        kind: token.kind,
                        text: token.text@,
                        next: final(self).position(),
                    })
                    &&& token.loc@ == location_of(
                        old(self).source(),
                        old(self).filename(),
                        old(self).position(),
                    )
                    &&& old(self).position() < final(self).position() <= old(self).source().len()
                },
                Err(e) => {
                    &&& scan(old(self).source(), old(self).position()) == (Scan::Fail {
                        error: e.kind@,
                    })
                    &&& e.loc@ == location_of(
                        old(self).source(),
                        old(self).filename(),
                        old(self).position(),
                    )
                    &&& final(self).position() == run_end(
                        old(self).source(),
                        old(self).position() + 1,
                        CharClass::Quoted,
                    )
                },
            },
    {
        let loc = self.location.clone();
        self.increment();
        let start = self.current_index;
        proof {
            lemma_run_end(self.source(), self.position(), CharClass::Quoted);
        }
        self.advance_run(CharClass::Quoted);
        match self.cur() {
            Some('"') => {
                let text = collect(&self.input, start, self.current_index);
                self.increment();
                Ok(Token::new(TokenKind::StringLiteral, loc, text))
            },
            Some(_) => Err(Error { loc, kind: ErrorKind::NewlineInString }),
            None => Err(Error { loc, kind: ErrorKind::UnterminatedString }),
        }
    }

    /// The punctuation or comparison token that begins under the cursor,
    /// with its length.
    fn punctuation_here(&self) -> (r: Option<(TokenKind, usize)>)
        requires
            self.wf(),
            self.position() < self.source().len(),
        ensures
            match r {
                Some((kind, len)) => punctuation(self.source(), self.position()) == Some(
                    (kind, len as int),
                ),
                None => punctuation(self.source(), self.position()) is None,
            },
    {
        let c = self.input[self.current_index];
        let next = self.peek(1);
        if c == '+' {
            Some((TokenKind::Plus, 1))
        } else if c == '-' {
            Some((TokenKind::Minus, 1))
        } else if c == '*' {
            Some((TokenKind::Star, 1))
        } else if c == '/' {
            Some((TokenKind::Slash, 1))
        } else if c == '(' {
            Some((TokenKind::LeftParen, 1))
        } else if c == ')' {
            Some((TokenKind::RightParen, 1))
        } else if c == '[' {
            Some((TokenKind::LeftBracket, 1))
        } else if c == ']' {
            Some((TokenKind::RightBracket, 1))
        } else if c == '|' {
            Some((TokenKind::Pipe, 1))
        } else if c == ':' {
            Some((TokenKind::Colon, 1))
        } else if c == ';' {
            Some((TokenKind::SemiColon, 1))
        } else if c == ',' {
            Some((TokenKind::Comma, 1))
        } else if c == '{' {
            Some((TokenKind::LeftBrace, 1))
        } else if c == '}' {
            Some((TokenKind::RightBrace, 1))
        } else if c == '@' {
            Some((TokenKind::At, 1))
        } else if c == '=' {
            match next {
                Some('>') => Some((TokenKind::FatArrow, 2)),
                Some('=') => Some((TokenKind::EqualsEquals, 2)),
                _ => Some((TokenKind::Equals, 1)),
            }
        } else if c == '!' {
            match next {
                Some('=') => Some((TokenKind::BangEquals, 2)),
                _ => None,
            }
        } else if c == '<' {
            match next {
                Some('=') => Some((TokenKind::LessThanEquals, 2)),
                _ => Some((TokenKind::LessThan, 1)),
            }
        } else if c == '>' {
            match next {
                Some('=') => Some((TokenKind::GreaterThanEquals, 2)),
                _ => Some((TokenKind::GreaterThan, 1)),
            }
        } else if c == '.' {
            match next {
                Some('.') => Some((TokenKind::DotDot, 2)),
                _ => None,
            }
        } else {
            None
        }
    }

    /// Reads the rest of the source: its tokens from the cursor on, the
    /// last of them the end-of-input token, or the first lexical error.
    /// After a success the cursor is at the end of the source; after an
    /// error it is where it was.
    pub fn lex(&mut self) -> (r: Result<Vec<Token>, Error>)
        requires
            old(self).wf(),
        ensures
            final(self).wf(),
            final(self).source() == old(self).source(),
            final(self).filename() == old(self).filename(),
            match r {
                Ok(tokens) => {
                    &&& lex_from(
                        old(self).source(),
                        old(self).filename(),
                        old(self).position(),
                        old(self).pending_newline(),
                    ) == Ok::<Seq<TokenView>, ErrorView>(token_views(tokens@))
                    &&& final(self).position() == old(self).source().len()
                    &&& !final(self).pending_newline()
                },
                Err(e) => {
                    &&& lex_from(
                        old(self).source(),
                        old(self).filename(),
                        old(self).position(),
                        old(self).pending_newline(),
                    ) == Err::<Seq<TokenView>, ErrorView>(e@)
                    &&& final(self).position() == old(self).position()
                    &&& final(self).pending_newline() == old(self).pending_newline()
                },
            },
    {
        let start_index = self.current_index;
        let start_location = self.location.clone();
        let start_newline = self.seen_newline;
        let ghost goal = lex_from(
            self.source(),
            self.filename(),
            self.position(),
            self.pending_newline(),
        );
        let mut tokens: Vec<Token> = Vec::new();
        let mut failure: Option<Error> = None;
        assert(after(token_views(tokens@), goal) == goal) by {
            match goal {
                Ok(rest) => {
                    assert(token_views(tokens@) + rest =~= rest);
                },
                Err(_) => {},
            }
        }
        loop
            invariant_except_break
                failure is None,
                after(
                    token_views(tokens@),
                    lex_from(
                        self.source(),
                        self.filename(),
                        self.position(),
                        self.pending_newline(),
                    ),
                ) == goal,
            invariant
                self.wf(),
                self.source() == old(self).source(),
                self.filename() == old(self).filename(),
            ensures
                self.wf(),
                self.source() == old(self).source(),
                self.filename() == old(self).filename(),
                match failure {
                    None => {
                        &&& self.position() == self.source().len()
                        &&& after(
                            token_views(tokens@),
                            lex_from(
                                self.source(),
                                self.filename(),
                                self.position(),
                                self.pending_newline(),
                            ),
                        ) == goal
                    },
                    Some(e) => goal == Err::<Seq<TokenView>, ErrorView>(e@),
                },
            decreases self.source().len() - self.position(),
        {
            let c = match self.cur() {
                Some(c) => c,
                None => {
                    break ;
                },
            };
            let ghost before = token_views(tokens@);
            let ghost here = self.position();
            let ghost flag = self.pending_newline();
            if space(c) {
                self.increment();
            } else if digit(c) {
                let token = self.lex_number();
                self.push(&mut tokens, token);
                proof {
                    lemma_after_push(
                        before,
                        TokenView { newline_before: flag, ..token@ },
                        lex_from(self.source(), self.filename(), self.position(), false),
                    );
                }
            } else if c == '/' && self.peek(1) == Some('/') {
                self.skip_comment();
            } else if let Some((kind, len)) = self.punctuation_here() {
                self.push_simple(&mut tokens, kind, len);
                proof {
                    lemma_after_push(
                        before,
                        TokenView {
                            kind,
                            text: self.source().subrange(here, here + len),
                            loc: location_of(self.source(), self.filename(), here),
                            newline_before: flag,
                        },
                        lex_from(self.source(), self.filename(), self.position(), false),
                    );
                }
            } else if c == '"' {
                match self.lex_string_literal() {
                    Ok(token) => {
                        self.push(&mut tokens, token);
                        proof {
                            lemma_after_push(
                                before,
                                TokenView { newline_before: flag, ..token@ },
                                lex_from(self.source(), self.filename(), self.position(), false),
                            );
                        }
                    },
                    Err(e) => {
                        failure = Some(e);
                        break ;
                    },
                }
            } else if ident_start(c) {
                let token = self.lex_word();
                self.push(&mut tokens, token);
                proof {
                    lemma_after_push(
                        before,
                        TokenView { newline_before: flag, ..token@ },
                        lex_from(self.source(), self.filename(), self.position(), false),
                    );
                }
            } else {
                failure = Some(
                    Error { loc: self.location.clone(), kind: ErrorKind::UnexpectedCharacter(c) },
                );
                break ;
            }
        }
        match failure {
            Some(e) => {
                self.current_index = start_index;
                self.location = start_location;
                self.seen_newline = start_newline;
                Err(e)
            },
            None => {
                let ghost before = token_views(tokens@);
                let ghost flag = self.pending_newline();
                self.push_simple(&mut tokens, TokenKind::EOF, 0);
                proof {
                    let here = self.position();
                    assert(self.source().subrange(here, here + 0) =~= Seq::<char>::empty());
                    assert(before + seq![eof_token(self.source(), self.filename(), flag)]
                        =~= before.push(eof_token(self.source(), self.filename(), flag)));
                }
                Ok(tokens)
            },
        }
    }
}

/// Emitting a token and going on is going on with that token in front.
pub proof fn lemma_after_push(
    before: Seq<TokenView>,
    token: TokenView,
    rest: Result<Seq<TokenView>, ErrorView>,
)
    ensures
        after(before.push(token), rest) == after(before, after(seq![token], rest)),
{
    match rest {
        Ok(tokens) => {
            assert(before.push(token) + tokens =~= before + (seq![token] + tokens));
        },
        Err(_) => {},
    }
}

} // verus!
