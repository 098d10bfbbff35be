//! What holds of every source text and of every token sequence:
//! properties of lexing and of parsing, proved from their definitions.

use vstd::prelude::*;
use crate::ast::AstView;
use crate::chars::is_digit;
use crate::grammar::{body, decorated, expect, function, kind_at, line_end, onward, postfix};
use crate::error::{ErrorKindView, ErrorView};
use crate::parser::has_eof;
use crate::scan::{
    after, column_of, eof_token, followed_by, in_class, lemma_run_end, lemma_scan_advances,
    lemma_location_bounds, lex_from, lex_source, line_of, location_of, run_end, scan, CharClass,
    Scan,
};
use crate::token::{LocationView, TokenKind, TokenView};

verus! {

/// A run of characters that all belong to a class, up to the end of the
/// text or to a character that does not belong to it, is a maximal run.
pub proof fn lemma_run_to(src: Seq<char>, from: int, to: int, class: CharClass)
    requires
        0 <= from <= to <= src.len(),
        forall|i: int| from <= i < to ==> in_class(class, #[trigger] src[i]),
        to == src.len() || !in_class(class, src[to]),
    ensures
        run_end(src, from, class) == to,
    decreases to - from,
{
    if from < to {
        lemma_run_to(src, from + 1, to, class);
    }
}

/// The tokens that lexing the text of a token by itself gives: the token
/// at the start of the text, and the end of input; or, for the text of the
/// end of input, the end of input alone.
pub open spec fn alone(token: TokenView, file: Seq<char>) -> Seq<TokenView> {
    if token.kind == TokenKind::EOF {
        seq![eof_token(token.text, file, false)]
    } else {
        seq![
            TokenView {
                kind: token.kind,
                text: token.text,
                loc: LocationView { line: 1, column: 1, filename: file },
                newline_before: false,
            },
            eof_token(token.text, file, false),
        ]
    }
}

/// Where a rule emits a token other than a string literal, the same rule
/// emits the same token from the token's text alone, and reads all of it.
pub proof fn lemma_rescan(src: Seq<char>, pos: int)
    requires
        0 <= pos < src.len(),
    ensures
        match scan(src, pos) {
            Scan::Emit { kind, text, next } => kind != TokenKind::StringLiteral ==> text.len() > 0
                && kind != TokenKind::EOF && scan(text, 0) == (Scan::Emit {
                kind,
                text,
                next: text.len() as int,
            }),
            _ => true,
        },
{
    lemma_scan_advances(src, pos);
    match scan(src, pos) {
        Scan::Emit { kind, text, next } => {
            if kind != TokenKind::StringLiteral {
                assert(text == src.subrange(pos, next));
                assert(text[0] == src[pos]);
                assert(text.subrange(0, text.len() as int) =~= text);
                if is_digit(src[pos]) {
                    let whole = run_end(src, pos, CharClass::Digit);
                    lemma_run_end(src, pos, CharClass::Digit);
                    if whole < src.len() && src[whole] == '.' {
                        lemma_run_end(src, whole + 1, CharClass::Digit);
                        assert(text[whole - pos] == '.');
                        lemma_run_to(text, 0, whole - pos, CharClass::Digit);
                        lemma_run_to(text, whole - pos + 1, text.len() as int, CharClass::Digit);
                    } else {
                        lemma_run_to(text, 0, text.len() as int, CharClass::Digit);
                    }
                } else if kind == crate::token::keyword_kind(text) && crate::chars::is_ident_start(
                    src[pos],
                ) {
                    lemma_run_end(src, pos, CharClass::Word);
                    lemma_run_to(text, 0, text.len() as int, CharClass::Word);
                } else {
                    if text.len() == 2 {
                        assert(text[1] == src[pos + 1]);
                    }
                }
            }
        },
        _ => {},
    }
}

/// Lexing the text of a token that is no string literal and not the end of
/// input, by itself, gives that token and the end of input.
pub proof fn lemma_relex_scanned(src: Seq<char>, pos: int, file: Seq<char>)
    requires
        0 <= pos < src.len(),
    ensures
        match scan(src, pos) {
            Scan::Emit { kind, text, next } => kind != TokenKind::StringLiteral ==> lex_source(
                text,
                file,
            ) == Ok::<Seq<TokenView>, ErrorView>(
                alone(
                    TokenView {
                        kind,
                        text,
                        loc: location_of(src, file, pos),
                        newline_before: false,
                    },
                    file,
                ),
            ),
            _ => true,
        },
{
    lemma_rescan(src, pos);
    match scan(src, pos) {
        Scan::Emit { kind, text, next } => {
            if kind != TokenKind::StringLiteral {
                let first = TokenView {
                    kind,
                    text,
                    loc: location_of(text, file, 0),
                    newline_before: false,
                };
                assert(lex_from(text, file, text.len() as int, false) == Ok::<
                    Seq<TokenView>,
                    ErrorView,
                >(seq![eof_token(text, file, false)]));
                assert(lex_from(text, file, 0, false) == after(
                    seq![first],
                    lex_from(text, file, text.len() as int, false),
                ));
                assert(seq![first] + seq![eof_token(text, file, false)] =~= seq![
                    first,
                    eof_token(text, file, false),
                ]);
            }
        },
        _ => {},
    }
}

/// Every token of a lexed text is the end of input, with no text, or was
/// emitted by a rule at some position of the text.
pub proof fn lemma_tokens_are_scanned(
    src: Seq<char>,
    file: Seq<char>,
    pos: int,
    newline: bool,
    i: int,
) -> (at: int)
    requires
        0 <= pos,
        lex_from(src, file, pos, newline) is Ok,
        0 <= i < lex_from(src, file, pos, newline)->Ok_0.len(),
    ensures
        ({
            let token = lex_from(src, file, pos, newline)->Ok_0[i];
            if token.kind == TokenKind::EOF {
                token.text == Seq::<char>::empty()
            } else {
                &&& pos <= at < src.len()
                &&& scan(src, at) matches Scan::Emit { kind, text, .. } && kind == token.kind
                    && text == token.text
            }
        }),
    decreases src.len() - pos,
{
    if pos >= src.len() {
        pos
    } else {
        lemma_scan_advances(src, pos);
        match scan(src, pos) {
            Scan::Skip { next, newline: passed } => lemma_tokens_are_scanned(
                src,
                file,
                next,
                newline || passed,
                i,
            ),
            Scan::Emit { kind, text, next } => {
                lemma_rescan(src, pos);
                if i == 0 {
                    pos
                } else {
                    lemma_tokens_are_scanned(src, file, next, false, i - 1)
                }
            },
            Scan::Fail { .. } => pos,
        }
    }
}

/// Lexing again what a token was read from gives the token back: for every
/// token of a lexed text that is no string literal, lexing the token's
/// text by itself gives a token of the same kind and text, followed by the
/// end of input. (The text of a string literal is what stands between its
/// quotes, which by itself is no string literal.)
pub proof fn law_relex(src: Seq<char>, file: Seq<char>, i: int, again: Seq<char>)
    requires
        lex_source(src, file) is Ok,
        0 <= i < lex_source(src, file)->Ok_0.len(),
        lex_source(src, file)->Ok_0[i].kind != TokenKind::StringLiteral,
    ensures
        lex_source(lex_source(src, file)->Ok_0[i].text, again) == Ok::<Seq<TokenView>, ErrorView>(
            alone(lex_source(src, file)->Ok_0[i], again),
        ),
{
    let token = lex_source(src, file)->Ok_0[i];
    let at = lemma_tokens_are_scanned(src, file, 0, false, i);
    if token.kind == TokenKind::EOF {
        assert(lex_from(token.text, again, 0, false) == Ok::<Seq<TokenView>, ErrorView>(
            seq![eof_token(token.text, again, false)],
        ));
    } else {
        lemma_relex_scanned(src, at, again);
    }
}

/// A point starts no number: at a point the lexer emits `..`, or fails on
/// the point.
pub proof fn law_point_starts_no_number(src: Seq<char>, pos: int)
    requires
        0 <= pos < src.len(),
        src[pos] == '.',
    ensures
        match scan(src, pos) {
            Scan::Emit { kind, text, next } => kind == TokenKind::DotDot && text == seq!['.', '.'],
            Scan::Skip { .. } => false,
            Scan::Fail { error } => error == ErrorKindView::UnexpectedCharacter('.'),
        },
{
    if let Scan::Emit { kind, text, next } = scan(src, pos) {
        assert(text =~= seq!['.', '.']);
    }
}

/// The text of every number token begins with a decimal digit.
pub proof fn law_numbers_begin_with_a_digit(src: Seq<char>, file: Seq<char>, i: int)
    requires
        lex_source(src, file) is Ok,
        0 <= i < lex_source(src, file)->Ok_0.len(),
        lex_source(src, file)->Ok_0[i].kind == TokenKind::IntegerLiteral || lex_source(
            src,
            file,
        )->Ok_0[i].kind == TokenKind::FloatLiteral,
    ensures
        lex_source(src, file)->Ok_0[i].text.len() > 0,
        is_digit(lex_source(src, file)->Ok_0[i].text[0]),
{
    let at = lemma_tokens_are_scanned(src, file, 0, false, i);
    lemma_scan_advances(src, at);
    lemma_rescan(src, at);
}

/// The tokens of a lexed text end with the end of input, which occurs
/// nowhere else among them; so they are tokens that a parser accepts.
pub proof fn law_tokens_end_with_eof(src: Seq<char>, file: Seq<char>, pos: int, newline: bool)
    requires
        0 <= pos,
        lex_from(src, file, pos, newline) is Ok,
    ensures
        ({
            let tokens = lex_from(src, file, pos, newline)->Ok_0;
            &&& tokens.len() > 0
            &&& forall|i: int|
                0 <= i < tokens.len() ==> ((#[trigger] tokens[i]).kind == TokenKind::EOF <==> i
                    == tokens.len() - 1)
            &&& has_eof(tokens)
        }),
    decreases src.len() - pos,
{
    let tokens = lex_from(src, file, pos, newline)->Ok_0;
    if pos < src.len() {
        lemma_scan_advances(src, pos);
        match scan(src, pos) {
            Scan::Skip { next, newline: passed } => {
                law_tokens_end_with_eof(src, file, next, newline || passed);
            },
            Scan::Emit { kind, text, next } => {
                law_tokens_end_with_eof(src, file, next, false);
                lemma_rescan(src, pos);
                let rest = lex_from(src, file, next, false)->Ok_0;
                assert forall|i: int| 0 <= i < tokens.len() implies ((#[trigger] tokens[i]).kind
                    == TokenKind::EOF <==> i == tokens.len() - 1) by {
                    if i > 0 {
                        assert(tokens[i] == rest[i - 1]);
                    }
                }
            },
            Scan::Fail { .. } => {},
        }
    }
    assert(tokens[tokens.len() - 1].kind == TokenKind::EOF);
}

/// A maximal run in a text that follows a prefix ends where it ends in the
/// text alone, moved by the length of the prefix.
pub proof fn lemma_run_after_prefix(pre: Seq<char>, rest: Seq<char>, pos: int, class: CharClass)
    requires
        0 <= pos <= rest.len(),
    ensures
        run_end(pre + rest, pre.len() + pos, class) == pre.len() + run_end(rest, pos, class),
    decreases rest.len() - pos,
{
    if pos < rest.len() {
        assert((pre + rest)[pre.len() + pos] == rest[pos]);
        if in_class(class, rest[pos]) {
            lemma_run_after_prefix(pre, rest, pos + 1, class);
        }
    }
}

/// What a rule does at a position, seen from `by` characters earlier.
pub open spec fn moved(s: Scan, by: int) -> Scan {
    match s {
        Scan::Skip { next, newline } => Scan::Skip { next: next + by, newline },
        Scan::Emit { kind, text, next } => Scan::Emit { kind, text, next: next + by },
        Scan::Fail { error } => Scan::Fail { error },
    }
}

/// The rules look only ahead: in a text that follows a prefix they do what
/// they do in the text alone.
pub proof fn lemma_scan_after_prefix(pre: Seq<char>, rest: Seq<char>, pos: int)
    requires
        0 <= pos < rest.len(),
    ensures
        scan(pre + rest, pre.len() + pos) == moved(scan(rest, pos), pre.len() as int),
{
    let src = pre + rest;
    let k = pre.len() as int;
    assert(src[k + pos] == rest[pos]);
    assert(followed_by(src, k + pos, '/') == followed_by(rest, pos, '/')
        && followed_by(src, k + pos, '>') == followed_by(rest, pos, '>')
        && followed_by(src, k + pos, '=') == followed_by(rest, pos, '=')
        && followed_by(src, k + pos, '.') == followed_by(rest, pos, '.')) by {
        if pos + 1 < rest.len() {
            assert(src[k + pos + 1] == rest[pos + 1]);
        }
    }
    lemma_run_after_prefix(pre, rest, pos, CharClass::Digit);
    lemma_run_after_prefix(pre, rest, pos, CharClass::Comment);
    lemma_run_after_prefix(pre, rest, pos, CharClass::Word);
    lemma_run_after_prefix(pre, rest, pos + 1, CharClass::Quoted);
    lemma_run_end(rest, pos, CharClass::Digit);
    lemma_run_end(rest, pos, CharClass::Comment);
    lemma_run_end(rest, pos, CharClass::Word);
    lemma_run_end(rest, pos + 1, CharClass::Quoted);
    let whole = run_end(rest, pos, CharClass::Digit);
    if whole < rest.len() {
        assert(src[k + whole] == rest[whole]);
        lemma_run_after_prefix(pre, rest, whole + 1, CharClass::Digit);
        lemma_run_end(rest, whole + 1, CharClass::Digit);
        let fraction = run_end(rest, whole + 1, CharClass::Digit);
        assert(src.subrange(k + pos, k + fraction) =~= rest.subrange(pos, fraction));
    }
    assert(src.subrange(k + pos, k + whole) =~= rest.subrange(pos, whole));
    let word = run_end(rest, pos, CharClass::Word);
    assert(src.subrange(k + pos, k + word) =~= rest.subrange(pos, word));
    let quoted = run_end(rest, pos + 1, CharClass::Quoted);
    if quoted < rest.len() {
        assert(src[k + quoted] == rest[quoted]);
    }
    assert(src.subrange(k + pos + 1, k + quoted) =~= rest.subrange(pos + 1, quoted));
    assert(src.subrange(k + pos, k + pos + 1) =~= rest.subrange(pos, pos + 1));
    if pos + 2 <= rest.len() {
        assert(src.subrange(k + pos, k + pos + 2) =~= rest.subrange(pos, pos + 2));
    }
}

/// After a prefix that ends with a line feed, columns are those of the
/// text alone, and lines are those of the text alone after the lines of
/// the prefix.
pub proof fn lemma_location_after_prefix(pre: Seq<char>, rest: Seq<char>, pos: int)
    requires
        0 <= pos <= rest.len(),
        pre.len() > 0,
        pre.last() == '\n',
    ensures
        line_of(pre + rest, pre.len() + pos) + 1 == line_of(rest, pos) + line_of(
            pre,
            pre.len() as int,
        ),
        column_of(pre + rest, pre.len() + pos) == column_of(rest, pos),
    decreases pos,
{
    let src = pre + rest;
    let k = pre.len() as int;
    if pos == 0 {
        lemma_line_in_prefix(pre, rest, k);
        assert(src[k - 1] == pre[k - 1]);
    } else {
        lemma_location_after_prefix(pre, rest, pos - 1);
        assert(src[k + pos - 1] == rest[pos - 1]);
    }
}

/// The lines inside a prefix are those of the prefix alone.
pub proof fn lemma_line_in_prefix(pre: Seq<char>, rest: Seq<char>, pos: int)
    requires
        0 <= pos <= pre.len(),
    ensures
        line_of(pre + rest, pos) == line_of(pre, pos),
    decreases pos,
{
    if pos > 0 {
        lemma_line_in_prefix(pre, rest, pos - 1);
        assert((pre + rest)[pos - 1] == pre[pos - 1]);
    }
}

/// A text without a line feed is one line.
pub proof fn lemma_one_line(text: Seq<char>, pos: int)
    requires
        0 <= pos <= text.len(),
        forall|i: int| 0 <= i < pos ==> #[trigger] text[i] != '\n',
    ensures
        line_of(text, pos) == 1,
    decreases pos,
{
    if pos > 0 {
        lemma_one_line(text, pos - 1);
    }
}

/// `loc`, `lines` lines further down.
pub open spec fn lowered(loc: LocationView, lines: nat) -> LocationView {
    LocationView { line: loc.line + lines, ..loc }
}

/// The tokens, or the error, of `r`, each `lines` lines further down.
pub open spec fn all_lowered(r: Result<Seq<TokenView>, ErrorView>, lines: nat) -> Result<
    Seq<TokenView>,
    ErrorView,
> {
    match r {
        Ok(tokens) => Ok(
            Seq::new(
                tokens.len(),
                |i: int| TokenView { loc: lowered(tokens[i].loc, lines), ..tokens[i] },
            ),
        ),
        Err(e) => Err(ErrorView { loc: lowered(e.loc, lines), ..e }),
    }
}

/// The tokens of `r`, the first of them after a line break.
pub open spec fn first_on_new_line(r: Result<Seq<TokenView>, ErrorView>) -> Result<
    Seq<TokenView>,
    ErrorView,
> {
    match r {
        Ok(tokens) => Ok(
            Seq::new(
                tokens.len(),
                |i: int|
                    if i == 0 {
                        TokenView { newline_before: true, ..tokens[i] }
                    } else {
                        tokens[i]
                    },
            ),
        ),
        Err(e) => Err(e),
    }
}

/// A text that follows a prefix ending with a line feed lexes as the text
/// alone does, further down by the lines of the prefix.
pub proof fn lemma_lex_after_prefix(
    pre: Seq<char>,
    rest: Seq<char>,
    file: Seq<char>,
    pos: int,
    newline: bool,
)
    requires
        0 <= pos <= rest.len(),
        pre.len() > 0,
        pre.last() == '\n',
    ensures
        lex_from(pre + rest, file, pre.len() + pos, newline) == all_lowered(
            lex_from(rest, file, pos, newline),
            (line_of(pre, pre.len() as int) - 1) as nat,
        ),
    decreases rest.len() - pos,
{
    let src = pre + rest;
    let k = pre.len() as int;
    let lines = (line_of(pre, k) - 1) as nat;
    lemma_location_after_prefix(pre, rest, pos);
    lemma_location_bounds(pre, k);
    let there = lex_from(src, file, k + pos, newline);
    let here = lex_from(rest, file, pos, newline);
    if pos >= rest.len() {
        assert(there->Ok_0 =~= all_lowered(here, lines)->Ok_0);
    } else {
        lemma_scan_after_prefix(pre, rest, pos);
        lemma_scan_advances(rest, pos);
        match scan(rest, pos) {
            Scan::Skip { next, newline: passed } => {
                lemma_lex_after_prefix(pre, rest, file, next, newline || passed);
            },
            Scan::Emit { kind, text, next } => {
                lemma_lex_after_prefix(pre, rest, file, next, false);
                if here is Ok {
                    assert(there->Ok_0 =~= all_lowered(here, lines)->Ok_0);
                }
            },
            Scan::Fail { .. } => {},
        }
    }
}

/// A line feed passed before a position shows in the first token after it
/// and nowhere else.
pub proof fn lemma_lex_after_newline(src: Seq<char>, file: Seq<char>, pos: int)
    requires
        0 <= pos,
    ensures
        lex_from(src, file, pos, true) == first_on_new_line(lex_from(src, file, pos, false)),
    decreases src.len() - pos,
{
    let marked = lex_from(src, file, pos, true);
    let plain = lex_from(src, file, pos, false);
    if pos >= src.len() {
        assert(marked->Ok_0 =~= first_on_new_line(plain)->Ok_0);
    } else {
        lemma_scan_advances(src, pos);
        match scan(src, pos) {
            Scan::Skip { next, newline: passed } => {
                lemma_lex_after_newline(src, file, next);
                let later = lex_from(src, file, next, false);
                if passed && later is Ok {
                    assert(first_on_new_line(first_on_new_line(later))->Ok_0
                        =~= first_on_new_line(later)->Ok_0);
                }
            },
            Scan::Emit { kind, text, next } => {
                if plain is Ok {
                    assert(marked->Ok_0 =~= first_on_new_line(plain)->Ok_0);
                }
            },
            Scan::Fail { .. } => {},
        }
    }
}

/// A comment line in front of a text changes nothing but the lines: the
/// text lexes as it does alone, every location one line further down, and
/// the first token after a line break.
pub proof fn law_comment_line(comment: Seq<char>, rest: Seq<char>, file: Seq<char>)
    requires
        forall|i: int| 0 <= i < comment.len() ==> #[trigger] comment[i] != '\n',
    ensures
        lex_source(seq!['/', '/'] + comment + seq!['\n'] + rest, file) == first_on_new_line(
            all_lowered(lex_source(rest, file), 1),
        ),
{
    let pre = seq!['/', '/'] + comment + seq!['\n'];
    let src = pre + rest;
    let k = pre.len() as int;
    assert(pre[0] == '/' && pre[1] == '/' && pre[k - 1] == '\n');
    assert(src[0] == '/' && src[1] == '/' && src[k - 1] == '\n');
    assert forall|i: int| 0 <= i < k - 1 implies in_class(CharClass::Comment, #[trigger] src[i]) by {
        if i >= 2 {
            assert(src[i] == comment[i - 2]);
        }
    }
    lemma_run_to(src, 0, k - 1, CharClass::Comment);
    assert(scan(src, 0) == Scan::Skip { next: k, newline: true });
    assert(lex_from(src, file, 0, false) == lex_from(src, file, k, true));
    lemma_lex_after_newline(src, file, k);
    lemma_lex_after_prefix(pre, rest, file, 0, false);
    assert forall|i: int| 0 <= i < k - 1 implies #[trigger] pre[i] != '\n' by {
        if i >= 2 {
            assert(pre[i] == comment[i - 2]);
        }
    }
    lemma_one_line(pre, k - 1);
    assert(line_of(pre, k) == 2);
}

/// A string literal is what stands between two quotes on one line: a
/// quote, then `content` without quote or line feed, then a quote, make the
/// string literal `content`; a line feed or the end of the text in place
/// of the closing quote makes an error.
pub proof fn law_string_literal(content: Seq<char>, rest: Seq<char>)
    requires
        forall|i: int|
            0 <= i < content.len() ==> #[trigger] content[i] != '"' && content[i] != '\n',
    ensures
        scan(seq!['"'] + content + seq!['"'] + rest, 0) == (Scan::Emit {
            kind: TokenKind::StringLiteral,
            text: content,
            next: content.len() as int + 2,
        }),
        scan(seq!['"'] + content + seq!['\n'] + rest, 0) == (Scan::Fail {
            error: ErrorKindView::NewlineInString,
        }),
        scan(seq!['"'] + content, 0) == (Scan::Fail { error: ErrorKindView::UnterminatedString }),
{
    let n = content.len() as int;
    let closed = seq!['"'] + content + seq!['"'] + rest;
    let broken = seq!['"'] + content + seq!['\n'] + rest;
    let open = seq!['"'] + content;
    assert forall|i: int| 1 <= i < n + 1 implies in_class(CharClass::Quoted, #[trigger] closed[i])
        && in_class(CharClass::Quoted, #[trigger] broken[i]) && in_class(
        CharClass::Quoted,
        #[trigger] open[i],
    ) by {
        assert(closed[i] == content[i - 1]);
        assert(broken[i] == content[i - 1]);
        assert(open[i] == content[i - 1]);
    }
    assert(closed[0] == '"' && closed[n + 1] == '"');
    assert(broken[0] == '"' && broken[n + 1] == '\n');
    assert(open[0] == '"');
    lemma_run_to(closed, 1, n + 1, CharClass::Quoted);
    lemma_run_to(broken, 1, n + 1, CharClass::Quoted);
    lemma_run_to(open, 1, n + 1, CharClass::Quoted);
    assert(closed.subrange(1, n + 1) =~= content);
}

/// A decorator leaves no node of its own: a decorated function parses to
/// the assignment, to the variable of the function's name, of a call of
/// the decorator with one argument, the function itself, which holds its
/// name.
pub proof fn law_decorator_is_lowered(ts: Seq<TokenView>, pos: int)
    requires
        decorated(ts, pos) is Ok,
    ensures
        match decorated(ts, pos)->Ok_0.0 {
            AstView::Assignment(_, target, value) => match (*target, *value) {
                (AstView::Variable(_, name), AstView::Call(_, _, args)) => args.len() == 1 && (
                match args[0] {
                    AstView::Function { name: declared, .. } => declared == Some(name),
                    _ => false,
                }),
                _ => false,
            },
            _ => false,
        },
{
    if let Ok(p0) = expect(ts, pos, TokenKind::At) {
        if let Ok((_, p1)) = onward(ts, p0, postfix(ts, p0)) {
            if let Ok(p2) = line_end(ts, p1) {
                assert(function(ts, p2) is Ok);
                assert(function(ts, p2)->Ok_0.0 is Function);
            }
        }
    }
}

/// An arrow body is a return: where `=>` follows the parameters, the body
/// of the function is the return of the expression after it.
pub proof fn law_arrow_body_returns(ts: Seq<TokenView>, pos: int, loc: LocationView)
    requires
        kind_at(ts, pos) == TokenKind::FatArrow,
        body(ts, pos, loc) is Ok,
    ensures
        body(ts, pos, loc)->Ok_0.0 matches AstView::Return(at, _) && at == loc,
{
}

/// Whether the location `a` comes before `b` in reading order.
pub open spec fn comes_before(a: LocationView, b: LocationView) -> bool {
    a.line < b.line || (a.line == b.line && a.column < b.column)
}

/// A later position has a later location, on the same line or further
/// down.
pub proof fn lemma_locations_follow_positions(src: Seq<char>, file: Seq<char>, a: int, b: int)
    requires
        0 <= a < b,
    ensures
        comes_before(location_of(src, file, a), location_of(src, file, b)),
        line_of(src, a) <= line_of(src, b),
    decreases b - a,
{
    if a + 1 < b {
        lemma_locations_follow_positions(src, file, a, b - 1);
    }
}

/// Positions between which no line feed stands are on one line.
pub proof fn lemma_same_line(src: Seq<char>, a: int, b: int)
    requires
        0 <= a <= b,
        forall|i: int| a <= i < b ==> #[trigger] src[i] != '\n',
    ensures
        line_of(src, a) == line_of(src, b),
    decreases b - a,
{
    if a < b {
        lemma_same_line(src, a, b - 1);
    }
}

/// What a rule reads holds a line feed only where the rule says that it
/// passed one, and then as the last character read: a token is on one
/// line, and a skip changes the line exactly if it passed a line feed.
pub proof fn lemma_scan_lines(src: Seq<char>, pos: int)
    requires
        0 <= pos < src.len(),
    ensures
        match scan(src, pos) {
            Scan::Skip { next, newline } => line_of(src, next) == line_of(src, pos) + if newline {
                1nat
            } else {
                0nat
            },
            Scan::Emit { next, .. } => line_of(src, next) == line_of(src, pos),
            Scan::Fail { .. } => true,
        },
{
    lemma_scan_advances(src, pos);
    lemma_run_end(src, pos, CharClass::Digit);
    lemma_run_end(src, pos, CharClass::Comment);
    lemma_run_end(src, pos, CharClass::Word);
    lemma_run_end(src, pos + 1, CharClass::Quoted);
    let whole = run_end(src, pos, CharClass::Digit);
    if whole < src.len() {
        lemma_run_end(src, whole + 1, CharClass::Digit);
    }
    match scan(src, pos) {
        Scan::Skip { next, newline } => {
            if newline {
                lemma_same_line(src, pos, next - 1);
            } else {
                lemma_same_line(src, pos, next);
            }
        },
        Scan::Emit { next, .. } => {
            lemma_same_line(src, pos, next);
        },
        Scan::Fail { .. } => {},
    }
}

/// The first token of what is lexed from a position begins at or after the
/// position; it is marked exactly if a line feed was pending or its line
/// is further down than the position's; and the tokens after it are those
/// lexed from where it ends, on the line it began on. Gives where the
/// first token begins and where it ends.
pub proof fn lemma_first_token(src: Seq<char>, file: Seq<char>, pos: int, newline: bool) -> (r: (
    int,
    int,
))
    requires
        0 <= pos <= src.len(),
        lex_from(src, file, pos, newline) is Ok,
    ensures
        ({
            let tokens = lex_from(src, file, pos, newline)->Ok_0;
            let (begin, end) = r;
            &&& tokens.len() > 0
            &&& pos <= begin <= end <= src.len()
            &&& tokens[0].loc == location_of(src, file, begin)
            &&& tokens[0].newline_before == (newline || line_of(src, pos) < line_of(src, begin))
            &&& line_of(src, end) == line_of(src, begin)
            &&& tokens.len() > 1 ==> begin < end && lex_from(src, file, end, false) == Ok::<
                Seq<TokenView>,
                ErrorView,
            >(tokens.subrange(1, tokens.len() as int))
        }),
    decreases src.len() - pos,
{
    if pos >= src.len() {
        (pos, pos)
    } else {
        lemma_scan_advances(src, pos);
        lemma_scan_lines(src, pos);
        match scan(src, pos) {
            Scan::Skip { next, newline: passed } => {
                let r = lemma_first_token(src, file, next, newline || passed);
                if next < r.0 {
                    lemma_locations_follow_positions(src, file, next, r.0);
                }
                r
            },
            Scan::Emit { kind, text, next } => {
                let tokens = lex_from(src, file, pos, newline)->Ok_0;
                let rest = lex_from(src, file, next, false)->Ok_0;
                assert(tokens.subrange(1, tokens.len() as int) =~= rest);
                (pos, next)
            },
            Scan::Fail { .. } => (pos, pos),
        }
    }
}

/// Of two tokens that follow each other, the second is located after the
/// first, and it is marked as following a line break exactly if it is on
/// a line further down.
pub proof fn lemma_neighbours(src: Seq<char>, file: Seq<char>, pos: int, newline: bool, i: int)
    requires
        0 <= pos <= src.len(),
        lex_from(src, file, pos, newline) is Ok,
        0 <= i,
        i + 1 < lex_from(src, file, pos, newline)->Ok_0.len(),
    ensures
        ({
            let tokens = lex_from(src, file, pos, newline)->Ok_0;
            &&& comes_before(tokens[i].loc, tokens[i + 1].loc)
            &&& tokens[i + 1].newline_before == (tokens[i].loc.line < tokens[i + 1].loc.line)
        }),
    decreases i,
{
    let tokens = lex_from(src, file, pos, newline)->Ok_0;
    let (begin, end) = lemma_first_token(src, file, pos, newline);
    let rest = tokens.subrange(1, tokens.len() as int);
    assert(rest[i] == tokens[i + 1]);
    if i == 0 {
        let (second, _) = lemma_first_token(src, file, end, false);
        assert(rest[0] == tokens[1]);
        lemma_locations_follow_positions(src, file, begin, second);
    } else {
        assert(rest[i - 1] == tokens[i]);
        lemma_neighbours(src, file, end, false, i - 1);
    }
}

/// Tokens are located in reading order: each token of a lexed text is
/// located after the token before it.
pub proof fn law_locations_grow(src: Seq<char>, file: Seq<char>, i: int)
    requires
        lex_source(src, file) is Ok,
        0 <= i,
        i + 1 < lex_source(src, file)->Ok_0.len(),
    ensures
        comes_before(lex_source(src, file)->Ok_0[i].loc, lex_source(src, file)->Ok_0[i + 1].loc),
{
    lemma_neighbours(src, file, 0, false, i);
}

/// A token is marked as following a line break exactly if it is on a line
/// further down than the token before it; the first token, if it is not
/// on the first line.
pub proof fn law_newline_before(src: Seq<char>, file: Seq<char>, i: int)
    requires
        lex_source(src, file) is Ok,
        0 <= i < lex_source(src, file)->Ok_0.len(),
    ensures
        ({
            let tokens = lex_source(src, file)->Ok_0;
            tokens[i].newline_before == if i == 0 {
                1 < tokens[0].loc.line
            } else {
                tokens[i - 1].loc.line < tokens[i].loc.line
            }
        }),
{
    if i == 0 {
        lemma_first_token(src, file, 0, false);
    } else {
        lemma_neighbours(src, file, 0, false, i - 1);
    }
}

} // verus!
