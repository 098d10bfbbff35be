use lang_front::error::{Error, ErrorKind};
use lang_front::lexer::Lexer;
use lang_front::token::{Location, Token, TokenKind};

fn lex(source: &str) -> Result<Vec<Token>, Error> {
    Lexer::new(source.to_string(), "test.txt".to_string()).lex()
}

fn kinds(source: &str) -> Vec<TokenKind> {
    lex(source).unwrap().iter().map(|t| t.kind).collect()
}

fn texts(source: &str) -> Vec<String> {
    lex(source).unwrap().iter().map(|t| t.text.clone()).collect()
}

fn at(line: usize, column: usize) -> Location {
    Location { line, column, filename: "test.txt".to_string() }
}

#[test]
fn integer_literal_is_one_token() {
    let tokens = lex("123").unwrap();
    assert_eq!(tokens.len(), 2);
    assert_eq!(tokens[0].kind, TokenKind::IntegerLiteral);
    assert_eq!(tokens[0].text, "123");
    assert_eq!(tokens[0].loc, at(1, 1));
    assert!(!tokens[0].newline_before);
    assert_eq!(tokens[1].kind, TokenKind::EOF);
    assert_eq!(tokens[1].text, "");
    assert_eq!(tokens[1].loc, at(1, 4));
}

#[test]
fn float_literal_is_one_token() {
    let tokens = lex("123.456").unwrap();
    assert_eq!(tokens.len(), 2);
    assert_eq!(tokens[0].kind, TokenKind::FloatLiteral);
    assert_eq!(tokens[0].text, "123.456");
}

#[test]
fn float_literal_may_end_with_the_point() {
    assert_eq!(kinds("1. "), vec![TokenKind::FloatLiteral, TokenKind::EOF]);
    assert_eq!(texts("1. "), vec!["1.".to_string(), String::new()]);
}

#[test]
fn bare_point_starts_no_number() {
    let err = lex(".5").unwrap_err();
    assert_eq!(err.kind, ErrorKind::UnexpectedCharacter('.'));
    assert_eq!(err.loc, at(1, 1));
    assert_eq!(err.to_string(), "test.txt:1:1 Unexpected character: .");
}

#[test]
fn two_points_after_digits_are_no_range() {
    let err = lex("1..5").unwrap_err();
    assert_eq!(err.kind, ErrorKind::UnexpectedCharacter('.'));
    assert_eq!(err.loc, at(1, 3));
    assert_eq!(
        kinds("1 .. 5"),
        vec![TokenKind::IntegerLiteral, TokenKind::DotDot, TokenKind::IntegerLiteral, TokenKind::EOF]
    );
}

#[test]
fn comment_is_skipped_and_counts_one_line() {
    let with = lex("// c\nlet x = 1").unwrap();
    let without = lex("let x = 1").unwrap();
    assert_eq!(with.len(), without.len());
    for (a, b) in with.iter().zip(without.iter()) {
        assert_eq!(a.kind, b.kind);
        assert_eq!(a.text, b.text);
        assert_eq!(a.loc.line, b.loc.line + 1);
        assert_eq!(a.loc.column, b.loc.column);
    }
    assert!(with[0].newline_before);
    assert!(!without[0].newline_before);
    for (a, b) in with.iter().zip(without.iter()).skip(1) {
        assert_eq!(a.newline_before, b.newline_before);
    }
}

#[test]
fn comment_without_line_end_runs_to_the_end() {
    let tokens = lex("x // rest").unwrap();
    assert_eq!(tokens.len(), 2);
    assert_eq!(tokens[0].kind, TokenKind::Identifier);
    assert_eq!(tokens[1].kind, TokenKind::EOF);
    assert_eq!(tokens[1].loc, at(1, 10));
    assert!(!tokens[1].newline_before);
}

#[test]
fn slash_alone_is_division() {
    assert_eq!(
        kinds("a / b"),
        vec![TokenKind::Identifier, TokenKind::Slash, TokenKind::Identifier, TokenKind::EOF]
    );
}

#[test]
fn string_literal_keeps_what_is_between_the_quotes() {
    let tokens = lex("\"ab\"").unwrap();
    assert_eq!(tokens.len(), 2);
    assert_eq!(tokens[0].kind, TokenKind::StringLiteral);
    assert_eq!(tokens[0].text, "ab");
    assert_eq!(tokens[0].loc, at(1, 1));
    assert_eq!(tokens[1].loc, at(1, 5));
}

#[test]
fn string_literal_takes_no_escapes() {
    let tokens = lex("\"a\\n\" x").unwrap();
    assert_eq!(tokens[0].text, "a\\n");
    assert_eq!(tokens[1].kind, TokenKind::Identifier);
}

#[test]
fn string_literal_may_hold_any_character() {
    let tokens = lex("\"h\u{e9}\u{4e16}\" + 1").unwrap();
    assert_eq!(tokens[0].text, "h\u{e9}\u{4e16}");
    assert_eq!(tokens[1].kind, TokenKind::Plus);
    assert_eq!(tokens[1].text, "+");
    assert_eq!(tokens[1].loc, at(1, 7));
}

#[test]
fn newline_in_string_literal_fails() {
    let err = lex("\"ab\n").unwrap_err();
    assert_eq!(err.kind, ErrorKind::NewlineInString);
    assert_eq!(err.loc, at(1, 1));
    assert_eq!(err.to_string(), "test.txt:1:1 Unexpected newline in string literal");
}

#[test]
fn unterminated_string_literal_fails() {
    let err = lex("x = \"ab").unwrap_err();
    assert_eq!(err.kind, ErrorKind::UnterminatedString);
    assert_eq!(err.loc, at(1, 5));
    assert_eq!(err.to_string(), "test.txt:1:5 Unterminated string literal");
}

#[test]
fn unexpected_character_fails_where_it_stands() {
    let err = lex("let x\n  = #").unwrap_err();
    assert_eq!(err.kind, ErrorKind::UnexpectedCharacter('#'));
    assert_eq!(err.loc, at(2, 5));
}

#[test]
fn lone_bang_fails() {
    let err = lex("!x").unwrap_err();
    assert_eq!(err.kind, ErrorKind::UnexpectedCharacter('!'));
}

#[test]
fn single_character_punctuation() {
    assert_eq!(
        kinds("+ - * / ( ) [ ] | : ; , { } @ = < >"),
        vec![
            TokenKind::Plus,
            TokenKind::Minus,
            TokenKind::Star,
            TokenKind::Slash,
            TokenKind::LeftParen,
            TokenKind::RightParen,
            TokenKind::LeftBracket,
            TokenKind::RightBracket,
            TokenKind::Pipe,
            TokenKind::Colon,
            TokenKind::SemiColon,
            TokenKind::Comma,
            TokenKind::LeftBrace,
            TokenKind::RightBrace,
            TokenKind::At,
            TokenKind::Equals,
            TokenKind::LessThan,
            TokenKind::GreaterThan,
            TokenKind::EOF,
        ]
    );
}

#[test]
fn two_character_punctuation() {
    assert_eq!(
        kinds("=> == != <= >= .."),
        vec![
            TokenKind::FatArrow,
            TokenKind::EqualsEquals,
            TokenKind::BangEquals,
            TokenKind::LessThanEquals,
            TokenKind::GreaterThanEquals,
            TokenKind::DotDot,
            TokenKind::EOF,
        ]
    );
    assert_eq!(texts("=> .."), vec!["=>".to_string(), "..".to_string(), String::new()]);
}

#[test]
fn punctuation_needs_no_space() {
    assert_eq!(
        kinds("a<=b==>c"),
        vec![
            TokenKind::Identifier,
            TokenKind::LessThanEquals,
            TokenKind::Identifier,
            TokenKind::EqualsEquals,
            TokenKind::GreaterThan,
            TokenKind::Identifier,
            TokenKind::EOF,
        ]
    );
}

#[test]
fn keywords_are_classified_identifiers() {
    assert_eq!(
        kinds(
            "let if else def continue break while for in return assert and or not true false nothing"
        ),
        vec![
            TokenKind::Let,
            TokenKind::If,
            TokenKind::Else,
            TokenKind::Def,
            TokenKind::Continue,
            TokenKind::Break,
            TokenKind::While,
            TokenKind::For,
            TokenKind::In,
            TokenKind::Return,
            TokenKind::Assert,
            TokenKind::And,
            TokenKind::Or,
            TokenKind::Not,
            TokenKind::True,
            TokenKind::False,
            TokenKind::Nothing,
            TokenKind::EOF,
        ]
    );
}

#[test]
fn identifiers_are_maximal_runs() {
    let tokens = lex("lets _x1 iff Let x_").unwrap();
    for token in &tokens[..5] {
        assert_eq!(token.kind, TokenKind::Identifier);
    }
    assert_eq!(
        texts("lets _x1 iff Let x_"),
        vec!["lets", "_x1", "iff", "Let", "x_", ""]
    );
}

#[test]
fn digits_then_letters_are_two_tokens() {
    assert_eq!(kinds("12ab"), vec![TokenKind::IntegerLiteral, TokenKind::Identifier, TokenKind::EOF]);
    assert_eq!(texts("12ab"), vec!["12", "ab", ""]);
}

#[test]
fn locations_count_lines_and_columns_from_one() {
    let tokens = lex("let x = 1\n  y\n\nz").unwrap();
    let places: Vec<(usize, usize)> = tokens.iter().map(|t| (t.loc.line, t.loc.column)).collect();
    assert_eq!(places, vec![(1, 1), (1, 5), (1, 7), (1, 9), (2, 3), (4, 1), (4, 2)]);
    for token in &tokens {
        assert_eq!(token.loc.filename, "test.txt");
    }
}

#[test]
fn newline_before_marks_the_first_token_of_a_line() {
    let tokens = lex("a b\nc\n\nd e\n").unwrap();
    let flags: Vec<bool> = tokens.iter().map(|t| t.newline_before).collect();
    assert_eq!(flags, vec![false, false, true, true, false, true]);
    assert_eq!(tokens[5].kind, TokenKind::EOF);
    assert_eq!(tokens[5].loc, at(5, 1));
}

#[test]
fn unicode_whitespace_is_skipped() {
    let tokens = lex("a\u{a0}\u{2003}\t\r b\u{3000}").unwrap();
    assert_eq!(tokens.len(), 3);
    assert_eq!(tokens[1].text, "b");
    assert_eq!(tokens[1].loc, at(1, 7));
    assert!(!tokens[1].newline_before);
}

#[test]
fn line_separator_is_whitespace_but_no_line_break() {
    let tokens = lex("a\u{2028}b").unwrap();
    assert_eq!(tokens[1].loc, at(1, 3));
    assert!(!tokens[1].newline_before);
}

#[test]
fn empty_source_is_the_end_of_input_alone() {
    let tokens = lex("").unwrap();
    assert_eq!(tokens.len(), 1);
    assert_eq!(tokens[0].kind, TokenKind::EOF);
    assert_eq!(tokens[0].text, "");
    assert_eq!(tokens[0].loc, at(1, 1));
    assert!(!tokens[0].newline_before);
}

#[test]
fn last_token_is_always_the_end_of_input() {
    for source in ["", "x", "x\n", "// c", "1 + 2 // c\n", "\"s\""] {
        let tokens = lex(source).unwrap();
        assert_eq!(tokens.last().unwrap().kind, TokenKind::EOF);
        assert_eq!(tokens.iter().filter(|t| t.kind == TokenKind::EOF).count(), 1);
    }
}

#[test]
fn lexing_again_after_success_gives_the_end_of_input() {
    let mut lexer = Lexer::new("a\nb".to_string(), "test.txt".to_string());
    assert_eq!(lexer.lex().unwrap().len(), 3);
    let again = lexer.lex().unwrap();
    assert_eq!(again.len(), 1);
    assert_eq!(again[0].kind, TokenKind::EOF);
    assert_eq!(again[0].loc, at(2, 2));
    assert!(!again[0].newline_before);
}

#[test]
fn failed_lexing_leaves_the_lexer_where_it_was() {
    let mut lexer = Lexer::new("a $".to_string(), "test.txt".to_string());
    let first = lexer.lex().unwrap_err();
    let second = lexer.lex().unwrap_err();
    assert_eq!(first, second);
    assert_eq!(first.loc, at(1, 3));
}

#[test]
fn lexing_is_deterministic() {
    let source = "def f(a, b) => a[1:2] + b // sum\n@d\ndef g() { return \"s\" }";
    assert_eq!(lex(source).unwrap(), lex(source).unwrap());
}

#[test]
fn relexing_a_token_text_gives_the_token_back() {
    let source = "let x1 = 12 + 3.5 * (y <= 2) // c\nwhile true { f(a, b)[1:2] .. 3 } => @ !=";
    for token in lex(source).unwrap() {
        let again = lex(&token.text).unwrap();
        if token.kind == TokenKind::EOF {
            assert_eq!(again.len(), 1);
        } else {
            assert_eq!(again.len(), 2);
            assert_eq!(again[1].kind, TokenKind::EOF);
        }
        assert_eq!(again[0].kind, token.kind);
        assert_eq!(again[0].text, token.text);
    }
}

#[test]
fn relexing_a_string_literal_text_gives_no_string_back() {
    let tokens = lex("\"ab\"").unwrap();
    let again = lex(&tokens[0].text).unwrap();
    assert_eq!(again[0].kind, TokenKind::Identifier);
}

#[test]
fn token_new_has_no_line_break_before_it() {
    let token = Token::new(TokenKind::Plus, at(3, 4), "+".to_string());
    assert_eq!(token.kind, TokenKind::Plus);
    assert_eq!(token.text, "+");
    assert_eq!(token.loc, at(3, 4));
    assert!(!token.newline_before);
}

#[test]
fn token_from_str_classifies() {
    assert_eq!(Token::from_str("while".to_string(), at(1, 1)).kind, TokenKind::While);
    assert_eq!(Token::from_str("whale".to_string(), at(1, 1)).kind, TokenKind::Identifier);
    assert_eq!(Token::from_str("nothing".to_string(), at(1, 1)).kind, TokenKind::Nothing);
    assert_eq!(Token::from_str("".to_string(), at(1, 1)).kind, TokenKind::Identifier);
    assert_eq!(Token::from_str("True".to_string(), at(1, 1)).text, "True");
    assert_eq!(Token::from_str("True".to_string(), at(1, 1)).kind, TokenKind::Identifier);
}

#[test]
fn token_kind_names() {
    assert_eq!(TokenKind::EOF.name(), "EOF");
    assert_eq!(TokenKind::GreaterThanEquals.name(), "GreaterThanEquals");
    assert_eq!(TokenKind::Let.name(), format!("{:?}", TokenKind::Let));
}

#[test]
fn location_to_string() {
    assert_eq!(at(12, 345).to_string(), "test.txt:12:345");
    assert_eq!(at(1, 10).to_string(), "test.txt:1:10");
    let far = Location { line: usize::MAX, column: 0, filename: String::new() };
    assert_eq!(far.to_string(), format!(":{}:0", usize::MAX));
}

#[test]
fn number_tokens_begin_with_a_digit() {
    let source = "1 2.5 x3 (4) 5..6 \"7\" _8 9. 0";
    match lex(source) {
        Ok(_) => panic!("`5..6` holds a point that begins no token"),
        Err(err) => assert_eq!(err.kind, ErrorKind::UnexpectedCharacter('.')),
    }
    for token in lex("1 2.5 x3 (4) 5 ..6 \"7\" _8 9. 0").unwrap() {
        if token.kind == TokenKind::IntegerLiteral || token.kind == TokenKind::FloatLiteral {
            assert!(token.text.chars().next().unwrap().is_ascii_digit());
        }
    }
}

#[test]
fn comment_line_moves_every_token_one_line_down() {
    let rest = "let s = \"a\"\n\n  f(s) // tail\nx $";
    for comment in ["", " note", "// more / slashes \" and quotes"] {
        let with = lex(&format!("//{}\n{}", comment, "let s = 1\n  f(s)"));
        let without = lex("let s = 1\n  f(s)");
        let (with, without) = (with.unwrap(), without.unwrap());
        assert_eq!(with.len(), without.len());
        for (i, (a, b)) in with.iter().zip(without.iter()).enumerate() {
            assert_eq!((a.kind, &a.text), (b.kind, &b.text));
            assert_eq!(a.loc, Location { line: b.loc.line + 1, ..b.loc.clone() });
            assert_eq!(a.newline_before, b.newline_before || i == 0);
        }
        let failed = lex(&format!("//{}\n{}", comment, rest)).unwrap_err();
        let alone = lex(rest).unwrap_err();
        assert_eq!(failed.kind, alone.kind);
        assert_eq!(failed.loc, Location { line: alone.loc.line + 1, ..alone.loc.clone() });
    }
}

#[test]
fn tokens_are_located_in_reading_order() {
    let source = "let x = 1 // c\n\n  f(x)[1:2] .. \"s\"\n@d; def g() => x <= 2\n";
    let tokens = lex(source).unwrap();
    for pair in tokens.windows(2) {
        let (a, b) = (&pair[0].loc, &pair[1].loc);
        assert!(a.line < b.line || (a.line == b.line && a.column < b.column));
    }
}

#[test]
fn newline_before_says_that_the_line_changed() {
    for source in ["a b\nc\n\nd e\n", "\n\nx // c\ny // d", "// c\n// d\nz;\n;", "\"s\"\n1\n2.5"] {
        let tokens = lex(source).unwrap();
        assert_eq!(tokens[0].newline_before, tokens[0].loc.line > 1);
        for pair in tokens.windows(2) {
            assert_eq!(pair[1].newline_before, pair[1].loc.line > pair[0].loc.line);
        }
    }
}
