use std::sync::Arc;

use lang_front::ast::AST;
use lang_front::error::{Error, ErrorKind};
use lang_front::lexer::Lexer;
use lang_front::parse_source;
use lang_front::parser::Parser;
use lang_front::token::{Location, Token, TokenKind};

fn place(line: usize, column: usize) -> Location {
    Location { line, column, filename: "test.txt".to_string() }
}

fn parse(source: &str) -> Result<Arc<AST>, Error> {
    let tokens = Lexer::new(source.to_string(), "test.txt".to_string()).lex()?;
    Parser::new(tokens).parse()
}

fn optional(node: &Option<Arc<AST>>) -> String {
    match node {
        Some(n) => shape(n),
        None => "_".to_string(),
    }
}

fn list(nodes: &[Arc<AST>]) -> String {
    nodes.iter().map(|n| shape(n)).collect::<Vec<String>>().join(" ")
}

fn pair(name: &str, l: &AST, r: &AST) -> String {
    format!("({} {} {})", name, shape(l), shape(r))
}

/// The tree without its locations, written with parentheses.
fn shape(node: &AST) -> String {
    match node {
        AST::Block(_, statements) => format!("{{{}}}", list(statements)),
        AST::VarDeclaration(_, name, value) => format!("(let {} {})", name, shape(value)),
        AST::If(_, cond, then, otherwise) => {
            format!("(if {} {} {})", shape(cond), shape(then), optional(otherwise))
        }
        AST::While(_, cond, body) => pair("while", cond, body),
        AST::For(_, name, iterable, body) => {
            format!("(for {} {} {})", name, shape(iterable), shape(body))
        }
        AST::Function { name, args, body, .. } => format!(
            "(fn {} [{}] {})",
            name.clone().unwrap_or("_".to_string()),
            args.join(" "),
            shape(body)
        ),
        AST::Return(_, value) => format!("(return {})", shape(value)),
        AST::Break(_) => "break".to_string(),
        AST::Continue(_) => "continue".to_string(),
        AST::Assert(_, cond) => format!("(assert {})", shape(cond)),
        AST::Assignment(_, l, r) => pair("=", l, r),
        AST::Equals(_, l, r) => pair("==", l, r),
        AST::NotEquals(_, l, r) => pair("!=", l, r),
        AST::LessThan(_, l, r) => pair("<", l, r),
        AST::GreaterThan(_, l, r) => pair(">", l, r),
        AST::LessThanEquals(_, l, r) => pair("<=", l, r),
        AST::GreaterThanEquals(_, l, r) => pair(">=", l, r),
        AST::And(_, l, r) => pair("and", l, r),
        AST::Or(_, l, r) => pair("or", l, r),
        AST::Plus(_, l, r) => pair("+", l, r),
        AST::Minus(_, l, r) => pair("-", l, r),
        AST::Multiply(_, l, r) => pair("*", l, r),
        AST::Divide(_, l, r) => pair("/", l, r),
        AST::Not(_, operand) => format!("(not {})", shape(operand)),
        AST::Index(_, base, index) => pair("index", base, index),
        AST::Slice { lhs, start, end, step, .. } => format!(
            "(slice {} {} {} {})",
            shape(lhs),
            optional(start),
            optional(end),
            optional(step)
        ),
        AST::Call(_, callee, args) => format!("(call {} [{}])", shape(callee), list(args)),
        AST::Range(_, start, end) => pair("..", start, end),
        AST::Variable(_, name) => name.clone(),
        AST::IntegerLiteral(_, value) => format!("{}", value),
        AST::FloatLiteral(_, text) => format!("f{}", text),
        AST::StringLiteral(_, text) => format!("{:?}", text),
        AST::BooleanLiteral(_, value) => format!("{}", value),
        AST::Nothing(_) => "nothing".to_string(),
    }
}

fn shape_of(source: &str) -> String {
    shape(&parse(source).unwrap())
}

fn error_of(source: &str) -> Error {
    parse(source).unwrap_err()
}

fn token(kind: TokenKind, text: &str, column: usize) -> Token {
    Token::new(kind, place(1, column), text.to_string())
}

#[test]
fn integer_literal_has_its_value() {
    let tree = parse("123").unwrap();
    assert_eq!(
        *tree,
        AST::Block(place(1, 1), vec![Arc::new(AST::IntegerLiteral(place(1, 1), 123))])
    );
}

#[test]
fn float_literal_keeps_its_text() {
    let tree = parse("123.456").unwrap();
    assert_eq!(
        *tree,
        AST::Block(
            place(1, 1),
            vec![Arc::new(AST::FloatLiteral(place(1, 1), "123.456".to_string()))]
        )
    );
    assert_eq!("123.456".parse::<f64>().unwrap(), 123.456);
}

#[test]
fn string_literal_has_its_content() {
    assert_eq!(shape_of("\"ab\""), "{\"ab\"}");
}

#[test]
fn other_atoms() {
    assert_eq!(shape_of("x; true; false; nothing"), "{x true false nothing}");
    assert_eq!(shape_of("(x)"), "{x}");
    assert_eq!(shape_of("((1 + 2)) * 3"), "{(* (+ 1 2) 3)}");
}

#[test]
fn newline_ends_a_statement() {
    assert_eq!(shape_of("let x = 1\nlet y = 2"), "{(let x 1) (let y 2)}");
}

#[test]
fn semicolon_ends_a_statement() {
    assert_eq!(shape_of("let x = 1; let y = 2"), "{(let x 1) (let y 2)}");
}

#[test]
fn semicolon_and_newline_end_a_statement() {
    assert_eq!(shape_of("let x = 1;\nlet y = 2"), "{(let x 1) (let y 2)}");
}

#[test]
fn statement_without_end_fails() {
    let err = error_of("let x = 1 let y = 2");
    assert_eq!(err.kind, ErrorKind::ExpectedLineEnd { found: TokenKind::Let });
    assert_eq!(err.loc, place(1, 11));
    assert_eq!(err.kind.message(), "Expected line end, but got Let");
    assert_eq!(err.to_string(), "test.txt:1:11 Expected line end, but got Let");
}

#[test]
fn end_of_input_ends_a_statement() {
    assert_eq!(shape_of("x"), "{x}");
    assert_eq!(shape_of("x;"), "{x}");
    assert_eq!(shape_of(""), "{}");
}

#[test]
fn lone_semicolon_is_no_statement() {
    let err = error_of("x;;");
    assert_eq!(err.kind, ErrorKind::UnexpectedToken { found: TokenKind::SemiColon });
    assert_eq!(err.loc, place(1, 3));
}

#[test]
fn multiplication_binds_tighter_on_the_right() {
    assert_eq!(shape_of("1 + 2 * 3"), "{(+ 1 (* 2 3))}");
}

#[test]
fn multiplication_binds_tighter_on_the_left() {
    assert_eq!(shape_of("1 * 2 + 3"), "{(+ (* 1 2) 3)}");
}

#[test]
fn binary_operators_nest_to_the_left() {
    assert_eq!(shape_of("1 - 2 - 3"), "{(- (- 1 2) 3)}");
    assert_eq!(shape_of("8 / 4 / 2 * 3"), "{(* (/ (/ 8 4) 2) 3)}");
    assert_eq!(shape_of("a or b or c"), "{(or (or a b) c)}");
    assert_eq!(shape_of("a and b and c"), "{(and (and a b) c)}");
}

#[test]
fn levels_from_the_loosest_to_the_tightest() {
    assert_eq!(
        shape_of("a = b == c or d and e + f * not g[0]"),
        "{(= a (== b (or c (and d (+ e (* f (not (index g 0))))))))}"
    );
    assert_eq!(shape_of("a and b or c and d"), "{(or (and a b) (and c d))}");
    assert_eq!(shape_of("a + 1 < b * 2"), "{(< (+ a 1) (* b 2))}");
    assert_eq!(shape_of("a or b == c"), "{(== (or a b) c)}");
}

#[test]
fn comparisons_chain_to_the_left() {
    assert_eq!(shape_of("a < b < c"), "{(< (< a b) c)}");
    assert_eq!(
        shape_of("a == b != c <= d >= e > f"),
        "{(> (>= (<= (!= (== a b) c) d) e) f)}"
    );
}

#[test]
fn binary_node_is_located_at_its_operator() {
    let tree = parse("ab + c").unwrap();
    let AST::Block(_, statements) = &*tree else { panic!("no block") };
    let AST::Plus(loc, l, r) = &*statements[0] else { panic!("no sum") };
    assert_eq!(*loc, place(1, 4));
    assert_eq!(**l, AST::Variable(place(1, 1), "ab".to_string()));
    assert_eq!(**r, AST::Variable(place(1, 6), "c".to_string()));
}

#[test]
fn assignment_takes_any_target_and_no_chain() {
    assert_eq!(shape_of("1 = 2"), "{(= 1 2)}");
    assert_eq!(shape_of("a[0] = b < c"), "{(= (index a 0) (< b c))}");
    let err = error_of("a = b = c");
    assert_eq!(err.kind, ErrorKind::ExpectedLineEnd { found: TokenKind::Equals });
}

#[test]
fn not_applies_to_a_prefix_expression() {
    assert_eq!(shape_of("not not x"), "{(not (not x))}");
    assert_eq!(shape_of("not a and b"), "{(and (not a) b)}");
    assert_eq!(shape_of("not f(x)"), "{(not (call f [x]))}");
}

#[test]
fn there_is_no_unary_minus() {
    let err = error_of("-1");
    assert_eq!(err.kind, ErrorKind::UnexpectedToken { found: TokenKind::Minus });
    assert_eq!(err.kind.message(), "Unexpected token in parse_atom: Minus");
}

#[test]
fn slice_with_both_bounds() {
    assert_eq!(shape_of("a[1:2]"), "{(slice a 1 2 _)}");
}

#[test]
fn slice_without_bounds() {
    assert_eq!(shape_of("a[:]"), "{(slice a _ _ _)}");
}

#[test]
fn empty_index_fails() {
    let err = error_of("a[]");
    assert_eq!(err.kind, ErrorKind::EmptyIndex);
    assert_eq!(err.loc, place(1, 2));
    assert_eq!(err.to_string(), "test.txt:1:2 Cannot have empty index");
}

#[test]
fn index_with_one_value() {
    let tree = parse("a[1]").unwrap();
    assert_eq!(
        *tree,
        AST::Block(
            place(1, 1),
            vec![Arc::new(AST::Index(
                place(1, 2),
                Arc::new(AST::Variable(place(1, 1), "a".to_string())),
                Arc::new(AST::IntegerLiteral(place(1, 3), 1)),
            ))]
        )
    );
}

#[test]
fn slices_with_steps_and_missing_parts() {
    assert_eq!(shape_of("a[1:]"), "{(slice a 1 _ _)}");
    assert_eq!(shape_of("a[:2]"), "{(slice a _ 2 _)}");
    assert_eq!(shape_of("a[1:2:3]"), "{(slice a 1 2 3)}");
    assert_eq!(shape_of("a[::3]"), "{(slice a _ _ 3)}");
    assert_eq!(shape_of("a[::]"), "{(slice a _ _ _)}");
    assert_eq!(shape_of("a[1::]"), "{(slice a 1 _ _)}");
    assert_eq!(shape_of("a[i + 1 : n * 2]"), "{(slice a (+ i 1) (* n 2) _)}");
}

#[test]
fn slice_that_is_not_closed_fails() {
    let err = error_of("a[1 2]");
    assert_eq!(
        err.kind,
        ErrorKind::ExpectedToken { expected: TokenKind::Colon, found: TokenKind::IntegerLiteral }
    );
    assert_eq!(err.kind.message(), "Expected token Colon, but got IntegerLiteral");
    let err = error_of("a[1:2:3:4]");
    assert_eq!(
        err.kind,
        ErrorKind::ExpectedToken { expected: TokenKind::RightBracket, found: TokenKind::Colon }
    );
    let err = error_of("a[1:2 3]");
    assert_eq!(
        err.kind,
        ErrorKind::ExpectedToken { expected: TokenKind::Colon, found: TokenKind::IntegerLiteral }
    );
}

#[test]
fn calls_take_expressions_and_a_trailing_comma() {
    assert_eq!(shape_of("f()"), "{(call f [])}");
    assert_eq!(shape_of("f(1)"), "{(call f [1])}");
    assert_eq!(shape_of("f(1, x + 2,)"), "{(call f [1 (+ x 2)])}");
    assert_eq!(shape_of("f(a = 1)"), "{(call f [(= a 1)])}");
}

#[test]
fn call_without_comma_fails() {
    let err = error_of("f(1 2)");
    assert_eq!(err.kind, ErrorKind::ExpectedCloseOrComma { found: TokenKind::IntegerLiteral });
    assert_eq!(err.loc, place(1, 5));
    assert_eq!(err.kind.message(), "Expected `)` or `,` but got IntegerLiteral");
    let err = error_of("f(,)");
    assert_eq!(err.kind, ErrorKind::UnexpectedToken { found: TokenKind::Comma });
}

#[test]
fn postfix_operations_chain_to_the_left() {
    assert_eq!(shape_of("f(1)[2](3)"), "{(call (index (call f [1]) 2) [3])}");
    assert_eq!(shape_of("a[1][2:3]"), "{(slice (index a 1) 2 3 _)}");
}

#[test]
fn range_takes_one_atom_on_the_right() {
    assert_eq!(shape_of("a .. b"), "{(.. a b)}");
    assert_eq!(shape_of("a .. b[0]"), "{(index (.. a b) 0)}");
    assert_eq!(shape_of("a .. b .. c"), "{(.. (.. a b) c)}");
    assert_eq!(shape_of("0 .. n + 1"), "{(+ (.. 0 n) 1)}");
    assert_eq!(shape_of("f(x) .. (n + 1)"), "{(.. (call f [x]) (+ n 1))}");
}

#[test]
fn parenthesis_that_is_not_closed_fails() {
    let err = error_of("(1 + 2");
    assert_eq!(err.kind, ErrorKind::ExpectedClose { found: TokenKind::EOF });
    assert_eq!(err.loc, place(1, 7));
    assert_eq!(err.kind.message(), "Expected `)` but got EOF");
}

#[test]
fn token_that_begins_no_expression_fails() {
    let err = error_of(")");
    assert_eq!(err.kind, ErrorKind::UnexpectedToken { found: TokenKind::RightParen });
    assert_eq!(err.loc, place(1, 1));
    let err = error_of("1 +");
    assert_eq!(err.kind, ErrorKind::UnexpectedToken { found: TokenKind::EOF });
    assert_eq!(err.loc, place(1, 4));
}

#[test]
fn integer_literal_out_of_range_fails() {
    assert_eq!(shape_of("9223372036854775807"), "{9223372036854775807}");
    let err = error_of("9223372036854775808");
    assert_eq!(err.kind, ErrorKind::InvalidInteger("9223372036854775808".to_string()));
    assert_eq!(err.loc, place(1, 1));
    assert_eq!(err.to_string(), "test.txt:1:1 Invalid integer literal: 9223372036854775808");
}

#[test]
fn literal_tokens_with_other_texts() {
    let tokens = vec![token(TokenKind::IntegerLiteral, "-12", 1), token(TokenKind::EOF, "", 4)];
    assert_eq!(shape(&Parser::new(tokens).parse().unwrap()), "{-12}");
    let tokens = vec![token(TokenKind::IntegerLiteral, "1x", 1), token(TokenKind::EOF, "", 3)];
    let err = Parser::new(tokens).parse().unwrap_err();
    assert_eq!(err.kind, ErrorKind::InvalidInteger("1x".to_string()));
    let tokens = vec![token(TokenKind::FloatLiteral, "1e5", 1), token(TokenKind::EOF, "", 4)];
    assert_eq!(shape(&Parser::new(tokens).parse().unwrap()), "{f1e5}");
    let tokens = vec![token(TokenKind::FloatLiteral, "1.5.5", 1), token(TokenKind::EOF, "", 6)];
    let err = Parser::new(tokens).parse().unwrap_err();
    assert_eq!(err.kind, ErrorKind::InvalidFloat("1.5.5".to_string()));
    assert_eq!(err.to_string(), "test.txt:1:1 Invalid float literal: 1.5.5");
}

#[test]
fn let_statement() {
    assert_eq!(shape_of("let x = 1 + 2"), "{(let x (+ 1 2))}");
    let tree = parse("let x = 1").unwrap();
    assert_eq!(
        *tree,
        AST::Block(
            place(1, 1),
            vec![Arc::new(AST::VarDeclaration(
                place(1, 1),
                "x".to_string(),
                Arc::new(AST::IntegerLiteral(place(1, 9), 1)),
            ))]
        )
    );
}

#[test]
fn let_statement_that_is_malformed_fails() {
    let err = error_of("let 1 = 2");
    assert_eq!(
        err.kind,
        ErrorKind::ExpectedToken {
            expected: TokenKind::Identifier,
            found: TokenKind::IntegerLiteral
        }
    );
    assert_eq!(err.loc, place(1, 5));
    let err = error_of("let x 2");
    assert_eq!(
        err.kind,
        ErrorKind::ExpectedToken { expected: TokenKind::Equals, found: TokenKind::IntegerLiteral }
    );
    let err = error_of("let");
    assert_eq!(
        err.kind,
        ErrorKind::ExpectedToken { expected: TokenKind::Identifier, found: TokenKind::EOF }
    );
}

#[test]
fn if_statement_with_and_without_else() {
    assert_eq!(shape_of("if a { b; }"), "{(if a {b} _)}");
    assert_eq!(shape_of("if a { b; } else { c; }"), "{(if a {b} {c})}");
    assert_eq!(
        shape_of("if a {\n b\n} else if c {\n d\n} else {\n e\n}"),
        "{(if a {b} (if c {d} {e}))}"
    );
    assert_eq!(shape_of("if a { b; }\nelse { c; }"), "{(if a {b} {c})}");
    assert_eq!(shape_of("if a { b; } c"), "{(if a {b} _) c}");
}

#[test]
fn if_statement_is_located_at_its_if() {
    let tree = parse("if a { }").unwrap();
    let AST::Block(_, statements) = &*tree else { panic!("no block") };
    let AST::If(loc, _, then, _) = &*statements[0] else { panic!("no conditional") };
    assert_eq!(*loc, place(1, 1));
    assert_eq!(**then, AST::Block(place(1, 6), vec![]));
    let tree = parse("if a { } else { }").unwrap();
    let AST::Block(_, statements) = &*tree else { panic!("no block") };
    let AST::If(loc, _, _, otherwise) = &*statements[0] else { panic!("no conditional") };
    assert_eq!(*loc, place(1, 1));
    assert_eq!(**otherwise.as_ref().unwrap(), AST::Block(place(1, 15), vec![]));
}

#[test]
fn else_if_is_located_at_the_second_if() {
    let tree = parse("if a { } else if b { } else { }").unwrap();
    let AST::Block(_, statements) = &*tree else { panic!("no block") };
    let AST::If(loc, _, _, otherwise) = &*statements[0] else { panic!("no conditional") };
    assert_eq!(*loc, place(1, 1));
    let AST::If(inner, _, _, last) = &**otherwise.as_ref().unwrap() else {
        panic!("no second conditional")
    };
    assert_eq!(*inner, place(1, 15));
    assert_eq!(**last.as_ref().unwrap(), AST::Block(place(1, 29), vec![]));
}

#[test]
fn block_statements_end_like_all_statements() {
    assert_eq!(shape_of("if a { b; c\nd\n}"), "{(if a {b c d} _)}");
    let err = error_of("if a { b c }");
    assert_eq!(err.kind, ErrorKind::ExpectedLineEnd { found: TokenKind::Identifier });
    let err = error_of("if a { b }");
    assert_eq!(err.kind, ErrorKind::ExpectedLineEnd { found: TokenKind::RightBrace });
}

#[test]
fn block_needs_its_braces() {
    let err = error_of("if a b");
    assert_eq!(
        err.kind,
        ErrorKind::ExpectedToken { expected: TokenKind::LeftBrace, found: TokenKind::Identifier }
    );
    let err = error_of("while a {\n b\n");
    assert_eq!(err.kind, ErrorKind::UnexpectedToken { found: TokenKind::EOF });
    let err = error_of("}");
    assert_eq!(err.kind, ErrorKind::UnexpectedToken { found: TokenKind::RightBrace });
}

#[test]
fn while_and_for_statements() {
    assert_eq!(
        shape_of("while i < n {\n i = i + 1\n}"),
        "{(while (< i n) {(= i (+ i 1))})}"
    );
    assert_eq!(
        shape_of("for x in xs {\n f(x)\n}"),
        "{(for x xs {(call f [x])})}"
    );
    assert_eq!(shape_of("for i in 0 .. n { }"), "{(for i (.. 0 n) {})}");
    let err = error_of("for 1 in xs { }");
    assert_eq!(
        err.kind,
        ErrorKind::ExpectedToken {
            expected: TokenKind::Identifier,
            found: TokenKind::IntegerLiteral
        }
    );
    let err = error_of("for x of xs { }");
    assert_eq!(
        err.kind,
        ErrorKind::ExpectedToken { expected: TokenKind::In, found: TokenKind::Identifier }
    );
}

#[test]
fn control_statements() {
    assert_eq!(
        shape_of("while true {\n continue\n break; return 1\n}"),
        "{(while true {continue break (return 1)})}"
    );
    let err = error_of("break 1");
    assert_eq!(err.kind, ErrorKind::ExpectedLineEnd { found: TokenKind::IntegerLiteral });
    let err = error_of("return");
    assert_eq!(err.kind, ErrorKind::UnexpectedToken { found: TokenKind::EOF });
}

#[test]
fn assert_statement_drops_its_message() {
    assert_eq!(shape_of("assert x == 1"), "{(assert (== x 1))}");
    assert_eq!(shape_of("assert x == 1, \"msg\""), "{(assert (== x 1))}");
    assert_eq!(shape_of("assert x, \"a\" + b\ny"), "{(assert x) y}");
}

#[test]
fn assert_message_must_begin_with_a_string() {
    let err = error_of("assert x, 1");
    assert_eq!(err.kind, ErrorKind::ExpectedStringLiteral { found: TokenKind::IntegerLiteral });
    assert_eq!(err.loc, place(1, 11));
    assert_eq!(err.kind.message(), "Expected string literal, but got IntegerLiteral");
}

#[test]
fn named_function_with_a_block() {
    assert_eq!(
        shape_of("def add(a, b) {\n return a + b\n}"),
        "{(fn add [a b] {(return (+ a b))})}"
    );
    assert_eq!(shape_of("def f(a,) { }"), "{(fn f [a] {})}");
    assert_eq!(shape_of("def f(a b) { }"), "{(fn f [a b] {})}");
}

#[test]
fn named_function_with_an_arrow_returns_its_expression() {
    let tree = parse("def f(x) => x + 1").unwrap();
    assert_eq!(shape(&tree), "{(fn f [x] (return (+ x 1)))}");
    let AST::Block(_, statements) = &*tree else { panic!("no block") };
    let AST::Function { loc, body, .. } = &*statements[0] else { panic!("no function") };
    assert_eq!(*loc, place(1, 1));
    let AST::Return(at, _) = &**body else { panic!("no return") };
    assert_eq!(*at, place(1, 1));
}

#[test]
fn named_function_that_is_malformed_fails() {
    let err = error_of("def (x) => 1");
    assert_eq!(
        err.kind,
        ErrorKind::ExpectedToken { expected: TokenKind::Identifier, found: TokenKind::LeftParen }
    );
    let err = error_of("def f x => 1");
    assert_eq!(
        err.kind,
        ErrorKind::ExpectedToken { expected: TokenKind::LeftParen, found: TokenKind::Identifier }
    );
    let err = error_of("def f(1) => 1");
    assert_eq!(
        err.kind,
        ErrorKind::ExpectedToken {
            expected: TokenKind::Identifier,
            found: TokenKind::IntegerLiteral
        }
    );
    let err = error_of("def f(x");
    assert_eq!(
        err.kind,
        ErrorKind::ExpectedToken { expected: TokenKind::Identifier, found: TokenKind::EOF }
    );
    let err = error_of("def f() => 1 2");
    assert_eq!(err.kind, ErrorKind::ExpectedLineEnd { found: TokenKind::IntegerLiteral });
}

#[test]
fn lambda_with_an_arrow_and_with_a_block() {
    assert_eq!(shape_of("|x| => x * 2"), "{(fn _ [x] (return (* x 2)))}");
    assert_eq!(shape_of("|| => 1"), "{(fn _ [] (return 1))}");
    assert_eq!(shape_of("let f = |a, b| { return a; }"), "{(let f (fn _ [a b] {(return a)}))}");
    assert_eq!(shape_of("f(|x| => x, 1)"), "{(call f [(fn _ [x] (return x)) 1])}");
    assert_eq!(shape_of("(|x| => x)(1)"), "{(call (fn _ [x] (return x)) [1])}");
}

#[test]
fn decorator_becomes_an_assignment_of_a_call() {
    let tree = parse("@deco\ndef f() => 1").unwrap();
    let at = place(1, 1);
    let def = place(2, 1);
    assert_eq!(
        *tree,
        AST::Block(
            place(1, 1),
            vec![Arc::new(AST::Assignment(
                at.clone(),
                Arc::new(AST::Variable(at.clone(), "f".to_string())),
                Arc::new(AST::Call(
                    at.clone(),
                    Arc::new(AST::Variable(place(1, 2), "deco".to_string())),
                    vec![Arc::new(AST::Function {
                        loc: def.clone(),
                        name: Some("f".to_string()),
                        args: vec![],
                        body: Arc::new(AST::Return(
                            def.clone(),
                            Arc::new(AST::IntegerLiteral(place(2, 12), 1)),
                        )),
                    })],
                )),
            ))]
        )
    );
}

#[test]
fn decorator_is_a_postfix_expression() {
    assert_eq!(
        shape_of("@wrap(1)[2]\ndef f(x) { }\ny"),
        "{(= f (call (index (call wrap [1]) 2) [(fn f [x] {})])) y}"
    );
    assert_eq!(shape_of("@d; def f() => 1;; g"), "{(= f (call d [(fn f [] (return 1))])) g}");
    let err = error_of("@d; def f() => 1; g");
    assert_eq!(err.kind, ErrorKind::ExpectedLineEnd { found: TokenKind::Identifier });
    let err = error_of("@a + b\ndef f() => 1");
    assert_eq!(err.kind, ErrorKind::ExpectedLineEnd { found: TokenKind::Plus });
    let err = error_of("@d def f() => 1");
    assert_eq!(err.kind, ErrorKind::ExpectedLineEnd { found: TokenKind::Def });
    let err = error_of("@d\nlet x = 1");
    assert_eq!(
        err.kind,
        ErrorKind::ExpectedToken { expected: TokenKind::Def, found: TokenKind::Let }
    );
}

#[test]
fn first_error_is_the_one_reported() {
    let err = error_of("x = )\nlet 1");
    assert_eq!(err.kind, ErrorKind::UnexpectedToken { found: TokenKind::RightParen });
    assert_eq!(err.loc, place(1, 5));
}

#[test]
fn lexical_errors_come_through_the_same_type() {
    let err = error_of("let x = \"a");
    assert_eq!(err.kind, ErrorKind::UnterminatedString);
    let err = error_of("let x = $");
    assert_eq!(err.kind, ErrorKind::UnexpectedCharacter('$'));
}

#[test]
fn parsing_is_deterministic() {
    let source = "@d\ndef f(a) { if a { return a[1:]; } else { return |x| => x .. 2; } }\nf(1)";
    assert_eq!(parse(source).unwrap(), parse(source).unwrap());
}

#[test]
fn program_is_located_at_its_first_token() {
    let tree = parse("\n\n  x").unwrap();
    let AST::Block(loc, statements) = &*tree else { panic!("no block") };
    assert_eq!(*loc, place(3, 3));
    assert_eq!(statements.len(), 1);
}

#[test]
fn failed_parse_leaves_the_parser_where_it_was() {
    let tokens = Lexer::new("x = (".to_string(), "test.txt".to_string()).lex().unwrap();
    let mut parser = Parser::new(tokens);
    let first = parser.parse().unwrap_err();
    let second = parser.parse().unwrap_err();
    assert_eq!(first, second);
}

#[test]
fn parse_after_success_gives_the_empty_program() {
    let tokens = Lexer::new("x\ny".to_string(), "test.txt".to_string()).lex().unwrap();
    let mut parser = Parser::new(tokens);
    assert_eq!(shape(&parser.parse().unwrap()), "{x y}");
    let again = parser.parse().unwrap();
    assert_eq!(*again, AST::Block(place(2, 2), vec![]));
}

#[test]
fn tokens_after_the_end_of_input_are_not_read() {
    let tokens = vec![
        token(TokenKind::Identifier, "x", 1),
        token(TokenKind::EOF, "", 2),
        token(TokenKind::Identifier, "y", 3),
    ];
    assert_eq!(shape(&Parser::new(tokens).parse().unwrap()), "{x}");
}

#[test]
fn larger_program() {
    let source = "\
// greatest common divisor
def gcd(a, b) {
    while b != 0 {
        let t = b
        b = a - a / b * b
        a = t
    }
    return a
}

let xs = range(0, 10)[::2]
for x in xs {
    if (gcd(x, 6) == 1) or (x == 0) { print(\"coprime\", x); } else { continue; }
}
assert gcd(12, 18) == 6, \"gcd\"
";
    assert_eq!(
        shape_of(source),
        "{(fn gcd [a b] {(while (!= b 0) {(let t b) (= b (- a (* (/ a b) b))) (= a t)}) (return a)}) \
         (let xs (slice (call range [0 10]) _ _ 2)) \
         (for x xs {(if (or (== (call gcd [x 6]) 1) (== x 0)) {(call print [\"coprime\" x])} {continue})}) \
         (assert (== (call gcd [12 18]) 6))}"
    );
}

#[test]
fn parse_source_lexes_and_parses() {
    let tree = parse_source("let x = 1 + 2".to_string(), "test.txt".to_string()).unwrap();
    assert_eq!(*tree, *parse("let x = 1 + 2").unwrap());
    assert_eq!(shape(&tree), "{(let x (+ 1 2))}");
    let err = parse_source("let x = #".to_string(), "test.txt".to_string()).unwrap_err();
    assert_eq!(err.kind, ErrorKind::UnexpectedCharacter('#'));
    let err = parse_source("let x = ".to_string(), "m.txt".to_string()).unwrap_err();
    assert_eq!(err.kind, ErrorKind::UnexpectedToken { found: TokenKind::EOF });
    assert_eq!(err.to_string(), "m.txt:1:9 Unexpected token in parse_atom: EOF");
}

#[test]
fn every_parsed_rule_reads_at_least_one_token() {
    for source in ["x", "f()", "a[:]", "|| => 1", "not x", "(x)", "@d\ndef f() {}\n", "x;y;z"] {
        let tokens = Lexer::new(source.to_string(), "test.txt".to_string()).lex().unwrap();
        let count = tokens.len();
        let tree = Parser::new(tokens).parse().unwrap();
        let AST::Block(_, statements) = &*tree else { panic!("no block") };
        assert!(!statements.is_empty() && statements.len() < count);
    }
}
