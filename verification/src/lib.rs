//! Front end of a small scripting language: a positional tokenizer and a
//! recursive-descent parser, each proved against a mathematical description
//! of the token sequence and of the syntax tree it must produce.

use vstd::prelude::*;
use std::sync::Arc;
use crate::ast::{AstView, AST};
use crate::error::{Error, ErrorView};
use crate::grammar::program;
use crate::laws::law_tokens_end_with_eof;
use crate::lexer::Lexer;
use crate::parser::Parser;
use crate::scan::lex_source;

pub mod ast;
pub mod chars;
pub mod error;
pub mod grammar;
pub mod laws;
pub mod lexer;
pub mod number;
pub mod parser;
pub mod progress;
pub mod scan;
pub mod token;

verus! {

/// The syntax tree of the source text `src` named `file`: the program that
/// its tokens make, or the first error of lexing or of parsing.
pub open spec fn syntax_tree(src: Seq<char>, file: Seq<char>) -> Result<AstView, ErrorView> {
    match lex_source(src, file) {
        Ok(tokens) => match program(tokens, 0) {
            Ok((tree, _)) => Ok(tree),
            Err(stop) => Err(stop.error),
        },
        Err(e) => Err(e),
    }
}

/// Lexes and parses one source text, of fewer than `usize::MAX`
/// characters.
pub fn parse_source(input: String, filename: String) -> (r: Result<Arc<AST>, Error>)
    requires
        input@.len() < usize::MAX,
    ensures
        match r {
            Ok(tree) => syntax_tree(input@, filename@) == Ok::<AstView, ErrorView>(tree@),
            Err(e) => syntax_tree(input@, filename@) == Err::<AstView, ErrorView>(e@),
        },
{
    let mut lexer = Lexer::new(input, filename);
    let tokens = match lexer.lex() {
        Ok(tokens) => tokens,
        Err(e) => {
            return Err(e);
        },
    };
    proof {
        law_tokens_end_with_eof(input@, filename@, 0, false);
    }
    let mut parser = Parser::new(tokens);
    parser.parse()
}

} // verus!
