//! Front end for a small, dynamically typed, C-like expression language:
//! a scanner that turns source text into a token stream, and a
//! recursive-descent parser that turns the token stream into an abstract
//! syntax tree over a fixed operator-precedence ladder.

use vstd::prelude::*;

pub mod ast_printer;
pub mod error;
pub mod expr;
pub mod parser;
pub mod scanner;
pub mod token;

use crate::ast_printer::{render_spec, AstPrinter};
use crate::error::{Error, ErrorV};
use crate::expr::ExprV;
use crate::parser::{lemma_scan_feeds_parser, parse_spec, Parser};
use crate::scanner::{scan_spec, token_views, Scanner};
use crate::token::TokenV;

verus! {

/// The whole pipeline on one source string: scan it, parse the token
/// sequence, and render the resulting tree; the first lexical or parse
/// error aborts and is returned instead.
pub fn run_source(source: String) -> (r: Result<String, Error>)
    requires
        source@.len() < usize::MAX as nat,
    ensures
        match scan_spec(source@, 0, 1) {
            Err(e) => r matches Err(e2) && e2@ == e,
            Ok(ts) => match parse_spec(ts) {
                Err(e) => r matches Err(e2) && e2@ == e,
                Ok(ev) => r matches Ok(s) && s@ == render_spec(ev),
            },
        },
{
    let ghost src = source@;
    let mut scanner = Scanner::new(source);
    let tokens = match scanner.scan_tokens() {
        Ok(ts) => ts,
        Err(e) => {
            return Err(e);
        },
    };
    proof {
        lemma_scan_feeds_parser(src, 0, 1);
    }
    let mut parser = Parser::new(tokens);
    let expression = match parser.parse() {
        Ok(e) => e,
        Err(e) => {
            return Err(e);
        },
    };
    let printer = AstPrinter {};
    printer.print(&expression)
}

} // verus!
