//! A small embeddable scripting language: a lexer, a recursive-descent
//! parser that builds a syntax tree, and a tree-walking evaluator.
//!
//! Every executable function carries a contract over the mathematical views
//! of the data it handles, so that what the lexer gives, what the parser
//! accepts and what the evaluator returns is stated once, in specification
//! functions, and proved of the code that runs.
//!
//! - [`lexer`] turns source text into tokens; [`lexer::tokenize`] says which.
//! - [`parser`] turns tokens into a tree; [`parser::grammar`] is the grammar.
//! - [`interpreter`] evaluates a tree; [`interpreter::semantics`] says what
//!   evaluation gives. Floats are held as bits, and the arithmetic on them
//!   and the functions that are not written in the language are asked of a
//!   [`interpreter::host::Host`].
//! - [`laws`], [`lexer::writing`], [`parser::printing`],
//!   [`parser::progress`] and [`interpreter::laws`] hold what is proved of
//!   all inputs: that writing an expression as text and reading it again
//!   gives the expression back, that every rule of the grammar consumes
//!   tokens, that evaluation binds names in the innermost table only, and
//!   more.
//!
//! Nothing in the library panics. Nested calls are counted, and a call
//! beyond the number that an evaluation allows is an error.
pub mod errors;
pub mod text;
pub mod lexer;
pub mod parser;
pub mod interpreter;
pub mod laws;

use vstd::prelude::*;
use crate::errors::{Error, ErrorView};
use crate::interpreter::host::{Host, HostCall};

use crate::interpreter::symbol_table::global_scopes;
use crate::interpreter::{run_result, Interpreter, DEFAULT_MAX_DEPTH};
use crate::lexer::Lexer;
use crate::parser::nodes::{Node, NodeView};
use crate::parser::{node_result, Parser};

verus! {

/// The tree of a source text: the text is lexed, and its tokens are parsed.
pub open spec fn compiled(source: Seq<char>) -> Result<NodeView, ErrorView> {
    match crate::lexer::tokenize(source) {
        Err(e) => Err(e),
        Ok(tokens) => crate::parser::grammar::program(tokens),
    }
}

/// Lexes and parses a source text.
pub fn compile(source: String) -> (r: Result<Node, Error>)
    ensures
        node_result(r) == compiled(source@),
{
    let mut lexer = Lexer::new(source);
    let tokens = match lexer.make_tokens() {
        Ok(tokens) => tokens,
        Err(e) => {
            return Err(e);
        },
    };
    let mut parser = Parser::new(tokens);
    parser.parse()
}

/// Runs a program in a fresh interpreter, in whose global table `print` is
/// bound, with at most [`DEFAULT_MAX_DEPTH`] nested calls.
pub fn run<H: Host>(ast: Node, host: &mut H) -> (r: Result<(), Error>)
    ensures
        exists|calls: Seq<HostCall>|
            {
                let step = #[trigger] crate::interpreter::semantics::run(
                    ast@,
                    global_scopes(),
                    DEFAULT_MAX_DEPTH as nat,
                    calls,
                    0,
                );
                step.result == run_result(r) && step.next == calls.len() && step.faithful
            },
{
    let mut interpreter = Interpreter::new();
    interpreter.run(ast, host)
}

} // verus!
