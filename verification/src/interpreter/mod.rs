//! Evaluates a syntax tree.
//!
//! The evaluator walks the tree. What it gives is stated by
//! [`semantics::eval`], over the answers of the [`host::Host`], which does
//! the floating-point arithmetic and provides the functions that are not
//! written in the language.
pub mod builtin;
pub mod calls;
pub mod evaluator;
pub mod host;
pub mod laws;
pub mod operations;
pub mod semantics;
pub mod symbol_table;
pub mod symbols;
pub mod visits;

use vstd::prelude::*;
use vstd::string::StringExecFns;
use crate::errors::{Error, ErrorView};
use crate::interpreter::evaluator::eval_node;
use crate::interpreter::host::{lemma_prefix_transitive, result_view, Host, HostCall};
use crate::interpreter::semantics::{eval, lemma_run_program, run, run_program, ProgramStep, Step};
use crate::interpreter::symbol_table::SymbolTable;
use crate::interpreter::symbols::Symbol;
use crate::parser::nodes::{lemma_view_children, node_views, Node, NodeView};

verus! {

broadcast use vstd::std_specs::vec::group_vec_axioms;

/// The number of nested calls that an interpreter allows unless it is told
/// otherwise.
pub const DEFAULT_MAX_DEPTH: u32 = 128;

/// The view of what running a program returns.
pub open spec fn run_result(r: Result<(), Error>) -> Result<(), ErrorView> {
    match r {
        Ok(_) => Ok(()),
        Err(e) => Err(e@),
    }
}

impl Node {
    /// Evaluates this node in `symbol_table`, with at most `depth` nested
    /// calls. What is returned, and what the table holds afterwards, is what
    /// [`eval`] gives for the answers that the host gave.
    pub fn visit<'a, H: Host>(
        &self,
        symbol_table: &mut SymbolTable<'a>,
        host: &mut H,
        depth: u32,
    ) -> (r: Result<Symbol, Error>)
        ensures
            exists|replies: Seq<HostCall>| #[trigger]
                eval(self@, old(symbol_table)@, depth as nat, replies, 0) == (Step {
                    result: result_view(r),
                    scopes: final(symbol_table)@,
                    next: replies.len(),
                    faithful: true,
                }),
    {
        let ghost before = symbol_table@;
        let (result, Ghost(after)) = eval_node(self, symbol_table, host, depth, Ghost(Seq::empty()));
        proof {
            assert(after.is_prefix_of(after));
            assert(eval(self@, before, depth as nat, after, 0) == (Step {
                result: result_view(result),
                scopes: symbol_table@,
                next: after.len(),
                faithful: true,
            }));
        }
        result
    }
}

/// An interpreter: the global table, and the number of nested calls that it
/// allows.
pub struct Interpreter<'a> {
    pub symbol_table: SymbolTable<'a>,
    pub max_depth: u32,
}

impl<'a> Interpreter<'a> {
    /// An interpreter with a fresh global table, in which `print` is bound
    /// to the host function of that name.
    pub fn new() -> (r: Interpreter<'a>)
        ensures
            r.max_depth == DEFAULT_MAX_DEPTH,
            r.symbol_table@ == crate::interpreter::symbol_table::global_scopes(),
    {
        Interpreter { symbol_table: SymbolTable::new_global(), max_depth: DEFAULT_MAX_DEPTH }
    }

    /// Runs a program: its statements are evaluated in order in the global
    /// table, and the first error ends the run.
    pub fn run<H: Host>(&mut self, ast: Node, host: &mut H) -> (r: Result<(), Error>)
        ensures
            final(self).max_depth == old(self).max_depth,
            exists|replies: Seq<HostCall>| #[trigger]
                run(ast@, old(self).symbol_table@, old(self).max_depth as nat, replies, 0)
                    == (ProgramStep {
                    result: run_result(r),
                    scopes: final(self).symbol_table@,
                    next: replies.len(),
                    faithful: true,
                }),
    {
        let ghost before = self.symbol_table@;
        let ghost depth = self.max_depth as nat;
        proof {
            lemma_view_children(ast);
        }
        let statements = match ast {
            Node::StatementsNode(statements) => statements,
            _ => {
                let e = Error::new_runtime(
                    crate::errors::ErrorType::TypeError,
                    String::from_str("First node must be a sequence of statements"),
                    &crate::lexer::tokens::TokenPosition::internal(),
                );
                proof {
                    let replies = Seq::<HostCall>::empty();
                    assert(run(ast@, before, depth, replies, 0) == (ProgramStep {
                        result: Err(e@),
                        scopes: before,
                        next: replies.len(),
                        faithful: true,
                    }));
                }
                return Err(e);
            },
        };
        let ghost nodes = node_views(statements.statements@);
        let ghost mut current = Seq::<HostCall>::empty();
        let mut i: usize = 0;
        while i < statements.statements.len()
            invariant
                i <= statements.statements.len(),
                nodes == node_views(statements.statements@),
                ast@ == (NodeView::Statements { statements: nodes }),
                before == old(self).symbol_table@,
                depth == old(self).max_depth,
                self.max_depth == old(self).max_depth,
                forall|replies: Seq<HostCall>|
                    current.is_prefix_of(replies) ==> #[trigger] run_program(
                        nodes,
                        0,
                        before,
                        depth,
                        replies,
                        0,
                    ) == run_program(
                        nodes,
                        i as nat,
                        self.symbol_table@,
                        depth,
                        replies,
                        current.len(),
                    ),
            decreases statements.statements.len() - i,
        {
            let ghost here = self.symbol_table@;
            let ghost earlier = current;
            let (result, Ghost(later)) = eval_node(
                &statements.statements[i],
                &mut self.symbol_table,
                host,
                self.max_depth,
                Ghost(current),
            );
            proof {
                current = later;
                assert(nodes[i as int] == statements.statements[i as int]@);
                assert forall|replies: Seq<HostCall>| later.is_prefix_of(replies) implies #[trigger] run_program(
                    nodes,
                    0,
                    before,
                    depth,
                    replies,
                    0,
                ) == (match result {
                    Err(e) => ProgramStep {
                        result: Err(e@),
                        scopes: self.symbol_table@,
                        next: later.len(),
                        faithful: true,
                    },
                    Ok(_) => run_program(
                        nodes,
                        (i + 1) as nat,
                        self.symbol_table@,
                        depth,
                        replies,
                        later.len(),
                    ),
                }) by {
                    lemma_prefix_transitive(earlier, later, replies);
                    lemma_run_program(nodes, i as nat, here, depth, replies, earlier.len());
                }
            }
            match result {
                Ok(_) => {},
                Err(e) => {
                    proof {
                        assert(later.is_prefix_of(later));
                        assert(run(ast@, before, depth, later, 0) == (ProgramStep {
                            result: Err(e@),
                            scopes: self.symbol_table@,
                            next: later.len(),
                            faithful: true,
                        }));
                    }
                    return Err(e);
                },
            }
            i += 1;
        }
        proof {
            assert(current.is_prefix_of(current));
            lemma_run_program(nodes, i as nat, self.symbol_table@, depth, current, current.len());
            assert(run(ast@, before, depth, current, 0) == (ProgramStep {
                result: Ok(()),
                scopes: self.symbol_table@,
                next: current.len(),
                faithful: true,
            }));
        }
        Ok(())
    }
}

} // verus!
