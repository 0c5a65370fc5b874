//! Calls: the arguments, the function that is called, and its body.
use vstd::prelude::*;
use vstd::string::StringExecFns;
use crate::errors::{Error, ErrorType};
use crate::interpreter::evaluator::{eval_node, evaluated, get_name_as_string};
use crate::interpreter::host::{
    ask_native, lemma_prefix_push, lemma_prefix_transitive, result_view, Host, HostCall,
};
use crate::interpreter::operations::runtime_error;
use crate::interpreter::semantics::{
    arity_message, call, callee, depth_exceeded, eval, eval_list, function_not_found_message,
    lemma_call, lemma_eval, lemma_eval_list, lemma_run_body, run_body, ListStep, Step,
};
use crate::interpreter::symbol_table::{Scopes, SymbolTable};
use crate::interpreter::symbols::{symbol_views, FunctionSymbol, Symbol, SymbolType, SymbolView};
use crate::lexer::tokens::TokenPosition;
use crate::parser::nodes::{lemma_view_children, node_views, FuncCallNode, Node, NodeView};
use crate::text::push_decimal;

verus! {

broadcast use vstd::std_specs::vec::group_vec_axioms;

/// The view of what resolving the function of a call gives.
pub open spec fn function_result(r: Result<FunctionSymbol, Error>) -> Result<
    crate::interpreter::symbols::FunctionView,
    crate::errors::ErrorView,
> {
    match r {
        Ok(function) => Ok(function@),
        Err(e) => Err(e@),
    }
}

fn not_a_function(position: &TokenPosition) -> (e: Error)
    ensures
        e@ == runtime_error(ErrorType::TypeError, "Cannot call non-function"@, *position),
{
    Error::new_runtime(ErrorType::TypeError, String::from_str("Cannot call non-function"), position)
}

/// The function that a call names.
pub fn resolve_callee<'a>(func_node: &Node, table: &SymbolTable<'a>) -> (r: Result<
    FunctionSymbol,
    Error,
>)
    ensures
        function_result(r) == callee(func_node@, table@),
{
    let position = func_node.get_position();
    match func_node {
        Node::VarAccessNode(var_access_node) => {
            match get_name_as_string(&var_access_node.identifier) {
                Err(e) => Err(e),
                Ok(func_identifier) => match table.get(&func_identifier) {
                    Some(symbol) => match symbol.value {
                        SymbolType::Function(func_symbol) => Ok(func_symbol),
                        _ => Err(not_a_function(&position)),
                    },
                    None => {
                        proof {
                            reveal(function_not_found_message);
                        }
                        let mut message = String::from_str("Function ");
                        message.append(func_identifier.as_str());
                        message.append(" not found");
                        Err(Error::new_runtime(ErrorType::UndefinedVariable, message, &position))
                    },
                },
            }
        },
        _ => Err(not_a_function(&position)),
    }
}

/// The error for a call with another number of arguments than the function
/// has parameters.
pub fn arity_error(expected: usize, got: usize, position: &TokenPosition) -> (e: Error)
    ensures
        e@ == runtime_error(
            ErrorType::TypeError,
            arity_message(expected as nat, got as nat),
            *position,
        ),
{
    proof {
        reveal(arity_message);
    }
    let mut message = String::from_str("Wrong number of arguments: expected ");
    push_decimal(&mut message, expected as u64);
    message.append(", got ");
    push_decimal(&mut message, got as u64);
    Error::new_runtime(ErrorType::TypeError, message, position)
}

fn depth_error(position: &TokenPosition) -> (e: Error)
    ensures
        e@ == depth_exceeded(*position),
{
    Error::new_runtime(
        ErrorType::Exception,
        String::from_str("Maximum recursion depth exceeded"),
        position,
    )
}

/// Whether running the statements of a body from the answers `log` on did
/// what [`run_body`] says.
pub open spec fn ran_body(
    statements: Seq<NodeView>,
    before: Scopes,
    depth: nat,
    position: TokenPosition,
    log: Seq<HostCall>,
    result: Result<Symbol, Error>,
    after: Scopes,
    log_after: Seq<HostCall>,
) -> bool {
    &&& log.is_prefix_of(log_after)
    &&& forall|replies: Seq<HostCall>|
        log_after.is_prefix_of(replies) ==> #[trigger] run_body(
            statements,
            0,
            before,
            depth,
            replies,
            log.len(),
            position,
        ) == (Step { result: result_view(result), scopes: after, next: log_after.len(), faithful: true })
}

/// Runs the statements of a function body in the table of the call.
pub(crate) fn run_statements<'a, H: Host>(
    statements: &Vec<Node>,
    table: &mut SymbolTable<'a>,
    host: &mut H,
    depth: u32,
    position: TokenPosition,
    Ghost(log): Ghost<Seq<HostCall>>,
) -> (out: (Result<Symbol, Error>, Ghost<Seq<HostCall>>))
    ensures
        ran_body(
            node_views(statements@),
            old(table)@,
            depth as nat,
            position,
            log,
            out.0,
            final(table)@,
            out.1@,
        ),
    decreases depth, statements,
{
    let ghost before = table@;
    let ghost nodes = node_views(statements@);
    let ghost mut current = log;
    let mut i: usize = 0;
    while i < statements.len()
        invariant
            i <= statements.len(),
            nodes == node_views(statements@),
            before == old(table)@,
            log.is_prefix_of(current),
            forall|replies: Seq<HostCall>|
                current.is_prefix_of(replies) ==> #[trigger] run_body(
                    nodes,
                    0,
                    before,
                    depth as nat,
                    replies,
                    log.len(),
                    position,
                ) == run_body(nodes, i as nat, table@, depth as nat, replies, current.len(), position),
        decreases statements.len() - i,
    {
        let ghost here = table@;
        let ghost earlier = current;
        let (result, Ghost(later)) = eval_node(&statements[i], table, host, depth, Ghost(current));
        let stop = match &statements[i] {
            Node::ReturnNode(_) => true,
            _ => result.is_err(),
        };
        proof {
            current = later;
            lemma_prefix_transitive(log, earlier, later);
            assert(nodes[i as int] == statements[i as int]@);
            assert forall|replies: Seq<HostCall>| later.is_prefix_of(replies) implies #[trigger] run_body(
                nodes,
                0,
                before,
                depth as nat,
                replies,
                log.len(),
                position,
            ) == (if stop {
                Step { result: result_view(result), scopes: table@, next: later.len(), faithful: true }
            } else {
                run_body(nodes, (i + 1) as nat, table@, depth as nat, replies, later.len(), position)
            }) by {
                lemma_prefix_transitive(earlier, later, replies);
                lemma_run_body(nodes, i as nat, here, depth as nat, replies, earlier.len(), position);
            }
        }
        if stop {
            return (result, Ghost(later));
        }
        i += 1;
    }
    let result = Ok(Symbol::new(SymbolType::Nothing, position));
    proof {
        assert forall|replies: Seq<HostCall>| current.is_prefix_of(replies) implies #[trigger] run_body(
            nodes,
            0,
            before,
            depth as nat,
            replies,
            log.len(),
            position,
        ) == (Step { result: result_view(result), scopes: table@, next: current.len(), faithful: true }) by {
            lemma_run_body(nodes, i as nat, table@, depth as nat, replies, current.len(), position);
        }
    }
    (result, Ghost(current))
}

/// Whether evaluating the arguments of a call from the answers `log` on did
/// what [`eval_list`] says.
pub open spec fn evaluated_list(
    nodes: Seq<NodeView>,
    before: Scopes,
    depth: nat,
    log: Seq<HostCall>,
    result: Result<Vec<Symbol>, Error>,
    after: Scopes,
    log_after: Seq<HostCall>,
) -> bool {
    &&& log.is_prefix_of(log_after)
    &&& forall|replies: Seq<HostCall>|
        log_after.is_prefix_of(replies) ==> #[trigger] eval_list(
            nodes,
            0,
            Seq::empty(),
            before,
            depth,
            replies,
            log.len(),
        ) == (ListStep {
            result: match result {
                Ok(values) => Ok(symbol_views(values@)),
                Err(e) => Err(e@),
            },
            scopes: after,
            next: log_after.len(),
            faithful: true,
        })
}

/// Evaluates the nodes of a list in order.
pub(crate) fn evaluate_arguments<'a, H: Host>(
    args: &Vec<Node>,
    table: &mut SymbolTable<'a>,
    host: &mut H,
    depth: u32,
    Ghost(log): Ghost<Seq<HostCall>>,
) -> (out: (Result<Vec<Symbol>, Error>, Ghost<Seq<HostCall>>))
    ensures
        evaluated_list(
            node_views(args@),
            old(table)@,
            depth as nat,
            log,
            out.0,
            final(table)@,
            out.1@,
        ),
    decreases depth, args,
{
    let ghost before = table@;
    let ghost nodes = node_views(args@);
    let ghost mut current = log;
    let mut values: Vec<Symbol> = Vec::new();
    let mut i: usize = 0;
    assert(symbol_views(values@) =~= Seq::<SymbolView>::empty());
    while i < args.len()
        invariant
            i <= args.len(),
            nodes == node_views(args@),
            before == old(table)@,
            log.is_prefix_of(current),
            forall|replies: Seq<HostCall>|
                current.is_prefix_of(replies) ==> #[trigger] eval_list(
                    nodes,
                    0,
                    Seq::empty(),
                    before,
                    depth as nat,
                    replies,
                    log.len(),
                ) == eval_list(
                    nodes,
                    i as nat,
                    symbol_views(values@),
                    table@,
                    depth as nat,
                    replies,
                    current.len(),
                ),
        decreases args.len() - i,
    {
        let ghost here = table@;
        let ghost earlier = current;
        let ghost found = symbol_views(values@);
        let (result, Ghost(later)) = eval_node(&args[i], table, host, depth, Ghost(current));
        proof {
            current = later;
            lemma_prefix_transitive(log, earlier, later);
            assert(nodes[i as int] == args[i as int]@);
        }
        match result {
            Ok(value) => {
                values.push(value);
                proof {
                    assert(symbol_views(values@) =~= found.push(value@));
                    assert forall|replies: Seq<HostCall>| later.is_prefix_of(replies) implies #[trigger] eval_list(
                        nodes,
                        0,
                        Seq::empty(),
                        before,
                        depth as nat,
                        replies,
                        log.len(),
                    ) == eval_list(
                        nodes,
                        (i + 1) as nat,
                        symbol_views(values@),
                        table@,
                        depth as nat,
                        replies,
                        later.len(),
                    ) by {
                        lemma_prefix_transitive(earlier, later, replies);
                        lemma_eval_list(
                            nodes,
                            i as nat,
                            found,
                            here,
                            depth as nat,
                            replies,
                            earlier.len(),
                        );
                    }
                }
            },
            Err(e) => {
                proof {
                    assert forall|replies: Seq<HostCall>| later.is_prefix_of(replies) implies #[trigger] eval_list(
                        nodes,
                        0,
                        Seq::empty(),
                        before,
                        depth as nat,
                        replies,
                        log.len(),
                    ) == (ListStep { result: Err(e@), scopes: table@, next: later.len(), faithful: true }) by {
                        lemma_prefix_transitive(earlier, later, replies);
                        lemma_eval_list(
                            nodes,
                            i as nat,
                            found,
                            here,
                            depth as nat,
                            replies,
                            earlier.len(),
                        );
                    }
                }
                return (Err(e), Ghost(later));
            },
        }
        i += 1;
    }
    proof {
        assert forall|replies: Seq<HostCall>| current.is_prefix_of(replies) implies #[trigger] eval_list(
            nodes,
            0,
            Seq::empty(),
            before,
            depth as nat,
            replies,
            log.len(),
        ) == (ListStep { result: Ok(symbol_views(values@)), scopes: table@, next: current.len(), faithful: true }) by {
            lemma_eval_list(
                nodes,
                i as nat,
                symbol_views(values@),
                table@,
                depth as nat,
                replies,
                current.len(),
            );
        }
    }
    (Ok(values), Ghost(current))
}

/// Whether a call from the answers `log` on did what [`call`] says.
pub open spec fn called(
    func_node: NodeView,
    raw: Seq<NodeView>,
    values: Seq<SymbolView>,
    scopes: Scopes,
    depth: nat,
    log: Seq<HostCall>,
    result: Result<Symbol, Error>,
    log_after: Seq<HostCall>,
) -> bool {
    &&& log.is_prefix_of(log_after)
    &&& forall|replies: Seq<HostCall>|
        log_after.is_prefix_of(replies) ==> #[trigger] call(
            func_node,
            raw,
            values,
            scopes,
            depth,
            replies,
            log.len(),
        ) == (Step { result: result_view(result), scopes: scopes, next: log_after.len(), faithful: true })
}

/// Calls what `func_node` names with the values `values`; `raw` are the
/// argument nodes of the call, which a function of the host is handed.
pub(crate) fn call_function<'a, H: Host>(
    func_node: &Node,
    raw: &Vec<Node>,
    values: Vec<Symbol>,
    table: &SymbolTable<'a>,
    host: &mut H,
    depth: u32,
    Ghost(log): Ghost<Seq<HostCall>>,
) -> (out: (Result<Symbol, Error>, Ghost<Seq<HostCall>>))
    ensures
        called(
            func_node@,
            node_views(raw@),
            symbol_views(values@),
            table@,
            depth as nat,
            log,
            out.0,
            out.1@,
        ),
    decreases depth, func_node,
{
    let ghost node = func_node@;
    let ghost given = symbol_views(values@);
    let position = func_node.get_position();
    let function = match resolve_callee(func_node, table) {
        Ok(function) => function,
        Err(e) => {
            proof {
                assert forall|replies: Seq<HostCall>| log.is_prefix_of(replies) implies call(
                    node,
                    node_views(raw@),
                    given,
                    table@,
                    depth as nat,
                    replies,
                    log.len(),
                ) == (Step { result: Err(e@), scopes: table@, next: log.len(), faithful: true }) by {
                    lemma_call(node, node_views(raw@), given, table@, depth as nat, replies, log.len());
                }
            }
            return (Err(e), Ghost(log));
        },
    };
    if function.args.len() != values.len() {
        let e = arity_error(function.args.len(), values.len(), &position);
        proof {
            assert forall|replies: Seq<HostCall>| log.is_prefix_of(replies) implies call(
                node,
                node_views(raw@),
                given,
                table@,
                depth as nat,
                replies,
                log.len(),
            ) == (Step { result: Err(e@), scopes: table@, next: log.len(), faithful: true }) by {
                lemma_call(node, node_views(raw@), given, table@, depth as nat, replies, log.len());
            }
        }
        return (Err(e), Ghost(log));
    }
    if depth == 0 {
        let e = depth_error(&position);
        proof {
            assert forall|replies: Seq<HostCall>| log.is_prefix_of(replies) implies call(
                node,
                node_views(raw@),
                given,
                table@,
                depth as nat,
                replies,
                log.len(),
            ) == (Step { result: Err(e@), scopes: table@, next: log.len(), faithful: true }) by {
                lemma_call(node, node_views(raw@), given, table@, depth as nat, replies, log.len());
            }
        }
        return (Err(e), Ghost(log));
    }
    let mut func_symbol_table = SymbolTable::new(Box::new(table));
    func_symbol_table.set_args(&function.args, values);
    proof {
        lemma_view_children(function.node);
    }
    match &function.node {
        Node::ExecuteBuiltinNode(execute_builtin_node) => {
            let ghost inner = func_symbol_table@;
            let (result, Ghost(after)) = ask_native(
                host,
                execute_builtin_node.handle,
                &mut func_symbol_table,
                raw,
                depth - 1,
                Ghost(log),
            );
            proof {
                assert forall|replies: Seq<HostCall>| after.is_prefix_of(replies) implies call(
                    node,
                    node_views(raw@),
                    given,
                    table@,
                    depth as nat,
                    replies,
                    log.len(),
                ) == (Step { result: result_view(result), scopes: table@, next: after.len(), faithful: true }) by {
                    lemma_call(node, node_views(raw@), given, table@, depth as nat, replies, log.len());
                    lemma_prefix_push(
                        log,
                        HostCall::Native {
                            handle: execute_builtin_node.handle,
                            scopes: inner,
                            args: node_views(raw@),
                            depth: (depth - 1) as nat,
                            outcome: result_view(result),
                        },
                        replies,
                    );
                }
            }
            (result, Ghost(after))
        },
        Node::StatementsNode(statements) => {
            let (result, Ghost(after)) = run_statements(
                &statements.statements,
                &mut func_symbol_table,
                host,
                depth - 1,
                position,
                Ghost(log),
            );
            proof {
                assert forall|replies: Seq<HostCall>| after.is_prefix_of(replies) implies call(
                    node,
                    node_views(raw@),
                    given,
                    table@,
                    depth as nat,
                    replies,
                    log.len(),
                ) == (Step { result: result_view(result), scopes: table@, next: after.len(), faithful: true }) by {
                    lemma_call(node, node_views(raw@), given, table@, depth as nat, replies, log.len());
                }
            }
            (result, Ghost(after))
        },
        _ => {
            let e = Error::new_runtime(
                ErrorType::TypeError,
                String::from_str("Function body must be a sequence of statements"),
                &position,
            );
            proof {
                assert forall|replies: Seq<HostCall>| log.is_prefix_of(replies) implies call(
                    node,
                    node_views(raw@),
                    given,
                    table@,
                    depth as nat,
                    replies,
                    log.len(),
                ) == (Step { result: Err(e@), scopes: table@, next: log.len(), faithful: true }) by {
                    lemma_call(node, node_views(raw@), given, table@, depth as nat, replies, log.len());
                }
            }
            (Err(e), Ghost(log))
        },
    }
}

impl FuncCallNode {
    /// The view of the node that this is the payload of.
    pub open spec fn as_node(&self) -> NodeView {
        NodeView::FuncCall { func_node: Box::new(self.func_node@), args: node_views(self.args@) }
    }

    /// A call: the arguments are evaluated in the table of the caller, from
    /// left to right, and then the function is called with their values.
    pub(crate) fn visit_logged<'a, H: Host>(
        &self,
        table: &mut SymbolTable<'a>,
        host: &mut H,
        depth: u32,
        Ghost(log): Ghost<Seq<HostCall>>,
    ) -> (out: (Result<Symbol, Error>, Ghost<Seq<HostCall>>))
        ensures
            evaluated(self.as_node(), old(table)@, depth as nat, log, out.0, final(table)@, out.1@),
        decreases depth, self,
    {
        let ghost before = table@;
        let ghost node = self.as_node();
        let (args, Ghost(log1)) = evaluate_arguments(&self.args, table, host, depth, Ghost(log));
        let values = match args {
            Ok(values) => values,
            Err(e) => {
                proof {
                    assert forall|replies: Seq<HostCall>| log1.is_prefix_of(replies) implies eval(
                        node,
                        before,
                        depth as nat,
                        replies,
                        log.len(),
                    ) == (Step { result: Err(e@), scopes: table@, next: log1.len(), faithful: true }) by {
                        lemma_eval(node, before, depth as nat, replies, log.len());
                    }
                }
                return (Err(e), Ghost(log1));
            },
        };
        let ghost given = symbol_views(values@);
        let (result, Ghost(log2)) = call_function(
            &self.func_node,
            &self.args,
            values,
            &*table,
            host,
            depth,
            Ghost(log1),
        );
        proof {
            assert forall|replies: Seq<HostCall>| log2.is_prefix_of(replies) implies eval(
                node,
                before,
                depth as nat,
                replies,
                log.len(),
            ) == (Step { result: result_view(result), scopes: table@, next: log2.len(), faithful: true }) by {
                lemma_eval(node, before, depth as nat, replies, log.len());
                lemma_prefix_transitive(log1, log2, replies);
            }
        }
        (result, Ghost(log2))
    }
}

} // verus!
