//! What holds of every evaluation.
use vstd::prelude::*;
use crate::errors::ErrorType;
use crate::interpreter::host::HostCall;
use crate::interpreter::semantics::{
    arity_message, call, callee, eval, eval_list, lemma_call, lemma_eval, lemma_eval_list,
    undefined_variable_message,
};
use crate::interpreter::symbol_table::{lookup, Scopes};
use crate::interpreter::symbols::{SymbolKind, SymbolView};
use crate::lexer::tokens::{TokenKind, TokenView};
use crate::parser::nodes::{position_of, NodeView};

verus! {

/// A name that no table of a scope chain binds has no value in the chain.
pub proof fn lemma_lookup_unbound(scopes: Scopes, name: Seq<char>)
    requires
        forall|i: int| 0 <= i < scopes.len() ==> !(#[trigger] scopes[i]).contains_key(name),
    ensures
        lookup(scopes, name) is None,
    decreases scopes.len(),
{
    if scopes.len() > 0 {
        lemma_lookup_unbound(scopes.drop_last(), name);
    }
}

/// The use of a name that no table of the scope chain binds fails with an
/// error of the kind `UndefinedVariable`, at the position of the identifier
/// and with the name in its message; the scope chain stays as it is and the
/// host is not asked.
pub proof fn lemma_undefined_variable(
    identifier: TokenView,
    name: Seq<char>,
    scopes: Scopes,
    depth: nat,
    replies: Seq<HostCall>,
    at: nat,
)
    requires
        identifier.value == TokenKind::Identifier(name),
        forall|i: int| 0 <= i < scopes.len() ==> !(#[trigger] scopes[i]).contains_key(name),
    ensures
        ({
            let step = eval(NodeView::VarAccess { identifier: identifier }, scopes, depth, replies, at);
            &&& step.result is Err
            &&& step.result->Err_0.error_type == ErrorType::UndefinedVariable
            &&& step.result->Err_0.position == identifier.position
            &&& step.result->Err_0.error_message == undefined_variable_message(name)
            &&& step.scopes == scopes
            &&& step.next == at
        }),
{
    lemma_lookup_unbound(scopes, name);
    lemma_eval(NodeView::VarAccess { identifier: identifier }, scopes, depth, replies, at);
}

/// The call of a function with another number of arguments than it has
/// parameters fails with a type error whose message gives both numbers, at
/// the position of what is called; the function is not run.
pub proof fn lemma_arity_mismatch(
    func_node: NodeView,
    raw: Seq<NodeView>,
    values: Seq<SymbolView>,
    scopes: Scopes,
    depth: nat,
    replies: Seq<HostCall>,
    at: nat,
)
    requires
        callee(func_node, scopes) is Ok,
        callee(func_node, scopes)->Ok_0.args.len() != values.len(),
    ensures
        ({
            let step = call(func_node, raw, values, scopes, depth, replies, at);
            &&& step.result is Err
            &&& step.result->Err_0.error_type == ErrorType::TypeError
            &&& step.result->Err_0.position == position_of(func_node)
            &&& step.result->Err_0.error_message == arity_message(
                callee(func_node, scopes)->Ok_0.args.len(),
                values.len(),
            )
            &&& step.scopes == scopes
            &&& step.next == at
        }),
{
    lemma_call(func_node, raw, values, scopes, depth, replies, at);
}

/// An `assert` whose condition has a value gives that value where it is an
/// integer other than 0, and else fails with an error of the kind
/// `AssertError` at the position of the condition.
pub proof fn lemma_assert(
    condition: NodeView,
    scopes: Scopes,
    depth: nat,
    replies: Seq<HostCall>,
    at: nat,
)
    requires
        eval(condition, scopes, depth, replies, at).result is Ok,
    ensures
        ({
            let inner = eval(condition, scopes, depth, replies, at);
            let value = inner.result->Ok_0;
            let step = eval(
                NodeView::Assert { condition: Box::new(condition) },
                scopes,
                depth,
                replies,
                at,
            );
            &&& step.scopes == inner.scopes
            &&& step.next == inner.next
            &&& (value.value is Integer && value.value->Integer_0 != 0) ==> step.result == Ok::<
                SymbolView,
                crate::errors::ErrorView,
            >(value)
            &&& !(value.value is Integer && value.value->Integer_0 != 0) ==> {
                &&& step.result is Err
                &&& step.result->Err_0.error_type == ErrorType::AssertError
                &&& step.result->Err_0.position == position_of(condition)
            }
        }),
{
    lemma_eval(NodeView::Assert { condition: Box::new(condition) }, scopes, depth, replies, at);
}

/// Whether two scope chains have the same tables but for the innermost.
pub open spec fn same_outer(before: Scopes, after: Scopes) -> bool {
    after.len() == before.len() && after.drop_last() == before.drop_last()
}

/// Evaluating a node changes no table but the innermost.
///
/// Whatever is bound while a node is evaluated is bound in the innermost
/// table of the scope chain: a branch of an `if` opens no table of its own,
/// and a call leaves nothing behind, since the table that it runs in is
/// dropped when it ends. So the tables that enclose the innermost one are
/// the same afterwards, whether the evaluation succeeds or fails.
pub proof fn lemma_eval_keeps_outer(
    node: NodeView,
    scopes: Scopes,
    depth: nat,
    replies: Seq<HostCall>,
    at: nat,
)
    requires
        scopes.len() > 0,
    ensures
        same_outer(scopes, eval(node, scopes, depth, replies, at).scopes),
    decreases node, 0nat,
{
    lemma_eval(node, scopes, depth, replies, at);
    match node {
        NodeView::BinOp { left, op, right } => {
            lemma_eval_keeps_outer(*left, scopes, depth, replies, at);
            let l = eval(*left, scopes, depth, replies, at);
            lemma_eval_keeps_outer(*right, l.scopes, depth, replies, l.next);
        },
        NodeView::UnaryOp { op, right } => {
            lemma_eval_keeps_outer(*right, scopes, depth, replies, at);
        },
        NodeView::VarAssignment { identifier, value } => {
            lemma_eval_keeps_outer(*value, scopes, depth, replies, at);
            let v = eval(*value, scopes, depth, replies, at);
            assert(eval(node, scopes, depth, replies, at).scopes.drop_last() =~= scopes.drop_last());
        },
        NodeView::VarArithmeticAssignment { identifier, op, value } => {
            lemma_eval_keeps_outer(*value, scopes, depth, replies, at);
            assert(eval(node, scopes, depth, replies, at).scopes.drop_last() =~= scopes.drop_last());
        },
        NodeView::IfExpr { condition, if_true, if_false } => {
            lemma_eval_keeps_outer(*condition, scopes, depth, replies, at);
            let c = eval(*condition, scopes, depth, replies, at);
            lemma_eval_keeps_outer(*if_true, c.scopes, depth, replies, c.next);
            match if_false {
                Some(other) => {
                    lemma_eval_keeps_outer(*other, c.scopes, depth, replies, c.next);
                },
                None => {},
            }
        },
        NodeView::FuncDef { identifier, parameters, body } => {
            assert(eval(node, scopes, depth, replies, at).scopes.drop_last() =~= scopes.drop_last());
        },
        NodeView::FuncCall { func_node, args } => {
            lemma_eval_list_keeps_outer(args, 0, Seq::empty(), scopes, depth, replies, at);
            let evaluated = eval_list(args, 0, Seq::empty(), scopes, depth, replies, at);
            match evaluated.result {
                Ok(values) => {
                    lemma_call(
                        *func_node,
                        args,
                        values,
                        evaluated.scopes,
                        depth,
                        replies,
                        evaluated.next,
                    );
                },
                Err(_) => {},
            }
        },
        NodeView::Return { returned } => {
            match returned {
                Some(value) => {
                    lemma_eval_keeps_outer(*value, scopes, depth, replies, at);
                },
                None => {},
            }
        },
        NodeView::Assert { condition } => {
            lemma_eval_keeps_outer(*condition, scopes, depth, replies, at);
        },
        _ => {},
    }
}

/// Evaluating the nodes of a list changes no table but the innermost.
pub proof fn lemma_eval_list_keeps_outer(
    nodes: Seq<NodeView>,
    from: nat,
    found: Seq<SymbolView>,
    scopes: Scopes,
    depth: nat,
    replies: Seq<HostCall>,
    at: nat,
)
    requires
        scopes.len() > 0,
    ensures
        same_outer(scopes, eval_list(nodes, from, found, scopes, depth, replies, at).scopes),
    decreases nodes, nodes.len() - from,
{
    lemma_eval_list(nodes, from, found, scopes, depth, replies, at);
    if from < nodes.len() {
        lemma_eval_keeps_outer(nodes[from as int], scopes, depth, replies, at);
        let item = eval(nodes[from as int], scopes, depth, replies, at);
        match item.result {
            Ok(value) => {
                lemma_eval_list_keeps_outer(
                    nodes,
                    from + 1,
                    found.push(value),
                    item.scopes,
                    depth,
                    replies,
                    item.next,
                );
            },
            Err(_) => {},
        }
    }
}

/// A relational operator gives 1 or 0: where it succeeds, and the host
/// was asked what the operator asks, the result is one of the two integers
/// and has the position of the left operand.
pub proof fn lemma_compare_gives_truth(
    op: crate::interpreter::host::CompareOp,
    left: SymbolView,
    right: SymbolView,
    calls: Seq<HostCall>,
    at: nat,
)
    ensures
        ({
            let applied = crate::interpreter::operations::compare(op, left, right, calls, at);
            applied.faithful && applied.result is Ok ==> {
                &&& applied.result->Ok_0.position == left.position
                &&& (applied.result->Ok_0.value == SymbolKind::Integer(0)
                    || applied.result->Ok_0.value == SymbolKind::Integer(1))
            }
        }),
{
}

/// An arithmetic operator on an integer and a float, in either order, or on
/// two floats, gives a float, with the position of the left operand, where
/// the host was asked what the operator asks; on two integers it gives an
/// integer or an error, and the host is not asked.
pub proof fn lemma_arithmetic_promotes(
    op: crate::interpreter::host::ArithmeticOp,
    left: SymbolView,
    right: SymbolView,
    calls: Seq<HostCall>,
    at: nat,
)
    requires
        left.value is Integer || left.value is Float,
        right.value is Integer || right.value is Float,
    ensures
        ({
            let applied = crate::interpreter::operations::arithmetic(op, left, right, calls, at);
            &&& (left.value is Float || right.value is Float) && applied.faithful ==> {
                &&& applied.result is Ok
                &&& applied.result->Ok_0.value is Float
                &&& applied.result->Ok_0.position == left.position
            }
            &&& (left.value is Integer && right.value is Integer) ==> {
                &&& applied.next == at
                &&& applied.faithful
                &&& applied.result is Ok ==> applied.result->Ok_0.value is Integer
            }
        }),
{
}

} // verus!
