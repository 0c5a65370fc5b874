//! What the evaluator asks of its host: floating-point arithmetic and the
//! functions that the host provides.
//!
//! The library holds a float as the 32 bits of its IEEE 754 representation
//! and computes nothing on them but the change of sign. Whatever else is
//! done with floats, the host does. Nothing is assumed of what the host
//! answers: the evaluator is specified for every answer, over the sequence
//! of the answers that it was given.
use vstd::prelude::*;
use crate::errors::{Error, ErrorView};
use crate::interpreter::symbol_table::{Scopes, SymbolTable};
use crate::interpreter::symbols::{Symbol, SymbolView};
use crate::parser::nodes::{node_views, Node, NodeView};

verus! {

/// The arithmetic operators.
#[derive(Copy, Clone, Debug, PartialEq, Eq, Structural)]
pub enum ArithmeticOp {
    Add,
    Subtract,
    Multiply,
    Divide,
    Power,
}

/// The relational operators.
#[derive(Copy, Clone, Debug, PartialEq, Eq, Structural)]
pub enum CompareOp {
    Less,
    LessEqual,
    Greater,
    GreaterEqual,
    Equal,
    NotEqual,
}

/// The host of an evaluation.
pub trait Host {
    /// The bits of the float that the digits of a literal write.
    fn float_from_literal(&mut self, digits: &String) -> u32;

    /// The bits of the float that an integer is converted to.
    fn float_from_int(&mut self, value: i32) -> u32;

    /// The bits of the result of an arithmetic operator on two floats.
    fn float_arithmetic(&mut self, op: ArithmeticOp, left: u32, right: u32) -> u32;

    /// Whether a relational operator holds of two floats.
    fn float_compare(&mut self, op: CompareOp, left: u32, right: u32) -> bool;

    /// The result of the host function `handle`, called with the argument
    /// nodes `args`, which are not evaluated, in the table of the call.
    /// `depth` is the number of nested calls that may still be made.
    fn call_native<'a>(
        &mut self,
        handle: u32,
        table: &mut SymbolTable<'a>,
        args: &Vec<Node>,
        depth: u32,
    ) -> Result<Symbol, Error>;
}

/// A call of the host: what was asked, and what the host answered.
pub enum HostCall {
    /// The float that the digits of a literal write.
    Literal { digits: Seq<char>, bits: u32 },
    /// The float that an integer is converted to.
    Conversion { value: i32, bits: u32 },
    /// An arithmetic operator on two floats.
    Arithmetic { op: ArithmeticOp, left: u32, right: u32, bits: u32 },
    /// A relational operator on two floats.
    Comparison { op: CompareOp, left: u32, right: u32, truth: bool },
    /// A function of the host, called with argument nodes in a scope chain.
    Native {
        handle: u32,
        scopes: Scopes,
        args: Seq<NodeView>,
        depth: nat,
        outcome: Result<SymbolView, ErrorView>,
    },
}

/// The bits that the host answered at index `at`, where it was asked there
/// for the float of the literal `digits`.
pub open spec fn literal_answer(calls: Seq<HostCall>, at: nat, digits: Seq<char>) -> Option<u32> {
    match calls[at as int] {
        HostCall::Literal { digits: asked, bits } => if asked == digits {
            Some(bits)
        } else {
            None
        },
        _ => None,
    }
}

/// The bits that the host answered at index `at`, where it was asked there
/// for the float of the integer `value`.
pub open spec fn conversion_answer(calls: Seq<HostCall>, at: nat, value: i32) -> Option<u32> {
    match calls[at as int] {
        HostCall::Conversion { value: asked, bits } => if asked == value {
            Some(bits)
        } else {
            None
        },
        _ => None,
    }
}

/// The bits that the host answered at index `at`, where it was asked there
/// for `op` on `left` and `right`.
pub open spec fn arithmetic_answer(calls: Seq<HostCall>, at: nat, op: ArithmeticOp, left: u32, right: u32) -> Option<u32> {
    match calls[at as int] {
        HostCall::Arithmetic { op: asked, left: l, right: r, bits } => if asked == op && l == left
            && r == right {
            Some(bits)
        } else {
            None
        },
        _ => None,
    }
}

/// The truth that the host answered at index `at`, where it was asked there
/// for `op` on `left` and `right`.
pub open spec fn comparison_answer(calls: Seq<HostCall>, at: nat, op: CompareOp, left: u32, right: u32) -> Option<bool> {
    match calls[at as int] {
        HostCall::Comparison { op: asked, left: l, right: r, truth } => if asked == op && l == left
            && r == right {
            Some(truth)
        } else {
            None
        },
        _ => None,
    }
}

/// The result that the host function `handle` gave at index `at`, where it
/// was called there with the argument nodes `args` in the scope chain
/// `scopes`, with `depth` nested calls left to it.
pub open spec fn native_answer(
    calls: Seq<HostCall>,
    at: nat,
    handle: u32,
    scopes: Scopes,
    args: Seq<NodeView>,
    depth: nat,
) -> Option<Result<SymbolView, ErrorView>> {
    match calls[at as int] {
        HostCall::Native { handle: h, scopes: s, args: a, depth: d, outcome } => if h == handle
            && s == scopes && a == args && d == depth {
            Some(outcome)
        } else {
            None
        },
        _ => None,
    }
}

/// What stands for a result where the host was not asked what the
/// evaluation asks. No evaluation gives it.
pub open spec fn astray() -> ErrorView {
    ErrorView {
        error_type: crate::errors::ErrorType::Exception,
        error_message: "The host was asked another question"@,
        position: crate::lexer::tokens::TokenPosition::internal(),
    }
}

/// The view of a result of an evaluation.
pub open spec fn result_view(r: Result<Symbol, Error>) -> Result<SymbolView, ErrorView> {
    match r {
        Ok(symbol) => Ok(symbol@),
        Err(e) => Err(e@),
    }
}

/// `log` with one more call.
pub open spec fn answered(log: Seq<HostCall>, reply: HostCall, after: Seq<HostCall>) -> bool {
    after == log.push(reply)
}

/// A beginning of a beginning of a sequence of calls is a beginning of the
/// sequence.
pub proof fn lemma_prefix_transitive(a: Seq<HostCall>, b: Seq<HostCall>, c: Seq<HostCall>)
    requires
        a.is_prefix_of(b),
        b.is_prefix_of(c),
    ensures
        a.is_prefix_of(c),
{
}

/// A sequence of calls that begins with `log` and one more call begins with
/// `log` and holds that call behind it.
pub proof fn lemma_prefix_push(log: Seq<HostCall>, reply: HostCall, replies: Seq<HostCall>)
    requires
        log.push(reply).is_prefix_of(replies),
    ensures
        log.is_prefix_of(replies),
        replies[log.len() as int] == reply,
{
    assert(log.push(reply)[log.len() as int] == reply);
}

/// Asks the host for the float of a literal and notes the answer.
pub(crate) fn ask_literal<H: Host>(host: &mut H, digits: &String, Ghost(log): Ghost<Seq<HostCall>>) -> (out:
    (u32, Ghost<Seq<HostCall>>))
    ensures
        answered(log, HostCall::Literal { digits: digits@, bits: out.0 }, out.1@),
{
    let bits = host.float_from_literal(digits);
    (bits, Ghost(log.push(HostCall::Literal { digits: digits@, bits: bits })))
}

/// Asks the host for the float of an integer and notes the answer.
pub(crate) fn ask_conversion<H: Host>(host: &mut H, value: i32, Ghost(log): Ghost<Seq<HostCall>>) -> (out:
    (u32, Ghost<Seq<HostCall>>))
    ensures
        answered(log, HostCall::Conversion { value: value, bits: out.0 }, out.1@),
{
    let bits = host.float_from_int(value);
    (bits, Ghost(log.push(HostCall::Conversion { value: value, bits: bits })))
}

/// Asks the host for the result of an arithmetic operator and notes the
/// answer.
pub(crate) fn ask_arithmetic<H: Host>(
    host: &mut H,
    op: ArithmeticOp,
    left: u32,
    right: u32,
    Ghost(log): Ghost<Seq<HostCall>>,
) -> (out: (u32, Ghost<Seq<HostCall>>))
    ensures
        answered(
            log,
            HostCall::Arithmetic { op: op, left: left, right: right, bits: out.0 },
            out.1@,
        ),
{
    let bits = host.float_arithmetic(op, left, right);
    (bits, Ghost(log.push(HostCall::Arithmetic { op: op, left: left, right: right, bits: bits })))
}

/// Asks the host whether a relational operator holds and notes the answer.
pub(crate) fn ask_comparison<H: Host>(
    host: &mut H,
    op: CompareOp,
    left: u32,
    right: u32,
    Ghost(log): Ghost<Seq<HostCall>>,
) -> (out: (bool, Ghost<Seq<HostCall>>))
    ensures
        answered(
            log,
            HostCall::Comparison { op: op, left: left, right: right, truth: out.0 },
            out.1@,
        ),
{
    let truth = host.float_compare(op, left, right);
    (
        truth,
        Ghost(log.push(HostCall::Comparison { op: op, left: left, right: right, truth: truth })),
    )
}

/// Calls a host function and notes its result.
pub(crate) fn ask_native<'a, H: Host>(
    host: &mut H,
    handle: u32,
    table: &mut SymbolTable<'a>,
    args: &Vec<Node>,
    depth: u32,
    Ghost(log): Ghost<Seq<HostCall>>,
) -> (out: (Result<Symbol, Error>, Ghost<Seq<HostCall>>))
    ensures
        answered(
            log,
            HostCall::Native {
                handle: handle,
                scopes: old(table)@,
                args: node_views(args@),
                depth: depth as nat,
                outcome: result_view(out.0),
            },
            out.1@,
        ),
{
    let ghost scopes = table@;
    let outcome = host.call_native(handle, table, args, depth);
    (
        outcome,
        Ghost(
            log.push(
                HostCall::Native {
                    handle: handle,
                    scopes: scopes,
                    args: node_views(args@),
                    depth: depth as nat,
                    outcome: result_view(outcome),
                },
            ),
        ),
    )
}

} // verus!
