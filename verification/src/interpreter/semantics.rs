//! What evaluating a node gives.
//!
//! [`eval`] is the meaning of a node: a function of the node, of the scope
//! chain in which it is evaluated, of the number of nested calls that may
//! still be made, and of the answers of the host. It gives the value or the
//! error, the scope chain afterwards, and the number of answers that were
//! used. Operands and arguments are evaluated from left to right, all of
//! them, before the operator is applied or the function called; the first
//! error ends the evaluation.
use vstd::prelude::*;
use crate::errors::{ErrorType, ErrorView};
use crate::interpreter::host::{
    astray, literal_answer, native_answer, ArithmeticOp, CompareOp, HostCall,
};
use crate::interpreter::operations::{
    arithmetic, compare, conjunction, disjunction, float_at, integer_at, negation, opposite,
    runtime_error, settled, Applied,
};
use crate::interpreter::symbol_table::{assign, assign_all, enter, lookup, Scopes};
use crate::interpreter::symbols::{nothing_at, FunctionView, SymbolKind, SymbolView};
use crate::lexer::tokens::{kind_text, Keyword, TokenKind, TokenPosition, TokenView};
use crate::parser::nodes::{position_of, NodeView};
use crate::text::decimal;

verus! {

/// What an evaluation gives: the value or the error, the scope chain
/// afterwards, and the index of the next answer of the host.
pub struct Step {
    pub result: Result<SymbolView, ErrorView>,
    pub scopes: Scopes,
    pub next: nat,
    pub faithful: bool,
}

/// What the evaluation of a list of nodes gives.
pub struct ListStep {
    pub result: Result<Seq<SymbolView>, ErrorView>,
    pub scopes: Scopes,
    pub next: nat,
    pub faithful: bool,
}

/// What running a program gives: the error, if there is one.
pub struct ProgramStep {
    pub result: Result<(), ErrorView>,
    pub scopes: Scopes,
    pub next: nat,
    pub faithful: bool,
}

/// The binary operators.
pub enum BinaryKind {
    Arithmetic(ArithmeticOp),
    Compare(CompareOp),
    And,
    Or,
}

/// The binary operator that a token stands for, if it stands for one.
pub open spec fn binary_kind(kind: TokenKind) -> Option<BinaryKind> {
    match kind {
        TokenKind::Plus => Some(BinaryKind::Arithmetic(ArithmeticOp::Add)),
        TokenKind::Minus => Some(BinaryKind::Arithmetic(ArithmeticOp::Subtract)),
        TokenKind::Star => Some(BinaryKind::Arithmetic(ArithmeticOp::Multiply)),
        TokenKind::Slash => Some(BinaryKind::Arithmetic(ArithmeticOp::Divide)),
        TokenKind::Caret => Some(BinaryKind::Arithmetic(ArithmeticOp::Power)),
        TokenKind::Less => Some(BinaryKind::Compare(CompareOp::Less)),
        TokenKind::LessEqual => Some(BinaryKind::Compare(CompareOp::LessEqual)),
        TokenKind::Greater => Some(BinaryKind::Compare(CompareOp::Greater)),
        TokenKind::GreaterEqual => Some(BinaryKind::Compare(CompareOp::GreaterEqual)),
        TokenKind::EqualEqual => Some(BinaryKind::Compare(CompareOp::Equal)),
        TokenKind::BangEqual => Some(BinaryKind::Compare(CompareOp::NotEqual)),
        TokenKind::Keyword(Keyword::And) => Some(BinaryKind::And),
        TokenKind::Keyword(Keyword::Or) => Some(BinaryKind::Or),
        _ => None,
    }
}

/// The arithmetic operator of a compound assignment.
pub open spec fn compound_op(kind: TokenKind) -> Option<ArithmeticOp> {
    match kind {
        TokenKind::PlusEqual => Some(ArithmeticOp::Add),
        TokenKind::MinusEqual => Some(ArithmeticOp::Subtract),
        TokenKind::StarEqual => Some(ArithmeticOp::Multiply),
        TokenKind::SlashEqual => Some(ArithmeticOp::Divide),
        _ => None,
    }
}

/// The message of the error for a token that is no operator where one is
/// wanted.
#[verifier::opaque]
pub open spec fn invalid_operation_message(kind: TokenKind) -> Seq<char> {
    "Invalid operation: '"@ + kind_text(kind) + "'"@
}

/// The message of the error for a name that is not bound.
#[verifier::opaque]
pub open spec fn undefined_variable_message(name: Seq<char>) -> Seq<char> {
    "Undefined variable '"@ + name + "'"@
}

/// The message of the error for a call of a name that is not bound.
#[verifier::opaque]
pub open spec fn function_not_found_message(name: Seq<char>) -> Seq<char> {
    "Function "@ + name + " not found"@
}

/// The message of the error for a call with `got` arguments of a function
/// with `expected` parameters.
#[verifier::opaque]
pub open spec fn arity_message(expected: nat, got: nat) -> Seq<char> {
    "Wrong number of arguments: expected "@ + decimal(expected) + ", got "@ + decimal(got)
}

/// The error for a token that is no operator where one is wanted, at the
/// token.
pub open spec fn invalid_operation(op: TokenView) -> ErrorView {
    runtime_error(ErrorType::InvalidOperation, invalid_operation_message(op.value), op.position)
}

/// The error for a name that is not bound.
pub open spec fn undefined_variable(name: Seq<char>, position: TokenPosition) -> ErrorView {
    runtime_error(ErrorType::UndefinedVariable, undefined_variable_message(name), position)
}

/// The error for a call beyond the number of nested calls that is allowed.
pub open spec fn depth_exceeded(position: TokenPosition) -> ErrorView {
    runtime_error(ErrorType::Exception, "Maximum recursion depth exceeded"@, position)
}

/// The name that an identifier token carries; a token of another kind is a
/// type error at the token.
pub open spec fn name_of(identifier: TokenView) -> Result<Seq<char>, ErrorView> {
    match identifier.value {
        TokenKind::Identifier(name) => Ok(name),
        _ => Err(runtime_error(ErrorType::TypeError, "Expected identifier"@, identifier.position)),
    }
}

/// The names of the parameters from index `from` on, behind the names
/// `found`; the first token that is no identifier is a type error.
pub open spec fn names_from(parameters: Seq<TokenView>, from: nat, found: Seq<Seq<char>>) -> Result<Seq<Seq<char>>, ErrorView>
    decreases parameters.len() - from,
{
    if from >= parameters.len() {
        Ok(found)
    } else {
        match name_of(parameters[from as int]) {
            Ok(name) => names_from(parameters, from + 1, found.push(name)),
            Err(e) => Err(e),
        }
    }
}

/// A binary operator on two values.
pub open spec fn apply_binary(op: TokenView, left: SymbolView, right: SymbolView, calls: Seq<HostCall>, at: nat) -> Applied {
    match binary_kind(op.value) {
        Some(BinaryKind::Arithmetic(a)) => arithmetic(a, left, right, calls, at),
        Some(BinaryKind::Compare(c)) => compare(c, left, right, calls, at),
        Some(BinaryKind::And) => settled(conjunction(left, right), at),
        Some(BinaryKind::Or) => settled(disjunction(left, right), at),
        None => settled(Err(invalid_operation(op)), at),
    }
}

/// A unary operator on a value: `not`, `+`, which gives the value itself,
/// or `-`.
pub open spec fn apply_unary(op: TokenView, operand: SymbolView) -> Result<SymbolView, ErrorView> {
    match op.value {
        TokenKind::Keyword(Keyword::Not) => negation(operand),
        TokenKind::Plus => Ok(operand),
        TokenKind::Minus => opposite(operand),
        _ => Err(runtime_error(ErrorType::TypeError, "Expected unary operation"@, op.position)),
    }
}

/// A step that takes no call of the host and leaves the scope chain as it
/// is.
pub open spec fn stay(result: Result<SymbolView, ErrorView>, scopes: Scopes, at: nat) -> Step {
    Step { result: result, scopes: scopes, next: at, faithful: true }
}

/// The step behind `before` that gives `result` and takes no further call
/// of the host.
pub open spec fn then(before: Step, result: Result<SymbolView, ErrorView>) -> Step {
    Step { result: result, scopes: before.scopes, next: before.next, faithful: before.faithful }
}

/// The step behind `before` in which an operator was applied.
pub open spec fn then_applied(before: Step, applied: Applied) -> Step {
    Step {
        result: applied.result,
        scopes: before.scopes,
        next: applied.next,
        faithful: before.faithful && applied.faithful,
    }
}

/// The step `after`, which follows the step `before`.
pub open spec fn followed(before: Step, after: Step) -> Step {
    Step {
        result: after.result,
        scopes: after.scopes,
        next: after.next,
        faithful: before.faithful && after.faithful,
    }
}

/// What the host answered as the result of a host function: a step that
/// leaves the scope chain as it is.
pub open spec fn answered_step(answer: Option<Result<SymbolView, ErrorView>>, scopes: Scopes, at: nat) -> Step {
    match answer {
        Some(outcome) => Step { result: outcome, scopes: scopes, next: at + 1, faithful: true },
        None => Step { result: Err(astray()), scopes: scopes, next: at + 1, faithful: false },
    }
}

/// A number literal: an integer gives its value; for a float the host is
/// asked for the bits that the digits write.
pub open spec fn number(token: TokenView, scopes: Scopes, calls: Seq<HostCall>, at: nat) -> Step {
    match token.value {
        TokenKind::Integer(i) => stay(Ok(integer_at(i, token.position)), scopes, at),
        TokenKind::Float(digits) => match literal_answer(calls, at, digits) {
            Some(bits) => Step {
                result: Ok(float_at(bits, token.position)),
                scopes: scopes,
                next: at + 1,
                faithful: true,
            },
            None => Step { result: Err(astray()), scopes: scopes, next: at + 1, faithful: false },
        },
        _ => stay(
            Err(runtime_error(ErrorType::TypeError, "Expected number"@, token.position)),
            scopes,
            at,
        ),
    }
}

/// A string literal.
pub open spec fn text(token: TokenView) -> Result<SymbolView, ErrorView> {
    match token.value {
        TokenKind::String(s) => Ok(
            SymbolView { value: SymbolKind::String(s), position: token.position },
        ),
        _ => Err(runtime_error(ErrorType::TypeError, "Expected string"@, token.position)),
    }
}

/// The use of a name: its value in the scope chain, or the error for a name
/// that no table of the chain binds, at the identifier.
pub open spec fn access(identifier: TokenView, scopes: Scopes) -> Result<SymbolView, ErrorView> {
    match name_of(identifier) {
        Err(e) => Err(e),
        Ok(name) => match lookup(scopes, name) {
            Some(value) => Ok(value),
            None => Err(undefined_variable(name, identifier.position)),
        },
    }
}

/// The function that a call names: what is called must be a name, and the
/// name must be bound to a function.
pub open spec fn callee(func_node: NodeView, scopes: Scopes) -> Result<FunctionView, ErrorView> {
    match func_node {
        NodeView::VarAccess { identifier } => match name_of(identifier) {
            Err(e) => Err(e),
            Ok(name) => match lookup(scopes, name) {
                Some(value) => match value.value {
                    SymbolKind::Function(function) => Ok(function),
                    _ => Err(
                        runtime_error(
                            ErrorType::TypeError,
                            "Cannot call non-function"@,
                            position_of(func_node),
                        ),
                    ),
                },
                None => Err(
                    runtime_error(
                        ErrorType::UndefinedVariable,
                        function_not_found_message(name),
                        position_of(func_node),
                    ),
                ),
            },
        },
        _ => Err(
            runtime_error(ErrorType::TypeError, "Cannot call non-function"@, position_of(func_node)),
        ),
    }
}

/// The function value that a definition binds: a definition without a body
/// has the empty sequence of statements for its body.
pub open spec fn defined(name: Seq<char>, names: Seq<Seq<char>>, body: Option<Box<NodeView>>, position: TokenPosition) -> SymbolView {
    SymbolView {
        value: SymbolKind::Function(
            FunctionView {
                name: name,
                args: names,
                node: match body {
                    Some(b) => *b,
                    None => NodeView::Statements { statements: Seq::empty() },
                },
            },
        ),
        position: position,
    }
}

/// A function definition: the function is bound to its name in the
/// innermost table.
pub open spec fn define(identifier: TokenView, parameters: Seq<TokenView>, body: Option<Box<NodeView>>, scopes: Scopes, at: nat) -> Step {
    match name_of(identifier) {
        Err(e) => stay(Err(e), scopes, at),
        Ok(name) => match names_from(parameters, 0, Seq::empty()) {
            Err(e) => stay(Err(e), scopes, at),
            Ok(names) => stay(
                Ok(nothing_at(identifier.position)),
                assign(scopes, name, defined(name, names, body, identifier.position)),
                at,
            ),
        },
    }
}

/// What an `assert` makes of the value of its condition: every integer but
/// 0 passes and is the result.
pub open spec fn asserted(value: SymbolView, position: TokenPosition) -> Result<SymbolView, ErrorView> {
    match value.value {
        SymbolKind::Integer(i) => if i != 0 {
            Ok(value)
        } else {
            Err(runtime_error(ErrorType::AssertError, "Assertion failed"@, position))
        },
        _ => Err(runtime_error(ErrorType::AssertError, "Assertion failed"@, position)),
    }
}

/// The step behind `before` in which `name` is bound to `value` in the
/// innermost table; the result is no value, at `position`.
pub open spec fn bound(before: Step, name: Seq<char>, value: SymbolView, position: TokenPosition) -> Step {
    Step {
        result: Ok(nothing_at(position)),
        scopes: assign(before.scopes, name, value),
        next: before.next,
        faithful: before.faithful,
    }
}

/// The meaning of a node.
#[verifier::opaque]
pub open spec fn eval(node: NodeView, scopes: Scopes, depth: nat, calls: Seq<HostCall>, at: nat) -> Step
    decreases depth, node, 0nat,
{
    match node {
        NodeView::Number { token } => number(token, scopes, calls, at),
        NodeView::Text { token } => stay(text(token), scopes, at),
        NodeView::BinOp { left, op, right } => {
            let l = eval(*left, scopes, depth, calls, at);
            if l.result is Err {
                l
            } else {
                let r = followed(l, eval(*right, l.scopes, depth, calls, l.next));
                if r.result is Err {
                    r
                } else {
                    then_applied(
                        r,
                        apply_binary(op, l.result->Ok_0, r.result->Ok_0, calls, r.next),
                    )
                }
            }
        },
        NodeView::UnaryOp { op, right } => {
            let r = eval(*right, scopes, depth, calls, at);
            if r.result is Err {
                r
            } else {
                then(r, apply_unary(op, r.result->Ok_0))
            }
        },
        NodeView::VarAssignment { identifier, value } => match name_of(identifier) {
            Err(e) => stay(Err(e), scopes, at),
            Ok(name) => {
                let v = eval(*value, scopes, depth, calls, at);
                if v.result is Err {
                    v
                } else {
                    bound(v, name, v.result->Ok_0, identifier.position)
                }
            },
        },
        NodeView::VarArithmeticAssignment { identifier, op, value } => match access(
            identifier,
            scopes,
        ) {
            Err(e) => stay(Err(e), scopes, at),
            Ok(current) => {
                let v = eval(*value, scopes, depth, calls, at);
                if v.result is Err {
                    v
                } else {
                    match compound_op(op.value) {
                        None => then(v, Err(invalid_operation(op))),
                        Some(a) => {
                            let applied = then_applied(
                                v,
                                arithmetic(a, current, v.result->Ok_0, calls, v.next),
                            );
                            match applied.result {
                                Err(e) => applied,
                                Ok(sum) => bound(applied, name_of(identifier)->Ok_0, sum, op.position),
                            }
                        },
                    }
                }
            },
        },
        NodeView::VarAccess { identifier } => stay(access(identifier, scopes), scopes, at),
        NodeView::IfExpr { condition, if_true, if_false } => {
            let c = eval(*condition, scopes, depth, calls, at);
            if c.result is Err {
                c
            } else {
                match c.result->Ok_0.value {
                    SymbolKind::Integer(i) => if i != 0 {
                        followed(c, eval(*if_true, c.scopes, depth, calls, c.next))
                    } else {
                        match if_false {
                            Some(other) => followed(
                                c,
                                eval(*other, c.scopes, depth, calls, c.next),
                            ),
                            None => then(c, Ok(nothing_at(position_of(*condition)))),
                        }
                    },
                    _ => then(
                        c,
                        Err(
                            runtime_error(
                                ErrorType::TypeError,
                                "If statement condition must be an integer"@,
                                position_of(*condition),
                            ),
                        ),
                    ),
                }
            }
        },
        NodeView::FuncDef { identifier, parameters, body } => define(
            identifier,
            parameters,
            body,
            scopes,
            at,
        ),
        NodeView::FuncCall { func_node, args } => {
            let evaluated = eval_list(args, 0, Seq::empty(), scopes, depth, calls, at);
            match evaluated.result {
                Err(e) => Step {
                    result: Err(e),
                    scopes: evaluated.scopes,
                    next: evaluated.next,
                    faithful: evaluated.faithful,
                },
                Ok(values) => {
                    let called = call(
                        *func_node,
                        args,
                        values,
                        evaluated.scopes,
                        depth,
                        calls,
                        evaluated.next,
                    );
                    Step {
                        result: called.result,
                        scopes: called.scopes,
                        next: called.next,
                        faithful: evaluated.faithful && called.faithful,
                    }
                },
            }
        },
        NodeView::ListExpr { elements } => stay(
            Err(
                runtime_error(
                    ErrorType::TypeError,
                    "List expressions are not supported"@,
                    position_of(node),
                ),
            ),
            scopes,
            at,
        ),
        NodeView::Statements { statements } => stay(
            Err(
                runtime_error(
                    ErrorType::TypeError,
                    "Cannot evaluate a sequence of statements"@,
                    TokenPosition::internal(),
                ),
            ),
            scopes,
            at,
        ),
        NodeView::Return { returned } => match returned {
            Some(value) => eval(*value, scopes, depth, calls, at),
            None => stay(Ok(nothing_at(TokenPosition::internal())), scopes, at),
        },
        NodeView::Assert { condition } => {
            let c = eval(*condition, scopes, depth, calls, at);
            if c.result is Err {
                c
            } else {
                then(c, asserted(c.result->Ok_0, position_of(*condition)))
            }
        },
        NodeView::ExecuteBuiltin { handle, bound } => native(handle, bound, scopes, depth, calls, at),
    }
}

/// A function of the host outside a call: where the argument nodes of a
/// call are bound to it, the host is called with them in a fresh table that
/// the scope chain encloses, and its result is what the host answers.
pub open spec fn native(handle: u32, bound: Option<Seq<NodeView>>, scopes: Scopes, depth: nat, calls: Seq<HostCall>, at: nat) -> Step {
    match bound {
        None => stay(
            Err(
                runtime_error(
                    ErrorType::ArgumentError,
                    "Arguments are not defined"@,
                    TokenPosition::internal(),
                ),
            ),
            scopes,
            at,
        ),
        Some(args) => if depth == 0 {
            stay(Err(depth_exceeded(TokenPosition::internal())), scopes, at)
        } else {
            answered_step(
                native_answer(calls, at, handle, enter(scopes), args, (depth - 1) as nat),
                scopes,
                at,
            )
        },
    }
}

/// The values of the nodes of a list from index `from` on, behind the
/// values `found`.
#[verifier::opaque]
pub open spec fn eval_list(nodes: Seq<NodeView>, from: nat, found: Seq<SymbolView>, scopes: Scopes, depth: nat, calls: Seq<HostCall>, at: nat) -> ListStep
    decreases depth, nodes, nodes.len() - from,
{
    if from >= nodes.len() {
        ListStep { result: Ok(found), scopes: scopes, next: at, faithful: true }
    } else {
        let item = eval(nodes[from as int], scopes, depth, calls, at);
        match item.result {
            Err(e) => ListStep {
                result: Err(e),
                scopes: item.scopes,
                next: item.next,
                faithful: item.faithful,
            },
            Ok(value) => {
                let rest = eval_list(
                    nodes,
                    from + 1,
                    found.push(value),
                    item.scopes,
                    depth,
                    calls,
                    item.next,
                );
                ListStep {
                    result: rest.result,
                    scopes: rest.scopes,
                    next: rest.next,
                    faithful: item.faithful && rest.faithful,
                }
            },
        }
    }
}

/// The call of what `func_node` names with the values `values` of the
/// argument nodes `raw`.
///
/// The function runs in a fresh table that is enclosed by the scope chain of
/// the caller and that binds the parameters to the values. Its statements
/// are evaluated in order up to the first `return` among them, whose value
/// is the result; without one the result is no value. A function of the
/// host is called with the argument nodes, which it is handed as they are,
/// in that table. The scope chain of the caller stays as it is. Each call
/// takes one from the number of nested calls that may still be made, and a
/// call at 0 is an error.
#[verifier::opaque]
pub open spec fn call(func_node: NodeView, raw: Seq<NodeView>, values: Seq<SymbolView>, scopes: Scopes, depth: nat, calls: Seq<HostCall>, at: nat) -> Step
    decreases depth, func_node, 0nat,
{
    match callee(func_node, scopes) {
        Err(e) => stay(Err(e), scopes, at),
        Ok(function) => if function.args.len() != values.len() {
            stay(
                Err(
                    runtime_error(
                        ErrorType::TypeError,
                        arity_message(function.args.len(), values.len()),
                        position_of(func_node),
                    ),
                ),
                scopes,
                at,
            )
        } else if depth == 0 {
            stay(Err(depth_exceeded(position_of(func_node))), scopes, at)
        } else {
            let inner = assign_all(enter(scopes), function.args, values, 0);
            match function.node {
                NodeView::ExecuteBuiltin { handle, bound } => answered_step(
                    native_answer(calls, at, handle, inner, raw, (depth - 1) as nat),
                    scopes,
                    at,
                ),
                NodeView::Statements { statements } => {
                    let body = run_body(
                        statements,
                        0,
                        inner,
                        (depth - 1) as nat,
                        calls,
                        at,
                        position_of(func_node),
                    );
                    Step {
                        result: body.result,
                        scopes: scopes,
                        next: body.next,
                        faithful: body.faithful,
                    }
                },
                _ => stay(
                    Err(
                        runtime_error(
                            ErrorType::TypeError,
                            "Function body must be a sequence of statements"@,
                            position_of(func_node),
                        ),
                    ),
                    scopes,
                    at,
                ),
            }
        },
    }
}

/// The statements of a function body from index `from` on: the value of the
/// first `return`, or no value, at `position`, behind the last statement.
#[verifier::opaque]
pub open spec fn run_body(statements: Seq<NodeView>, from: nat, scopes: Scopes, depth: nat, calls: Seq<HostCall>, at: nat, position: TokenPosition) -> Step
    decreases depth, statements, statements.len() - from,
{
    if from >= statements.len() {
        stay(Ok(nothing_at(position)), scopes, at)
    } else {
        let s = eval(statements[from as int], scopes, depth, calls, at);
        if statements[from as int] is Return || s.result is Err {
            s
        } else {
            followed(s, run_body(statements, from + 1, s.scopes, depth, calls, s.next, position))
        }
    }
}

/// The statements of a program from index `from` on, each evaluated in
/// turn.
#[verifier::opaque]
pub open spec fn run_program(statements: Seq<NodeView>, from: nat, scopes: Scopes, depth: nat, calls: Seq<HostCall>, at: nat) -> ProgramStep
    decreases statements.len() - from,
{
    if from >= statements.len() {
        ProgramStep { result: Ok(()), scopes: scopes, next: at, faithful: true }
    } else {
        let s = eval(statements[from as int], scopes, depth, calls, at);
        match s.result {
            Err(e) => ProgramStep {
                result: Err(e),
                scopes: s.scopes,
                next: s.next,
                faithful: s.faithful,
            },
            Ok(_) => {
                let rest = run_program(statements, from + 1, s.scopes, depth, calls, s.next);
                ProgramStep {
                    result: rest.result,
                    scopes: rest.scopes,
                    next: rest.next,
                    faithful: s.faithful && rest.faithful,
                }
            },
        }
    }
}

/// What running a tree as a program gives: the tree must be a sequence of
/// statements.
pub open spec fn run(ast: NodeView, scopes: Scopes, depth: nat, calls: Seq<HostCall>, at: nat) -> ProgramStep {
    match ast {
        NodeView::Statements { statements } => run_program(statements, 0, scopes, depth, calls, at),
        _ => ProgramStep {
            result: Err(
                runtime_error(
                    ErrorType::TypeError,
                    "First node must be a sequence of statements"@,
                    TokenPosition::internal(),
                ),
            ),
            scopes: scopes,
            next: at,
            faithful: true,
        },
    }
}

/// The definition of [`eval`], unfolded once.
pub proof fn lemma_eval(node: NodeView, scopes: Scopes, depth: nat, calls: Seq<HostCall>, at: nat)
    ensures
        eval(node, scopes, depth, calls, at) == ({
            match node {
                NodeView::Number { token } => number(token, scopes, calls, at),
                NodeView::Text { token } => stay(text(token), scopes, at),
                NodeView::BinOp { left, op, right } => {
                    let l = eval(*left, scopes, depth, calls, at);
                    if l.result is Err {
                        l
                    } else {
                        let r = followed(l, eval(*right, l.scopes, depth, calls, l.next));
                        if r.result is Err {
                            r
                        } else {
                            then_applied(
                                r,
                                apply_binary(op, l.result->Ok_0, r.result->Ok_0, calls, r.next),
                            )
                        }
                    }
                },
                NodeView::UnaryOp { op, right } => {
                    let r = eval(*right, scopes, depth, calls, at);
                    if r.result is Err {
                        r
                    } else {
                        then(r, apply_unary(op, r.result->Ok_0))
                    }
                },
                NodeView::VarAssignment { identifier, value } => match name_of(identifier) {
                    Err(e) => stay(Err(e), scopes, at),
                    Ok(name) => {
                        let v = eval(*value, scopes, depth, calls, at);
                        if v.result is Err {
                            v
                        } else {
                            bound(v, name, v.result->Ok_0, identifier.position)
                        }
                    },
                },
                NodeView::VarArithmeticAssignment { identifier, op, value } => match access(
                    identifier,
                    scopes,
                ) {
                    Err(e) => stay(Err(e), scopes, at),
                    Ok(current) => {
                        let v = eval(*value, scopes, depth, calls, at);
                        if v.result is Err {
                            v
                        } else {
                            match compound_op(op.value) {
                                None => then(v, Err(invalid_operation(op))),
                                Some(a) => {
                                    let applied = then_applied(
                                        v,
                                        arithmetic(a, current, v.result->Ok_0, calls, v.next),
                                    );
                                    match applied.result {
                                        Err(e) => applied,
                                        Ok(sum) => bound(applied, name_of(identifier)->Ok_0, sum, op.position),
                                    }
                                },
                            }
                        }
                    },
                },
                NodeView::VarAccess { identifier } => stay(access(identifier, scopes), scopes, at),
                NodeView::IfExpr { condition, if_true, if_false } => {
                    let c = eval(*condition, scopes, depth, calls, at);
                    if c.result is Err {
                        c
                    } else {
                        match c.result->Ok_0.value {
                            SymbolKind::Integer(i) => if i != 0 {
                                followed(c, eval(*if_true, c.scopes, depth, calls, c.next))
                            } else {
                                match if_false {
                                    Some(other) => followed(
                                        c,
                                        eval(*other, c.scopes, depth, calls, c.next),
                                    ),
                                    None => then(c, Ok(nothing_at(position_of(*condition)))),
                                }
                            },
                            _ => then(
                                c,
                                Err(
                                    runtime_error(
                                        ErrorType::TypeError,
                                        "If statement condition must be an integer"@,
                                        position_of(*condition),
                                    ),
                                ),
                            ),
                        }
                    }
                },
                NodeView::FuncDef { identifier, parameters, body } => define(
                    identifier,
                    parameters,
                    body,
                    scopes,
                    at,
                ),
                NodeView::FuncCall { func_node, args } => {
                    let evaluated = eval_list(args, 0, Seq::empty(), scopes, depth, calls, at);
                    match evaluated.result {
                        Err(e) => Step {
                            result: Err(e),
                            scopes: evaluated.scopes,
                            next: evaluated.next,
                            faithful: evaluated.faithful,
                        },
                        Ok(values) => {
                            let called = call(
                                *func_node,
                                args,
                                values,
                                evaluated.scopes,
                                depth,
                                calls,
                                evaluated.next,
                            );
                            Step {
                                result: called.result,
                                scopes: called.scopes,
                                next: called.next,
                                faithful: evaluated.faithful && called.faithful,
                            }
                        },
                    }
                },
                NodeView::ListExpr { elements } => stay(
                    Err(
                        runtime_error(
                            ErrorType::TypeError,
                            "List expressions are not supported"@,
                            position_of(node),
                        ),
                    ),
                    scopes,
                    at,
                ),
                NodeView::Statements { statements } => stay(
                    Err(
                        runtime_error(
                            ErrorType::TypeError,
                            "Cannot evaluate a sequence of statements"@,
                            TokenPosition::internal(),
                        ),
                    ),
                    scopes,
                    at,
                ),
                NodeView::Return { returned } => match returned {
                    Some(value) => eval(*value, scopes, depth, calls, at),
                    None => stay(Ok(nothing_at(TokenPosition::internal())), scopes, at),
                },
                NodeView::Assert { condition } => {
                    let c = eval(*condition, scopes, depth, calls, at);
                    if c.result is Err {
                        c
                    } else {
                        then(c, asserted(c.result->Ok_0, position_of(*condition)))
                    }
                },
                NodeView::ExecuteBuiltin { handle, bound } => native(handle, bound, scopes, depth, calls, at),
            }
        }),
{
    reveal(eval);
    reveal(eval_list);
    reveal(call);
}

/// The definition of [`eval_list`], unfolded once.
pub proof fn lemma_eval_list(nodes: Seq<NodeView>, from: nat, found: Seq<SymbolView>, scopes: Scopes, depth: nat, calls: Seq<HostCall>, at: nat)
    ensures
        eval_list(nodes, from, found, scopes, depth, calls, at) == ({
            if from >= nodes.len() {
                ListStep { result: Ok(found), scopes: scopes, next: at, faithful: true }
            } else {
                let item = eval(nodes[from as int], scopes, depth, calls, at);
                match item.result {
                    Err(e) => ListStep {
                        result: Err(e),
                        scopes: item.scopes,
                        next: item.next,
                        faithful: item.faithful,
                    },
                    Ok(value) => {
                        let rest = eval_list(
                            nodes,
                            from + 1,
                            found.push(value),
                            item.scopes,
                            depth,
                            calls,
                            item.next,
                        );
                        ListStep {
                            result: rest.result,
                            scopes: rest.scopes,
                            next: rest.next,
                            faithful: item.faithful && rest.faithful,
                        }
                    },
                }
            }
        }),
{
    reveal(eval);
    reveal(eval_list);
}

/// The definition of [`call`], unfolded once.
pub proof fn lemma_call(func_node: NodeView, raw: Seq<NodeView>, values: Seq<SymbolView>, scopes: Scopes, depth: nat, calls: Seq<HostCall>, at: nat)
    ensures
        call(func_node, raw, values, scopes, depth, calls, at) == ({
            match callee(func_node, scopes) {
                Err(e) => stay(Err(e), scopes, at),
                Ok(function) => if function.args.len() != values.len() {
                    stay(
                        Err(
                            runtime_error(
                                ErrorType::TypeError,
                                arity_message(function.args.len(), values.len()),
                                position_of(func_node),
                            ),
                        ),
                        scopes,
                        at,
                    )
                } else if depth == 0 {
                    stay(Err(depth_exceeded(position_of(func_node))), scopes, at)
                } else {
                    let inner = assign_all(enter(scopes), function.args, values, 0);
                    match function.node {
                        NodeView::ExecuteBuiltin { handle, bound } => answered_step(
                            native_answer(calls, at, handle, inner, raw, (depth - 1) as nat),
                            scopes,
                            at,
                        ),
                        NodeView::Statements { statements } => {
                            let body = run_body(
                                statements,
                                0,
                                inner,
                                (depth - 1) as nat,
                                calls,
                                at,
                                position_of(func_node),
                            );
                            Step {
                                result: body.result,
                                scopes: scopes,
                                next: body.next,
                                faithful: body.faithful,
                            }
                        },
                        _ => stay(
                            Err(
                                runtime_error(
                                    ErrorType::TypeError,
                                    "Function body must be a sequence of statements"@,
                                    position_of(func_node),
                                ),
                            ),
                            scopes,
                            at,
                        ),
                    }
                },
            }
        }),
{
    reveal(call);
    reveal(run_body);
}

/// The definition of [`run_body`], unfolded once.
pub proof fn lemma_run_body(statements: Seq<NodeView>, from: nat, scopes: Scopes, depth: nat, calls: Seq<HostCall>, at: nat, position: TokenPosition)
    ensures
        run_body(statements, from, scopes, depth, calls, at, position) == ({
            if from >= statements.len() {
                stay(Ok(nothing_at(position)), scopes, at)
            } else {
                let s = eval(statements[from as int], scopes, depth, calls, at);
                if statements[from as int] is Return || s.result is Err {
                    s
                } else {
                    followed(s, run_body(statements, from + 1, s.scopes, depth, calls, s.next, position))
                }
            }
        }),
{
    reveal(eval);
    reveal(run_body);
}

/// The definition of [`run_program`], unfolded once.
pub proof fn lemma_run_program(statements: Seq<NodeView>, from: nat, scopes: Scopes, depth: nat, calls: Seq<HostCall>, at: nat)
    ensures
        run_program(statements, from, scopes, depth, calls, at) == ({
            if from >= statements.len() {
                ProgramStep { result: Ok(()), scopes: scopes, next: at, faithful: true }
            } else {
                let s = eval(statements[from as int], scopes, depth, calls, at);
                match s.result {
                    Err(e) => ProgramStep {
                        result: Err(e),
                        scopes: s.scopes,
                        next: s.next,
                        faithful: s.faithful,
                    },
                    Ok(_) => {
                        let rest = run_program(statements, from + 1, s.scopes, depth, calls, s.next);
                        ProgramStep {
                            result: rest.result,
                            scopes: rest.scopes,
                            next: rest.next,
                            faithful: s.faithful && rest.faithful,
                        }
                    },
                }
            }
        }),
{
    reveal(eval);
    reveal(run_program);
}

} // verus!
