//! The evaluator: one function for every kind of node, each proved to give
//! what [`eval`] gives.
use vstd::prelude::*;
use vstd::string::StringExecFns;
use crate::errors::{Error, ErrorType};
use crate::interpreter::host::{
    ask_literal, ask_native, lemma_prefix_push, lemma_prefix_transitive, result_view, ArithmeticOp,
    CompareOp, Host, HostCall,
};
use crate::interpreter::operations::{apply_arithmetic, apply_compare, Applied};
use crate::interpreter::semantics::{
    apply_binary, apply_unary, binary_kind, compound_op, eval, invalid_operation,
    invalid_operation_message, lemma_eval, name_of, names_from, undefined_variable,
    undefined_variable_message, BinaryKind, Step,
};
use crate::interpreter::symbol_table::{Scopes, SymbolTable};
use crate::interpreter::symbols::{FunctionSymbol, Symbol, SymbolType, SymbolView};
use crate::lexer::tokens::{token_views, Keyword, Token, TokenPosition, TokenType, TokenView};
use crate::parser::nodes::{
    clone_node, lemma_view_children, AssertNode, BinOpNode, ExecuteBuiltinNode, FuncCallNode,
    FuncDefNode, IfExprNode, ListExprNode, Node, NodeView, NumberNode, ReturnNode, StatementsNode,
    StringNode, UnaryOpNode, VarAccessNode, VarArithmeticAssignmentNode, VarAssignmentNode,
};

verus! {

broadcast use vstd::std_specs::vec::group_vec_axioms;

/// Whether an evaluation of `node` that began in the scope chain `before`
/// with the answers `log`, and gave `result`, the scope chain `after` and
/// the answers `log_after`, did what [`eval`] says of every sequence of
/// answers that begins with `log_after`.
pub open spec fn evaluated(
    node: NodeView,
    before: Scopes,
    depth: nat,
    log: Seq<HostCall>,
    result: Result<Symbol, Error>,
    after: Scopes,
    log_after: Seq<HostCall>,
) -> bool {
    &&& log.is_prefix_of(log_after)
    &&& forall|replies: Seq<HostCall>|
        log_after.is_prefix_of(replies) ==> #[trigger] eval(node, before, depth, replies, log.len())
            == (Step { result: result_view(result), scopes: after, next: log_after.len(), faithful: true })
}

/// The name that an identifier token carries.
pub fn get_name_as_string(identifier: &Token) -> (r: Result<String, Error>)
    ensures
        match name_of(identifier@) {
            Ok(name) => r is Ok && r->Ok_0@ == name,
            Err(e) => r is Err && r->Err_0@ == e,
        },
{
    match &identifier.value {
        TokenType::Identifier(s) => Ok(s.clone()),
        _ => Err(
            Error::new_runtime(
                ErrorType::TypeError,
                String::from_str("Expected identifier"),
                &identifier.position,
            ),
        ),
    }
}

/// The names that the parameter tokens of a function carry.
pub fn string_parameters(parameters: &Vec<Token>) -> (r: Result<Vec<String>, Error>)
    ensures
        match names_from(token_views(parameters@), 0, Seq::empty()) {
            Ok(names) => r is Ok && crate::lexer::tokens::text_views(r->Ok_0@) == names,
            Err(e) => r is Err && r->Err_0@ == e,
        },
{
    let mut strings: Vec<String> = Vec::new();
    let mut i: usize = 0;
    let ghost tokens = token_views(parameters@);
    assert(crate::lexer::tokens::text_views(strings@) =~= Seq::<Seq<char>>::empty());
    while i < parameters.len()
        invariant
            i <= parameters.len(),
            tokens == token_views(parameters@),
            names_from(tokens, 0, Seq::empty()) == names_from(
                tokens,
                i as nat,
                crate::lexer::tokens::text_views(strings@),
            ),
        decreases parameters.len() - i,
    {
        let ghost before = crate::lexer::tokens::text_views(strings@);
        match get_name_as_string(&parameters[i]) {
            Ok(name) => {
                strings.push(name);
                assert(crate::lexer::tokens::text_views(strings@) =~= before.push(name@));
            },
            Err(e) => {
                return Err(e);
            },
        }
        i += 1;
    }
    Ok(strings)
}

/// The binary operator that a token stands for.
fn binary_kind_of(kind: &TokenType) -> (r: Option<BinaryKind>)
    ensures
        r == binary_kind(kind@),
{
    match kind {
        TokenType::Plus => Some(BinaryKind::Arithmetic(ArithmeticOp::Add)),
        TokenType::Minus => Some(BinaryKind::Arithmetic(ArithmeticOp::Subtract)),
        TokenType::Star => Some(BinaryKind::Arithmetic(ArithmeticOp::Multiply)),
        TokenType::Slash => Some(BinaryKind::Arithmetic(ArithmeticOp::Divide)),
        TokenType::Caret => Some(BinaryKind::Arithmetic(ArithmeticOp::Power)),
        TokenType::Less => Some(BinaryKind::Compare(CompareOp::Less)),
        TokenType::LessEqual => Some(BinaryKind::Compare(CompareOp::LessEqual)),
        TokenType::Greater => Some(BinaryKind::Compare(CompareOp::Greater)),
        TokenType::GreaterEqual => Some(BinaryKind::Compare(CompareOp::GreaterEqual)),
        TokenType::EqualEqual => Some(BinaryKind::Compare(CompareOp::Equal)),
        TokenType::BangEqual => Some(BinaryKind::Compare(CompareOp::NotEqual)),
        TokenType::Keyword(Keyword::And) => Some(BinaryKind::And),
        TokenType::Keyword(Keyword::Or) => Some(BinaryKind::Or),
        _ => None,
    }
}

/// The arithmetic operator of a compound assignment.
fn compound_op_of(kind: &TokenType) -> (r: Option<ArithmeticOp>)
    ensures
        r == compound_op(kind@),
{
    match kind {
        TokenType::PlusEqual => Some(ArithmeticOp::Add),
        TokenType::MinusEqual => Some(ArithmeticOp::Subtract),
        TokenType::StarEqual => Some(ArithmeticOp::Multiply),
        TokenType::SlashEqual => Some(ArithmeticOp::Divide),
        _ => None,
    }
}

/// The error for a token that is no operator where one is wanted.
pub fn invalid_operation_error(op: &Token) -> (e: Error)
    ensures
        e@ == invalid_operation(op@),
{
    proof {
        reveal(invalid_operation_message);
    }
    let mut message = String::from_str("Invalid operation: '");
    message.append(op.value.to_string().as_str());
    message.append("'");
    Error::new_runtime(ErrorType::InvalidOperation, message, &op.position)
}

/// The error for a name that no table of the scope chain binds.
pub fn undefined_variable_error(name: &String, position: &TokenPosition) -> (e: Error)
    ensures
        e@ == undefined_variable(name@, *position),
{
    proof {
        reveal(undefined_variable_message);
    }
    let mut message = String::from_str("Undefined variable '");
    message.append(name.as_str());
    message.append("'");
    Error::new_runtime(ErrorType::UndefinedVariable, message, position)
}

/// Whether a binary operator that was applied from the answers `log` on did
/// what [`apply_binary`] says.
pub open spec fn applied_binary(
    op: TokenView,
    left: SymbolView,
    right: SymbolView,
    log: Seq<HostCall>,
    result: Result<Symbol, Error>,
    after: Seq<HostCall>,
) -> bool {
    &&& log.is_prefix_of(after)
    &&& forall|replies: Seq<HostCall>|
        after.is_prefix_of(replies) ==> #[trigger] apply_binary(op, left, right, replies, log.len())
            == (Applied { result: result_view(result), next: after.len(), faithful: true })
}

/// A binary operator on two values.
pub(crate) fn apply_binary_op<H: Host>(
    op: &Token,
    left: &Symbol,
    right: &Symbol,
    host: &mut H,
    Ghost(log): Ghost<Seq<HostCall>>,
) -> (out: (Result<Symbol, Error>, Ghost<Seq<HostCall>>))
    ensures
        applied_binary(op@, left@, right@, log, out.0, out.1@),
{
    match binary_kind_of(&op.value) {
        Some(BinaryKind::Arithmetic(a)) => apply_arithmetic(a, left, right, host, Ghost(log)),
        Some(BinaryKind::Compare(c)) => apply_compare(c, left, right, host, Ghost(log)),
        Some(BinaryKind::And) => (left.and(right), Ghost(log)),
        Some(BinaryKind::Or) => (left.or(right), Ghost(log)),
        None => (Err(invalid_operation_error(op)), Ghost(log)),
    }
}

/// A unary operator on a value.
pub fn apply_unary_op(op: &Token, operand: Symbol) -> (r: Result<Symbol, Error>)
    ensures
        result_view(r) == apply_unary(op@, operand@),
{
    match &op.value {
        TokenType::Keyword(Keyword::Not) => operand.not(),
        TokenType::Plus => Ok(operand),
        TokenType::Minus => operand.neg(),
        _ => Err(
            Error::new_runtime(
                ErrorType::TypeError,
                String::from_str("Expected unary operation"),
                &op.position,
            ),
        ),
    }
}

/// Evaluates a node in `table`, with at most `depth` nested calls.
pub(crate) fn eval_node<'a, H: Host>(
    node: &Node,
    table: &mut SymbolTable<'a>,
    host: &mut H,
    depth: u32,
    Ghost(log): Ghost<Seq<HostCall>>,
) -> (out: (Result<Symbol, Error>, Ghost<Seq<HostCall>>))
    ensures
        evaluated(node@, old(table)@, depth as nat, log, out.0, final(table)@, out.1@),
    decreases depth, node,
{
    proof {
        lemma_view_children(*node);
    }
    match node {
        Node::NumberNode(n) => n.visit_logged(table, host, depth, Ghost(log)),
        Node::StringNode(n) => n.visit_logged(table, host, depth, Ghost(log)),
        Node::BinOpNode(n) => n.visit_logged(table, host, depth, Ghost(log)),
        Node::UnaryOpNode(n) => n.visit_logged(table, host, depth, Ghost(log)),
        Node::VarAssignmentNode(n) => n.visit_logged(table, host, depth, Ghost(log)),
        Node::VarArithmeticAssignmentNode(n) => n.visit_logged(table, host, depth, Ghost(log)),
        Node::VarAccessNode(n) => n.visit_logged(table, host, depth, Ghost(log)),
        Node::IfExprNode(n) => n.visit_logged(table, host, depth, Ghost(log)),
        Node::FuncDefNode(n) => n.visit_logged(table, host, depth, Ghost(log)),
        Node::FuncCallNode(n) => n.visit_logged(table, host, depth, Ghost(log)),
        Node::ListExprNode(n) => n.visit_logged(table, host, depth, Ghost(log)),
        Node::ReturnNode(n) => n.visit_logged(table, host, depth, Ghost(log)),
        Node::AssertNode(n) => n.visit_logged(table, host, depth, Ghost(log)),
        Node::ExecuteBuiltinNode(n) => n.visit_logged(table, host, depth, Ghost(log)),
        Node::StatementsNode(_) => {
            let e = Error::new_runtime(
                ErrorType::TypeError,
                String::from_str("Cannot evaluate a sequence of statements"),
                &TokenPosition::internal(),
            );
            proof {
                assert forall|replies: Seq<HostCall>| log.is_prefix_of(replies) implies eval(
                    node@,
                    table@,
                    depth as nat,
                    replies,
                    log.len(),
                ) == (Step { result: Err(e@), scopes: table@, next: log.len(), faithful: true }) by {
                    lemma_eval(node@, table@, depth as nat, replies, log.len());
                }
            }
            (Err(e), Ghost(log))
        },
    }
}

impl NumberNode {
    /// The view of the node that this is the payload of.
    pub open spec fn as_node(&self) -> NodeView {
        NodeView::Number { token: self.token@ }
    }

    /// A number literal.
    pub(crate) fn visit_logged<'a, H: Host>(
        &self,
        table: &mut SymbolTable<'a>,
        host: &mut H,
        depth: u32,
        Ghost(log): Ghost<Seq<HostCall>>,
    ) -> (out: (Result<Symbol, Error>, Ghost<Seq<HostCall>>))
        ensures
            evaluated(self.as_node(), old(table)@, depth as nat, log, out.0, final(table)@, out.1@),
    {
        match &self.token.value {
            TokenType::Integer(i) => {
                let r = Ok(Symbol::new(SymbolType::Integer(*i), self.token.position));
                proof {
                    assert forall|replies: Seq<HostCall>| log.is_prefix_of(replies) implies eval(
                        self.as_node(),
                        table@,
                        depth as nat,
                        replies,
                        log.len(),
                    ) == (Step { result: result_view(r), scopes: table@, next: log.len(), faithful: true }) by {
                        lemma_eval(self.as_node(), table@, depth as nat, replies, log.len());
                    }
                }
                (r, Ghost(log))
            },
            TokenType::Float(digits) => {
                let (bits, Ghost(after)) = ask_literal(host, digits, Ghost(log));
                let r = Ok(Symbol::new(SymbolType::Float(bits), self.token.position));
                proof {
                    assert forall|replies: Seq<HostCall>| after.is_prefix_of(replies) implies eval(
                        self.as_node(),
                        table@,
                        depth as nat,
                        replies,
                        log.len(),
                    ) == (Step { result: result_view(r), scopes: table@, next: after.len(), faithful: true }) by {
                        lemma_eval(self.as_node(), table@, depth as nat, replies, log.len());
                        lemma_prefix_push(
                            log,
                            HostCall::Literal { digits: digits@, bits: bits },
                            replies,
                        );
                    }
                }
                (r, Ghost(after))
            },
            _ => {
                let r = Err(
                    Error::new_runtime(
                        ErrorType::TypeError,
                        String::from_str("Expected number"),
                        &self.token.position,
                    ),
                );
                proof {
                    assert forall|replies: Seq<HostCall>| log.is_prefix_of(replies) implies eval(
                        self.as_node(),
                        table@,
                        depth as nat,
                        replies,
                        log.len(),
                    ) == (Step { result: result_view(r), scopes: table@, next: log.len(), faithful: true }) by {
                        lemma_eval(self.as_node(), table@, depth as nat, replies, log.len());
                    }
                }
                (r, Ghost(log))
            },
        }
    }
}

impl StringNode {
    /// The view of the node that this is the payload of.
    pub open spec fn as_node(&self) -> NodeView {
        NodeView::Text { token: self.token@ }
    }

    /// A string literal.
    pub(crate) fn visit_logged<'a, H: Host>(
        &self,
        table: &mut SymbolTable<'a>,
        host: &mut H,
        depth: u32,
        Ghost(log): Ghost<Seq<HostCall>>,
    ) -> (out: (Result<Symbol, Error>, Ghost<Seq<HostCall>>))
        ensures
            evaluated(self.as_node(), old(table)@, depth as nat, log, out.0, final(table)@, out.1@),
    {
        let r = match &self.token.value {
            TokenType::String(s) => Ok(
                Symbol::new(SymbolType::String(s.clone()), self.token.position),
            ),
            _ => Err(
                Error::new_runtime(
                    ErrorType::TypeError,
                    String::from_str("Expected string"),
                    &self.token.position,
                ),
            ),
        };
        proof {
            assert forall|replies: Seq<HostCall>| log.is_prefix_of(replies) implies eval(
                self.as_node(),
                table@,
                depth as nat,
                replies,
                log.len(),
            ) == (Step { result: result_view(r), scopes: table@, next: log.len(), faithful: true }) by {
                lemma_eval(self.as_node(), table@, depth as nat, replies, log.len());
            }
        }
        (r, Ghost(log))
    }
}

impl BinOpNode {
    /// The view of the node that this is the payload of.
    pub open spec fn as_node(&self) -> NodeView {
        NodeView::BinOp {
            left: Box::new(self.left_node@),
            op: self.op_token@,
            right: Box::new(self.right_node@),
        }
    }

    /// A binary operator: both operands are evaluated, the left one first,
    /// and then the operator is applied.
    pub(crate) fn visit_logged<'a, H: Host>(
        &self,
        table: &mut SymbolTable<'a>,
        host: &mut H,
        depth: u32,
        Ghost(log): Ghost<Seq<HostCall>>,
    ) -> (out: (Result<Symbol, Error>, Ghost<Seq<HostCall>>))
        ensures
            evaluated(self.as_node(), old(table)@, depth as nat, log, out.0, final(table)@, out.1@),
        decreases depth, self,
    {
        let ghost before = table@;
        let (left, Ghost(log1)) = eval_node(&self.left_node, table, host, depth, Ghost(log));
        let left_symbol = match left {
            Ok(symbol) => symbol,
            Err(e) => {
                proof {
                    assert forall|replies: Seq<HostCall>| log1.is_prefix_of(replies) implies eval(
                        self.as_node(),
                        before,
                        depth as nat,
                        replies,
                        log.len(),
                    ) == (Step { result: Err(e@), scopes: table@, next: log1.len(), faithful: true }) by {
                        lemma_eval(self.as_node(), before, depth as nat, replies, log.len());
                    }
                }
                return (Err(e), Ghost(log1));
            },
        };
        let (right, Ghost(log2)) = eval_node(&self.right_node, table, host, depth, Ghost(log1));
        let right_symbol = match right {
            Ok(symbol) => symbol,
            Err(e) => {
                proof {
                    assert forall|replies: Seq<HostCall>| log2.is_prefix_of(replies) implies eval(
                        self.as_node(),
                        before,
                        depth as nat,
                        replies,
                        log.len(),
                    ) == (Step { result: Err(e@), scopes: table@, next: log2.len(), faithful: true }) by {
                        lemma_eval(self.as_node(), before, depth as nat, replies, log.len());
                        lemma_prefix_transitive(log1, log2, replies);
                    }
                }
                return (Err(e), Ghost(log2));
            },
        };
        let (result, Ghost(log3)) = apply_binary_op(
            &self.op_token,
            &left_symbol,
            &right_symbol,
            host,
            Ghost(log2),
        );
        proof {
            assert forall|replies: Seq<HostCall>| log3.is_prefix_of(replies) implies eval(
                self.as_node(),
                before,
                depth as nat,
                replies,
                log.len(),
            ) == (Step { result: result_view(result), scopes: table@, next: log3.len(), faithful: true }) by {
                lemma_eval(self.as_node(), before, depth as nat, replies, log.len());
                lemma_prefix_transitive(log2, log3, replies);
                lemma_prefix_transitive(log1, log2, replies);
            }
        }
        (result, Ghost(log3))
    }
}

impl UnaryOpNode {
    /// The view of the node that this is the payload of.
    pub open spec fn as_node(&self) -> NodeView {
        NodeView::UnaryOp { op: self.token@, right: Box::new(self.right@) }
    }

    /// A unary operator on the value of its operand.
    pub(crate) fn visit_logged<'a, H: Host>(
        &self,
        table: &mut SymbolTable<'a>,
        host: &mut H,
        depth: u32,
        Ghost(log): Ghost<Seq<HostCall>>,
    ) -> (out: (Result<Symbol, Error>, Ghost<Seq<HostCall>>))
        ensures
            evaluated(self.as_node(), old(table)@, depth as nat, log, out.0, final(table)@, out.1@),
        decreases depth, self,
    {
        let ghost before = table@;
        let (right, Ghost(log1)) = eval_node(&self.right, table, host, depth, Ghost(log));
        let result = match right {
            Ok(symbol) => apply_unary_op(&self.token, symbol),
            Err(e) => Err(e),
        };
        proof {
            assert forall|replies: Seq<HostCall>| log1.is_prefix_of(replies) implies eval(
                self.as_node(),
                before,
                depth as nat,
                replies,
                log.len(),
            ) == (Step { result: result_view(result), scopes: table@, next: log1.len(), faithful: true }) by {
                lemma_eval(self.as_node(), before, depth as nat, replies, log.len());
            }
        }
        (result, Ghost(log1))
    }
}

impl VarAssignmentNode {
    /// The view of the node that this is the payload of.
    pub open spec fn as_node(&self) -> NodeView {
        NodeView::VarAssignment { identifier: self.identifier@, value: Box::new(self.value@) }
    }

    /// `let name = value`: the value is bound to the name in the innermost
    /// table, and the result is no value.
    pub(crate) fn visit_logged<'a, H: Host>(
        &self,
        table: &mut SymbolTable<'a>,
        host: &mut H,
        depth: u32,
        Ghost(log): Ghost<Seq<HostCall>>,
    ) -> (out: (Result<Symbol, Error>, Ghost<Seq<HostCall>>))
        ensures
            evaluated(self.as_node(), old(table)@, depth as nat, log, out.0, final(table)@, out.1@),
        decreases depth, self,
    {
        let ghost before = table@;
        let identifier_string = match get_name_as_string(&self.identifier) {
            Ok(name) => name,
            Err(e) => {
                proof {
                    assert forall|replies: Seq<HostCall>| log.is_prefix_of(replies) implies eval(
                        self.as_node(),
                        before,
                        depth as nat,
                        replies,
                        log.len(),
                    ) == (Step { result: Err(e@), scopes: table@, next: log.len(), faithful: true }) by {
                        lemma_eval(self.as_node(), before, depth as nat, replies, log.len());
                    }
                }
                return (Err(e), Ghost(log));
            },
        };
        let (value, Ghost(log1)) = eval_node(&self.value, table, host, depth, Ghost(log));
        let result = match value {
            Ok(symbol) => {
                table.set(identifier_string, symbol);
                Ok(Symbol::new(SymbolType::Nothing, self.identifier.position))
            },
            Err(e) => Err(e),
        };
        proof {
            assert forall|replies: Seq<HostCall>| log1.is_prefix_of(replies) implies eval(
                self.as_node(),
                before,
                depth as nat,
                replies,
                log.len(),
            ) == (Step { result: result_view(result), scopes: table@, next: log1.len(), faithful: true }) by {
                lemma_eval(self.as_node(), before, depth as nat, replies, log.len());
            }
        }
        (result, Ghost(log1))
    }
}

impl VarArithmeticAssignmentNode {
    /// The view of the node that this is the payload of.
    pub open spec fn as_node(&self) -> NodeView {
        NodeView::VarArithmeticAssignment {
            identifier: self.identifier@,
            op: self.op_token@,
            value: Box::new(self.value@),
        }
    }

    /// `let name += value`, and the same with `-=`, `*=` and `/=`: the value
    /// that the name has is looked up, the right side is evaluated, the
    /// operator is applied to the two, and the result is bound to the name
    /// in the innermost table.
    pub(crate) fn visit_logged<'a, H: Host>(
        &self,
        table: &mut SymbolTable<'a>,
        host: &mut H,
        depth: u32,
        Ghost(log): Ghost<Seq<HostCall>>,
    ) -> (out: (Result<Symbol, Error>, Ghost<Seq<HostCall>>))
        ensures
            evaluated(self.as_node(), old(table)@, depth as nat, log, out.0, final(table)@, out.1@),
        decreases depth, self,
    {
        let ghost before = table@;
        let ghost node = self.as_node();
        let identifier_string = match get_name_as_string(&self.identifier) {
            Ok(name) => name,
            Err(e) => {
                proof {
                    assert forall|replies: Seq<HostCall>| log.is_prefix_of(replies) implies eval(
                        node,
                        before,
                        depth as nat,
                        replies,
                        log.len(),
                    ) == (Step { result: Err(e@), scopes: table@, next: log.len(), faithful: true }) by {
                        lemma_eval(node, before, depth as nat, replies, log.len());
                    }
                }
                return (Err(e), Ghost(log));
            },
        };
        let left_symbol = match table.get(&identifier_string) {
            Some(symbol) => symbol,
            None => {
                let e = undefined_variable_error(&identifier_string, &self.identifier.position);
                proof {
                    assert forall|replies: Seq<HostCall>| log.is_prefix_of(replies) implies eval(
                        node,
                        before,
                        depth as nat,
                        replies,
                        log.len(),
                    ) == (Step { result: Err(e@), scopes: table@, next: log.len(), faithful: true }) by {
                        lemma_eval(node, before, depth as nat, replies, log.len());
                    }
                }
                return (Err(e), Ghost(log));
            },
        };
        let (value, Ghost(log1)) = eval_node(&self.value, table, host, depth, Ghost(log));
        let right_symbol = match value {
            Ok(symbol) => symbol,
            Err(e) => {
                proof {
                    assert forall|replies: Seq<HostCall>| log1.is_prefix_of(replies) implies eval(
                        node,
                        before,
                        depth as nat,
                        replies,
                        log.len(),
                    ) == (Step { result: Err(e@), scopes: table@, next: log1.len(), faithful: true }) by {
                        lemma_eval(node, before, depth as nat, replies, log.len());
                    }
                }
                return (Err(e), Ghost(log1));
            },
        };
        let op = match compound_op_of(&self.op_token.value) {
            Some(op) => op,
            None => {
                let e = invalid_operation_error(&self.op_token);
                proof {
                    assert forall|replies: Seq<HostCall>| log1.is_prefix_of(replies) implies eval(
                        node,
                        before,
                        depth as nat,
                        replies,
                        log.len(),
                    ) == (Step { result: Err(e@), scopes: table@, next: log1.len(), faithful: true }) by {
                        lemma_eval(node, before, depth as nat, replies, log.len());
                    }
                }
                return (Err(e), Ghost(log1));
            },
        };
        let (sum, Ghost(log2)) = apply_arithmetic(op, &left_symbol, &right_symbol, host, Ghost(log1));
        let result = match sum {
            Ok(symbol) => {
                table.set(identifier_string, symbol);
                Ok(Symbol::new(SymbolType::Nothing, self.op_token.position))
            },
            Err(e) => Err(e),
        };
        proof {
            assert forall|replies: Seq<HostCall>| log2.is_prefix_of(replies) implies eval(
                node,
                before,
                depth as nat,
                replies,
                log.len(),
            ) == (Step { result: result_view(result), scopes: table@, next: log2.len(), faithful: true }) by {
                lemma_eval(node, before, depth as nat, replies, log.len());
                lemma_prefix_transitive(log1, log2, replies);
            }
        }
        (result, Ghost(log2))
    }
}

impl VarAccessNode {
    /// The view of the node that this is the payload of.
    pub open spec fn as_node(&self) -> NodeView {
        NodeView::VarAccess { identifier: self.identifier@ }
    }

    /// The use of a name.
    pub(crate) fn visit_logged<'a, H: Host>(
        &self,
        table: &mut SymbolTable<'a>,
        host: &mut H,
        depth: u32,
        Ghost(log): Ghost<Seq<HostCall>>,
    ) -> (out: (Result<Symbol, Error>, Ghost<Seq<HostCall>>))
        ensures
            evaluated(self.as_node(), old(table)@, depth as nat, log, out.0, final(table)@, out.1@),
    {
        let result = match get_name_as_string(&self.identifier) {
            Ok(name) => match table.get(&name) {
                Some(symbol) => Ok(symbol),
                None => Err(undefined_variable_error(&name, &self.identifier.position)),
            },
            Err(e) => Err(e),
        };
        proof {
            assert forall|replies: Seq<HostCall>| log.is_prefix_of(replies) implies eval(
                self.as_node(),
                table@,
                depth as nat,
                replies,
                log.len(),
            ) == (Step { result: result_view(result), scopes: table@, next: log.len(), faithful: true }) by {
                lemma_eval(self.as_node(), table@, depth as nat, replies, log.len());
            }
        }
        (result, Ghost(log))
    }
}

impl IfExprNode {
    /// The view of the node that this is the payload of.
    pub open spec fn as_node(&self) -> NodeView {
        NodeView::IfExpr {
            condition: Box::new(self.condition@),
            if_true: Box::new(self.if_true@),
            if_false: crate::parser::nodes::option_view(self.if_false),
        }
    }

    /// `if`: the condition must be an integer; every integer but 0 takes the
    /// first branch, 0 the `else`, and without an `else` the result is no
    /// value.
    pub(crate) fn visit_logged<'a, H: Host>(
        &self,
        table: &mut SymbolTable<'a>,
        host: &mut H,
        depth: u32,
        Ghost(log): Ghost<Seq<HostCall>>,
    ) -> (out: (Result<Symbol, Error>, Ghost<Seq<HostCall>>))
        ensures
            evaluated(self.as_node(), old(table)@, depth as nat, log, out.0, final(table)@, out.1@),
        decreases depth, self,
    {
        let ghost before = table@;
        let ghost node = self.as_node();
        let (condition, Ghost(log1)) = eval_node(&self.condition, table, host, depth, Ghost(log));
        let condition_symbol = match condition {
            Ok(symbol) => symbol,
            Err(e) => {
                proof {
                    assert forall|replies: Seq<HostCall>| log1.is_prefix_of(replies) implies eval(
                        node,
                        before,
                        depth as nat,
                        replies,
                        log.len(),
                    ) == (Step { result: Err(e@), scopes: table@, next: log1.len(), faithful: true }) by {
                        lemma_eval(node, before, depth as nat, replies, log.len());
                    }
                }
                return (Err(e), Ghost(log1));
            },
        };
        let (result, Ghost(log2)) = match condition_symbol.value {
            SymbolType::Integer(value) => {
                if value == 0 {
                    match &self.if_false {
                        Some(if_false) => eval_node(if_false, table, host, depth, Ghost(log1)),
                        None => (
                            Ok(Symbol::new(SymbolType::Nothing, self.condition.get_position())),
                            Ghost(log1),
                        ),
                    }
                } else {
                    eval_node(&self.if_true, table, host, depth, Ghost(log1))
                }
            },
            _ => (
                Err(
                    Error::new_runtime(
                        ErrorType::TypeError,
                        String::from_str("If statement condition must be an integer"),
                        &self.condition.get_position(),
                    ),
                ),
                Ghost(log1),
            ),
        };
        proof {
            assert forall|replies: Seq<HostCall>| log2.is_prefix_of(replies) implies eval(
                node,
                before,
                depth as nat,
                replies,
                log.len(),
            ) == (Step { result: result_view(result), scopes: table@, next: log2.len(), faithful: true }) by {
                lemma_eval(node, before, depth as nat, replies, log.len());
                lemma_prefix_transitive(log1, log2, replies);
            }
        }
        (result, Ghost(log2))
    }
}

impl FuncDefNode {
    /// The view of the node that this is the payload of.
    pub open spec fn as_node(&self) -> NodeView {
        NodeView::FuncDef {
            identifier: self.identifier@,
            parameters: token_views(self.parameters@),
            body: crate::parser::nodes::option_view(self.body),
        }
    }

    /// A function definition.
    pub(crate) fn visit_logged<'a, H: Host>(
        &self,
        table: &mut SymbolTable<'a>,
        host: &mut H,
        depth: u32,
        Ghost(log): Ghost<Seq<HostCall>>,
    ) -> (out: (Result<Symbol, Error>, Ghost<Seq<HostCall>>))
        ensures
            evaluated(self.as_node(), old(table)@, depth as nat, log, out.0, final(table)@, out.1@),
    {
        let ghost before = table@;
        let result = match get_name_as_string(&self.identifier) {
            Ok(identifier_string) => match string_parameters(&self.parameters) {
                Ok(names) => {
                    let body = match &self.body {
                        Some(node) => clone_node(node),
                        None => {
                            let empty = Node::StatementsNode(
                                Box::new(StatementsNode::new(Vec::new())),
                            );
                            proof {
                                lemma_view_children(empty);
                                assert(crate::parser::nodes::node_views(Seq::<Node>::empty())
                                    =~= Seq::<NodeView>::empty());
                            }
                            empty
                        },
                    };
                    let func_symbol = SymbolType::Function(
                        FunctionSymbol::new(identifier_string.clone(), names, body),
                    );
                    table.set(identifier_string, Symbol::new(func_symbol, self.identifier.position));
                    Ok(Symbol::new(SymbolType::Nothing, self.identifier.position))
                },
                Err(e) => Err(e),
            },
            Err(e) => Err(e),
        };
        proof {
            assert forall|replies: Seq<HostCall>| log.is_prefix_of(replies) implies eval(
                self.as_node(),
                before,
                depth as nat,
                replies,
                log.len(),
            ) == (Step { result: result_view(result), scopes: table@, next: log.len(), faithful: true }) by {
                lemma_eval(self.as_node(), before, depth as nat, replies, log.len());
            }
        }
        (result, Ghost(log))
    }
}

impl ListExprNode {
    /// The view of the node that this is the payload of.
    pub open spec fn as_node(&self) -> NodeView {
        NodeView::ListExpr { elements: crate::parser::nodes::node_views(self.elements@) }
    }

    /// A list: lists have no value yet, and evaluating one is a type error.
    pub(crate) fn visit_logged<'a, H: Host>(
        &self,
        table: &mut SymbolTable<'a>,
        host: &mut H,
        depth: u32,
        Ghost(log): Ghost<Seq<HostCall>>,
    ) -> (out: (Result<Symbol, Error>, Ghost<Seq<HostCall>>))
        ensures
            evaluated(self.as_node(), old(table)@, depth as nat, log, out.0, final(table)@, out.1@),
    {
        let position = if self.elements.len() > 0 {
            self.elements[0].get_position()
        } else {
            TokenPosition::internal()
        };
        let result = Err(
            Error::new_runtime(
                ErrorType::TypeError,
                String::from_str("List expressions are not supported"),
                &position,
            ),
        );
        proof {
            assert forall|replies: Seq<HostCall>| log.is_prefix_of(replies) implies eval(
                self.as_node(),
                table@,
                depth as nat,
                replies,
                log.len(),
            ) == (Step { result: result_view(result), scopes: table@, next: log.len(), faithful: true }) by {
                lemma_eval(self.as_node(), table@, depth as nat, replies, log.len());
            }
        }
        (result, Ghost(log))
    }
}

impl ReturnNode {
    /// The view of the node that this is the payload of.
    pub open spec fn as_node(&self) -> NodeView {
        NodeView::Return { returned: crate::parser::nodes::option_view(self.value) }
    }

    /// `return`: the value of its expression, or no value.
    pub(crate) fn visit_logged<'a, H: Host>(
        &self,
        table: &mut SymbolTable<'a>,
        host: &mut H,
        depth: u32,
        Ghost(log): Ghost<Seq<HostCall>>,
    ) -> (out: (Result<Symbol, Error>, Ghost<Seq<HostCall>>))
        ensures
            evaluated(self.as_node(), old(table)@, depth as nat, log, out.0, final(table)@, out.1@),
        decreases depth, self,
    {
        let ghost before = table@;
        let (result, Ghost(log1)) = match &self.value {
            Some(value) => eval_node(value, table, host, depth, Ghost(log)),
            None => (Ok(Symbol::new(SymbolType::Nothing, TokenPosition::internal())), Ghost(log)),
        };
        proof {
            assert forall|replies: Seq<HostCall>| log1.is_prefix_of(replies) implies eval(
                self.as_node(),
                before,
                depth as nat,
                replies,
                log.len(),
            ) == (Step { result: result_view(result), scopes: table@, next: log1.len(), faithful: true }) by {
                lemma_eval(self.as_node(), before, depth as nat, replies, log.len());
            }
        }
        (result, Ghost(log1))
    }
}

impl AssertNode {
    /// The view of the node that this is the payload of.
    pub open spec fn as_node(&self) -> NodeView {
        NodeView::Assert { condition: Box::new(self.condition@) }
    }

    /// `assert`: the value of the condition, where it is an integer other
    /// than 0; else an error at the condition.
    pub(crate) fn visit_logged<'a, H: Host>(
        &self,
        table: &mut SymbolTable<'a>,
        host: &mut H,
        depth: u32,
        Ghost(log): Ghost<Seq<HostCall>>,
    ) -> (out: (Result<Symbol, Error>, Ghost<Seq<HostCall>>))
        ensures
            evaluated(self.as_node(), old(table)@, depth as nat, log, out.0, final(table)@, out.1@),
        decreases depth, self,
    {
        let ghost before = table@;
        let (condition, Ghost(log1)) = eval_node(&self.condition, table, host, depth, Ghost(log));
        let result = match condition {
            Ok(condition_symbol) => {
                let passes = match condition_symbol.value {
                    SymbolType::Integer(value) => value != 0,
                    _ => false,
                };
                if passes {
                    Ok(condition_symbol)
                } else {
                    Err(
                        Error::new_runtime(
                            ErrorType::AssertError,
                            String::from_str("Assertion failed"),
                            &self.condition.get_position(),
                        ),
                    )
                }
            },
            Err(e) => Err(e),
        };
        proof {
            assert forall|replies: Seq<HostCall>| log1.is_prefix_of(replies) implies eval(
                self.as_node(),
                before,
                depth as nat,
                replies,
                log.len(),
            ) == (Step { result: result_view(result), scopes: table@, next: log1.len(), faithful: true }) by {
                lemma_eval(self.as_node(), before, depth as nat, replies, log.len());
            }
        }
        (result, Ghost(log1))
    }
}

impl ExecuteBuiltinNode {
    /// The view of the node that this is the payload of.
    pub open spec fn as_node(&self) -> NodeView {
        NodeView::ExecuteBuiltin {
            handle: self.handle,
            bound: match self.args {
                Some(a) => Some(crate::parser::nodes::node_views(a@)),
                None => None,
            },
        }
    }

    /// A function of the host: the host is called with the argument nodes
    /// in a fresh table that `table` encloses.
    pub(crate) fn visit_logged<'a, H: Host>(
        &self,
        table: &mut SymbolTable<'a>,
        host: &mut H,
        depth: u32,
        Ghost(log): Ghost<Seq<HostCall>>,
    ) -> (out: (Result<Symbol, Error>, Ghost<Seq<HostCall>>))
        ensures
            evaluated(self.as_node(), old(table)@, depth as nat, log, out.0, final(table)@, out.1@),
    {
        match &self.args {
            None => {
                let result = Err(
                    Error::new_runtime(
                        ErrorType::ArgumentError,
                        String::from_str("Arguments are not defined"),
                        &TokenPosition::internal(),
                    ),
                );
                proof {
                    assert forall|replies: Seq<HostCall>| log.is_prefix_of(replies) implies eval(
                        self.as_node(),
                        table@,
                        depth as nat,
                        replies,
                        log.len(),
                    ) == (Step { result: result_view(result), scopes: table@, next: log.len(), faithful: true }) by {
                        lemma_eval(self.as_node(), table@, depth as nat, replies, log.len());
                    }
                }
                (result, Ghost(log))
            },
            Some(args) => {
                if depth == 0 {
                    let result = Err(
                        Error::new_runtime(
                            ErrorType::Exception,
                            String::from_str("Maximum recursion depth exceeded"),
                            &TokenPosition::internal(),
                        ),
                    );
                    proof {
                        assert forall|replies: Seq<HostCall>| log.is_prefix_of(replies) implies eval(
                            self.as_node(),
                            table@,
                            depth as nat,
                            replies,
                            log.len(),
                        ) == (Step { result: result_view(result), scopes: table@, next: log.len(), faithful: true }) by {
                            lemma_eval(self.as_node(), table@, depth as nat, replies, log.len());
                        }
                    }
                    (result, Ghost(log))
                } else {
                    let mut inner = SymbolTable::new(Box::new(&*table));
                    let ghost handed = inner@;
                    let (result, Ghost(after)) = ask_native(
                        host,
                        self.handle,
                        &mut inner,
                        args,
                        depth - 1,
                        Ghost(log),
                    );
                    proof {
                        assert forall|replies: Seq<HostCall>| after.is_prefix_of(replies) implies eval(
                            self.as_node(),
                            table@,
                            depth as nat,
                            replies,
                            log.len(),
                        ) == (Step { result: result_view(result), scopes: table@, next: after.len(), faithful: true }) by {
                            lemma_eval(self.as_node(), table@, depth as nat, replies, log.len());
                            lemma_prefix_push(
                                log,
                                HostCall::Native {
                                    handle: self.handle,
                                    scopes: handed,
                                    args: crate::parser::nodes::node_views(args@),
                                    depth: (depth - 1) as nat,
                                    outcome: result_view(result),
                                },
                                replies,
                            );
                        }
                    }
                    (result, Ghost(after))
                }
            },
        }
    }
}

} // verus!
