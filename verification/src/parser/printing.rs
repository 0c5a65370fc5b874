//! Writing an expression as tokens, and the proof that parsing what was
//! written gives the expression back.
//!
//! An expression is written with as many parentheses as it takes for its
//! shape to be read off the tokens without regard to precedence: every
//! binary operator, `not`, `let`, `assert`, `if` and every call stands in
//! parentheses of its own.
use vstd::prelude::*;
use crate::errors::ErrorView;
use crate::lexer::tokens::{Keyword, TokenKind, TokenPosition, TokenView};
use crate::parser::grammar::{
    arithmetic, atom, binary, call, compare, expr, factor, if_expr, is_compare_op,
    is_compound_assign, is_logic_op, is_product_op, is_sum_op, items, lemma_arithmetic,
    lemma_arithmetic_rest, lemma_atom, lemma_braced, lemma_call, lemma_compare, lemma_compare_rest,
    lemma_expr, lemma_expr_rest, lemma_factor, lemma_if_expr, lemma_items, lemma_list_expr,
    lemma_statement, lemma_statements, lemma_statements_from, lemma_term, lemma_term_rest, program,
    statement, statements, term, unary, Parsed, ParsedList,
};
use crate::parser::nodes::NodeView;

verus! {

/// `^`.
pub open spec fn is_power_op(kind: TokenKind) -> bool {
    kind == TokenKind::Caret
}

/// The tokens between two operands.
pub open spec fn is_binary_op(kind: TokenKind) -> bool {
    is_power_op(kind) || is_product_op(kind) || is_sum_op(kind) || is_compare_op(kind)
        || is_logic_op(kind)
}

/// The tokens that end an expression: those that neither continue it as an
/// operator nor open the arguments of a call.
pub open spec fn ends_expression(kind: TokenKind) -> bool {
    !is_binary_op(kind) && kind != TokenKind::LeftParen
}

/// The tokens that begin neither a `let`, nor an `assert`, nor a `not`.
pub open spec fn begins_plain(kind: TokenKind) -> bool {
    kind != TokenKind::Keyword(Keyword::Let) && kind != TokenKind::Keyword(Keyword::Assert) && kind
        != TokenKind::Keyword(Keyword::Not)
}

/// The tokens that an expression begins with when it is written by
/// [`written`].
pub open spec fn begins_written(kind: TokenKind) -> bool {
    kind == TokenKind::LeftParen || kind == TokenKind::LeftSquare || kind == TokenKind::Plus
        || kind == TokenKind::Minus || kind is Integer || kind is Float || kind is String
        || kind is Identifier
}

/// The expressions that can be written as tokens: literals, names, unary
/// and binary operators, assignments, `assert`, `if`, calls and lists, with
/// the tokens of the kinds that the parser puts into them.
pub open spec fn writable(node: NodeView) -> bool
    decreases node, 0nat,
{
    match node {
        NodeView::Number { token } => token.value is Integer || token.value is Float,
        NodeView::Text { token } => token.value is String,
        NodeView::VarAccess { identifier } => identifier.value is Identifier,
        NodeView::BinOp { left, op, right } => is_binary_op(op.value) && writable(*left)
            && writable(*right),
        NodeView::UnaryOp { op, right } => (op.value == TokenKind::Plus || op.value
            == TokenKind::Minus || op.value == TokenKind::Keyword(Keyword::Not)) && writable(
            *right,
        ),
        NodeView::VarAssignment { identifier, value } => identifier.value is Identifier
            && writable(*value),
        NodeView::VarArithmeticAssignment { identifier, op, value } => identifier.value
            is Identifier && is_compound_assign(op.value) && writable(*value),
        NodeView::Assert { condition } => writable(*condition),
        NodeView::IfExpr { condition, if_true, if_false } => writable(*condition) && writable(
            *if_true,
        ) && match if_false {
            Some(other) => writable(*other),
            None => true,
        },
        NodeView::FuncCall { func_node, args } => writable(*func_node) && all_writable(args, 0),
        NodeView::ListExpr { elements } => all_writable(elements, 0),
        _ => false,
    }
}

/// Whether the nodes of a list from index `from` on can be written.
pub open spec fn all_writable(nodes: Seq<NodeView>, from: nat) -> bool
    decreases nodes, nodes.len() - from,
{
    if from >= nodes.len() {
        true
    } else {
        writable(nodes[from as int]) && all_writable(nodes, from + 1)
    }
}

/// The tokens that write an expression.
pub open spec fn written(node: NodeView) -> Seq<TokenKind>
    decreases node, 0nat,
{
    match node {
        NodeView::Number { token } => seq![token.value],
        NodeView::Text { token } => seq![token.value],
        NodeView::VarAccess { identifier } => seq![identifier.value],
        NodeView::BinOp { left, op, right } => seq![TokenKind::LeftParen] + written(*left) + seq![
            op.value,
        ] + written(*right) + seq![TokenKind::RightParen],
        NodeView::UnaryOp { op, right } => if op.value == TokenKind::Keyword(Keyword::Not) {
            seq![TokenKind::LeftParen, op.value] + written(*right) + seq![TokenKind::RightParen]
        } else {
            seq![op.value] + written(*right)
        },
        NodeView::VarAssignment { identifier, value } => seq![
            TokenKind::LeftParen,
            TokenKind::Keyword(Keyword::Let),
            identifier.value,
            TokenKind::Equal,
        ] + written(*value) + seq![TokenKind::RightParen],
        NodeView::VarArithmeticAssignment { identifier, op, value } => seq![
            TokenKind::LeftParen,
            TokenKind::Keyword(Keyword::Let),
            identifier.value,
            op.value,
        ] + written(*value) + seq![TokenKind::RightParen],
        NodeView::Assert { condition } => seq![
            TokenKind::LeftParen,
            TokenKind::Keyword(Keyword::Assert),
        ] + written(*condition) + seq![TokenKind::RightParen],
        NodeView::IfExpr { condition, if_true, if_false } => seq![
            TokenKind::LeftParen,
            TokenKind::Keyword(Keyword::If),
        ] + written(*condition) + seq![TokenKind::LeftBrace] + written(*if_true) + seq![
            TokenKind::RightBrace,
        ] + (match if_false {
            Some(other) => seq![TokenKind::Keyword(Keyword::Else), TokenKind::LeftBrace] + written(
                *other,
            ) + seq![TokenKind::RightBrace],
            None => Seq::empty(),
        }) + seq![TokenKind::RightParen],
        NodeView::FuncCall { func_node, args } => seq![TokenKind::LeftParen] + written(*func_node)
            + seq![TokenKind::LeftParen] + written_list(args, 0) + seq![
            TokenKind::RightParen,
            TokenKind::RightParen,
        ],
        NodeView::ListExpr { elements } => seq![TokenKind::LeftSquare] + written_list(elements, 0)
            + seq![TokenKind::RightSquare],
        NodeView::FuncDef { identifier, parameters, body } => seq![
            TokenKind::Keyword(Keyword::Func),
            identifier.value,
            TokenKind::LeftParen,
        ] + written_names(parameters, 0) + seq![TokenKind::RightParen, TokenKind::LeftBrace] + (
        match body {
            Some(b) => written(*b),
            None => Seq::empty(),
        }) + seq![TokenKind::RightBrace],
        NodeView::Statements { statements } => written_statements(statements, 0),
        NodeView::Return { returned } => match returned {
            Some(value) => seq![TokenKind::Keyword(Keyword::Return)] + written(*value),
            None => seq![TokenKind::Keyword(Keyword::Return)],
        },
        NodeView::ExecuteBuiltin { handle, bound } => Seq::empty(),
    }
}

/// The tokens that write the names of the parameters of a function from
/// index `from` on, with a comma between one and the next.
pub open spec fn written_names(names: Seq<TokenView>, from: nat) -> Seq<TokenKind>
    decreases names.len() - from,
{
    if from >= names.len() {
        Seq::empty()
    } else if from + 1 == names.len() {
        seq![names[from as int].value]
    } else {
        seq![names[from as int].value, TokenKind::Comma] + written_names(names, from + 1)
    }
}

/// The tokens that write the statements of a sequence from index `from`
/// on, each with its `;`.
pub open spec fn written_statements(nodes: Seq<NodeView>, from: nat) -> Seq<TokenKind>
    decreases nodes, nodes.len() - from,
{
    if from >= nodes.len() {
        Seq::empty()
    } else {
        written(nodes[from as int]) + seq![TokenKind::Semicolon] + written_statements(
            nodes,
            from + 1,
        )
    }
}

/// The tokens that write the expressions of a list from index `from` on,
/// with a comma between one and the next.
pub open spec fn written_list(nodes: Seq<NodeView>, from: nat) -> Seq<TokenKind>
    decreases nodes, nodes.len() - from,
{
    if from >= nodes.len() {
        Seq::empty()
    } else if from + 1 == nodes.len() {
        written(nodes[from as int])
    } else {
        written(nodes[from as int]) + seq![TokenKind::Comma] + written_list(nodes, from + 1)
    }
}

/// A token without its position.
pub open spec fn bare(token: TokenView) -> TokenView {
    TokenView { value: token.value, position: TokenPosition::internal() }
}

/// An expression without the positions of its tokens.
pub open spec fn shape(node: NodeView) -> NodeView
    decreases node, 0nat,
{
    match node {
        NodeView::Number { token } => NodeView::Number { token: bare(token) },
        NodeView::Text { token } => NodeView::Text { token: bare(token) },
        NodeView::VarAccess { identifier } => NodeView::VarAccess { identifier: bare(identifier) },
        NodeView::BinOp { left, op, right } => NodeView::BinOp {
            left: Box::new(shape(*left)),
            op: bare(op),
            right: Box::new(shape(*right)),
        },
        NodeView::UnaryOp { op, right } => NodeView::UnaryOp {
            op: bare(op),
            right: Box::new(shape(*right)),
        },
        NodeView::VarAssignment { identifier, value } => NodeView::VarAssignment {
            identifier: bare(identifier),
            value: Box::new(shape(*value)),
        },
        NodeView::VarArithmeticAssignment { identifier, op, value } => {
            NodeView::VarArithmeticAssignment {
                identifier: bare(identifier),
                op: bare(op),
                value: Box::new(shape(*value)),
            }
        },
        NodeView::Assert { condition } => NodeView::Assert { condition: Box::new(shape(*condition)) },
        NodeView::IfExpr { condition, if_true, if_false } => NodeView::IfExpr {
            condition: Box::new(shape(*condition)),
            if_true: Box::new(shape(*if_true)),
            if_false: match if_false {
                Some(other) => Some(Box::new(shape(*other))),
                None => None,
            },
        },
        NodeView::FuncCall { func_node, args } => NodeView::FuncCall {
            func_node: Box::new(shape(*func_node)),
            args: shapes(args, 0),
        },
        NodeView::ListExpr { elements } => NodeView::ListExpr { elements: shapes(elements, 0) },
        _ => node,
    }
}

/// The expressions of a list from index `from` on, without the positions of
/// their tokens.
pub open spec fn shapes(nodes: Seq<NodeView>, from: nat) -> Seq<NodeView>
    decreases nodes, nodes.len() - from,
{
    if from >= nodes.len() {
        Seq::empty()
    } else {
        seq![shape(nodes[from as int])] + shapes(nodes, from + 1)
    }
}

/// Whether the tokens from index `index` on are of the kinds `kinds`.
pub open spec fn shows(tokens: Seq<TokenView>, index: nat, kinds: Seq<TokenKind>) -> bool {
    &&& index + kinds.len() <= tokens.len()
    &&& forall|k: int| 0 <= k < kinds.len() ==> (#[trigger] tokens[index + k]).value == kinds[k]
}

/// Whether the token at `index` is there and ends an expression.
pub open spec fn ends_at(tokens: Seq<TokenView>, index: nat) -> bool {
    index < tokens.len() && ends_expression(tokens[index as int].value)
}

/// The tokens show two runs of kinds one behind the other where they show the
/// first and, behind it, the second.
pub proof fn lemma_shows_split(tokens: Seq<TokenView>, index: nat, a: Seq<TokenKind>, b: Seq<TokenKind>)
    ensures
        shows(tokens, index, a + b) <==> shows(tokens, index, a) && shows(
            tokens,
            index + a.len(),
            b,
        ),
{
    if shows(tokens, index, a + b) {
        assert forall|k: int| 0 <= k < a.len() implies (#[trigger] tokens[index + k]).value
            == a[k] by {
            assert((a + b)[k] == a[k]);
        }
        assert forall|k: int| 0 <= k < b.len() implies (#[trigger] tokens[index + a.len()
            + k]).value == b[k] by {
            assert((a + b)[a.len() + k] == b[k]);
            assert(tokens[index + (a.len() + k)].value == (a + b)[a.len() + k]);
        }
    }
    if shows(tokens, index, a) && shows(tokens, index + a.len(), b) {
        assert forall|k: int| 0 <= k < (a + b).len() implies (#[trigger] tokens[index + k]).value
            == (a + b)[k] by {
            if k < a.len() {
            } else {
                assert(tokens[index + a.len() + (k - a.len())].value == b[k - a.len()]);
            }
        }
    }
}

/// What is written is not empty, and begins with a token that begins an
/// atom and no other rule.
pub proof fn lemma_written_begins(node: NodeView)
    requires
        writable(node),
    ensures
        written(node).len() > 0,
        begins_written(written(node)[0]),
    decreases node,
{
    match node {
        NodeView::UnaryOp { op, right } => {
            lemma_written_begins(*right);
        },
        _ => {},
    }
}

/// An atom that a token follows which does not open the arguments of a call
/// is a call.
pub proof fn lemma_lift_call(tokens: Seq<TokenView>, index: nat, node: NodeView, next: nat)
    requires
        atom(tokens, index) == Ok::<(NodeView, nat), ErrorView>((node, next)),
        next < tokens.len(),
        tokens[next as int].value != TokenKind::LeftParen,
    ensures
        call(tokens, index) == Ok::<(NodeView, nat), ErrorView>((node, next)),
{
    lemma_call(tokens, index);
}

/// A call that no `^` follows is a factor.
pub proof fn lemma_lift_factor(tokens: Seq<TokenView>, index: nat, node: NodeView, next: nat)
    requires
        call(tokens, index) == Ok::<(NodeView, nat), ErrorView>((node, next)),
        next < tokens.len(),
        !is_power_op(tokens[next as int].value),
    ensures
        factor(tokens, index) == Ok::<(NodeView, nat), ErrorView>((node, next)),
{
    lemma_factor(tokens, index);
}

/// A factor that neither `*` nor `/` follows is a term.
pub proof fn lemma_lift_term(tokens: Seq<TokenView>, index: nat, node: NodeView, next: nat)
    requires
        factor(tokens, index) == Ok::<(NodeView, nat), ErrorView>((node, next)),
        index < next < tokens.len(),
        !is_product_op(tokens[next as int].value),
    ensures
        term(tokens, index) == Ok::<(NodeView, nat), ErrorView>((node, next)),
{
    lemma_term(tokens, index);
    lemma_term_rest(tokens, node, next);
}

/// A term that neither `+` nor `-` follows is an arithmetic expression.
pub proof fn lemma_lift_arithmetic(tokens: Seq<TokenView>, index: nat, node: NodeView, next: nat)
    requires
        term(tokens, index) == Ok::<(NodeView, nat), ErrorView>((node, next)),
        index < next < tokens.len(),
        !is_sum_op(tokens[next as int].value),
    ensures
        arithmetic(tokens, index) == Ok::<(NodeView, nat), ErrorView>((node, next)),
{
    lemma_arithmetic(tokens, index);
    lemma_arithmetic_rest(tokens, node, next);
}

/// An arithmetic expression that does not begin with `not` and that no
/// relational operator follows is a comparison.
pub proof fn lemma_lift_compare(tokens: Seq<TokenView>, index: nat, node: NodeView, next: nat)
    requires
        arithmetic(tokens, index) == Ok::<(NodeView, nat), ErrorView>((node, next)),
        index < next < tokens.len(),
        tokens[index as int].value != TokenKind::Keyword(Keyword::Not),
        !is_compare_op(tokens[next as int].value),
    ensures
        compare(tokens, index) == Ok::<(NodeView, nat), ErrorView>((node, next)),
{
    lemma_compare(tokens, index);
    lemma_compare_rest(tokens, node, next);
}

/// A comparison that begins with neither `let` nor `assert` and that
/// neither `and` nor `or` follows is an expression.
pub proof fn lemma_lift_expr(tokens: Seq<TokenView>, index: nat, node: NodeView, next: nat)
    requires
        compare(tokens, index) == Ok::<(NodeView, nat), ErrorView>((node, next)),
        index < next < tokens.len(),
        tokens[index as int].value != TokenKind::Keyword(Keyword::Let),
        tokens[index as int].value != TokenKind::Keyword(Keyword::Assert),
        !is_logic_op(tokens[next as int].value),
    ensures
        expr(tokens, index) == Ok::<(NodeView, nat), ErrorView>((node, next)),
{
    lemma_expr(tokens, index);
    lemma_expr_rest(tokens, node, next);
}

/// The levels of precedence, from the atom up to the expression.
pub enum Level {
    Atom,
    Call,
    Factor,
    Term,
    Arithmetic,
    Compare,
    Expr,
}

/// What the rule of a level gives.
pub open spec fn rule(level: Level, tokens: Seq<TokenView>, index: nat) -> Parsed {
    match level {
        Level::Atom => atom(tokens, index),
        Level::Call => call(tokens, index),
        Level::Factor => factor(tokens, index),
        Level::Term => term(tokens, index),
        Level::Arithmetic => arithmetic(tokens, index),
        Level::Compare => compare(tokens, index),
        Level::Expr => expr(tokens, index),
    }
}

/// The number of a level: a higher level binds less tightly.
pub open spec fn rank(level: Level) -> nat {
    match level {
        Level::Atom => 0,
        Level::Call => 1,
        Level::Factor => 2,
        Level::Term => 3,
        Level::Arithmetic => 4,
        Level::Compare => 5,
        Level::Expr => 6,
    }
}

/// The operators that the rule of a level, and of the levels below it,
/// takes up behind an operand.
pub open spec fn continues(level: Level, kind: TokenKind) -> bool {
    match level {
        Level::Atom => false,
        Level::Call => kind == TokenKind::LeftParen,
        Level::Factor => kind == TokenKind::LeftParen || is_power_op(kind),
        Level::Term => kind == TokenKind::LeftParen || is_power_op(kind) || is_product_op(kind),
        Level::Arithmetic => kind == TokenKind::LeftParen || is_power_op(kind) || is_product_op(kind)
            || is_sum_op(kind),
        Level::Compare => kind == TokenKind::LeftParen || is_power_op(kind) || is_product_op(kind)
            || is_sum_op(kind) || is_compare_op(kind),
        Level::Expr => kind == TokenKind::LeftParen || is_binary_op(kind),
    }
}

/// What the rule of a level gives is what the rule of every higher level
/// gives, where the tokens begin with neither `let`, `assert` nor `not` and
/// no token follows that the higher level would take up.
pub proof fn lemma_lift(
    from: Level,
    to: Level,
    tokens: Seq<TokenView>,
    index: nat,
    node: NodeView,
    next: nat,
)
    requires
        rank(from) <= rank(to),
        rule(from, tokens, index) == Ok::<(NodeView, nat), ErrorView>((node, next)),
        index < next < tokens.len(),
        begins_plain(tokens[index as int].value),
        !continues(to, tokens[next as int].value),
    ensures
        rule(to, tokens, index) == Ok::<(NodeView, nat), ErrorView>((node, next)),
    decreases rank(to) - rank(from),
{
    if rank(from) < rank(to) {
        match from {
            Level::Atom => {
                lemma_lift_call(tokens, index, node, next);
                lemma_lift(Level::Call, to, tokens, index, node, next);
            },
            Level::Call => {
                lemma_lift_factor(tokens, index, node, next);
                lemma_lift(Level::Factor, to, tokens, index, node, next);
            },
            Level::Factor => {
                lemma_lift_term(tokens, index, node, next);
                lemma_lift(Level::Term, to, tokens, index, node, next);
            },
            Level::Term => {
                lemma_lift_arithmetic(tokens, index, node, next);
                lemma_lift(Level::Arithmetic, to, tokens, index, node, next);
            },
            Level::Arithmetic => {
                lemma_lift_compare(tokens, index, node, next);
                lemma_lift(Level::Compare, to, tokens, index, node, next);
            },
            Level::Compare => {
                lemma_lift_expr(tokens, index, node, next);
            },
            Level::Expr => {},
        }
    }
}

/// The tokens show one kind at an index where the token at the index is of
/// that kind.
pub proof fn lemma_shows_one(tokens: Seq<TokenView>, index: nat, kind: TokenKind)
    ensures
        shows(tokens, index, seq![kind]) <==> index < tokens.len() && tokens[index as int].value
            == kind,
{
    if shows(tokens, index, seq![kind]) {
        assert(tokens[index as int + 0].value == seq![kind][0]);
    }
    if index < tokens.len() && tokens[index as int].value == kind {
        assert forall|k: int| 0 <= k < seq![kind].len() implies (#[trigger] tokens[index
            + k]).value == seq![kind][k] by {
            assert(k == 0);
        }
    }
}

/// Whether what `parsed` gives is an expression of the shape of `node`
/// that ends at index `next`.
pub open spec fn reads_as(parsed: Parsed, node: NodeView, next: nat) -> bool {
    parsed is Ok && parsed->Ok_0.1 == next && shape(parsed->Ok_0.0) == shape(node)
}

/// Whether what `parsed` gives are the expressions `found` and behind them
/// expressions of the shapes of `nodes` from index `from` on, and ends at
/// index `next`.
pub open spec fn reads_as_list(
    parsed: ParsedList,
    found: Seq<NodeView>,
    nodes: Seq<NodeView>,
    from: nat,
    next: nat,
) -> bool {
    &&& parsed is Ok
    &&& parsed->Ok_0.1 == next
    &&& parsed->Ok_0.0.len() == found.len() + nodes.len() - from
    &&& forall|k: int| 0 <= k < found.len() ==> (#[trigger] parsed->Ok_0.0[k]) == found[k]
    &&& forall|k: int|
        0 <= k < nodes.len() - from ==> shape(#[trigger] parsed->Ok_0.0[found.len() + k]) == shape(
            nodes[from + k],
        )
}

/// Lists of expressions of the same shapes, one for one, have the same
/// shapes.
pub proof fn lemma_shapes_alike(a: Seq<NodeView>, b: Seq<NodeView>, from: nat)
    requires
        a.len() == b.len(),
        forall|k: int| 0 <= k < a.len() ==> shape(#[trigger] a[k]) == shape(b[k]),
    ensures
        shapes(a, from) == shapes(b, from),
    decreases a.len() - from,
{
    if from < a.len() {
        lemma_shapes_alike(a, b, from + 1);
    }
}

/// Parsing what writes an expression gives an expression of the same shape
/// and ends behind what was written: at the level of the atom, and at every
/// higher level at which the token that follows is not taken up.
pub proof fn lemma_written_parses(node: NodeView, level: Level, tokens: Seq<TokenView>, index: nat)
    requires
        writable(node),
        shows(tokens, index, written(node)),
        level != Level::Atom ==> index + written(node).len() < tokens.len() && !continues(
            level,
            tokens[(index + written(node).len()) as int].value,
        ),
    ensures
        reads_as(rule(level, tokens, index), node, index + written(node).len()),
    decreases node, 2nat,
{
    lemma_written_atom(node, tokens, index);
    lemma_written_begins(node);
    if level != Level::Atom {
        let parsed = atom(tokens, index)->Ok_0.0;
        assert(tokens[index as int + 0].value == written(node)[0]);
        lemma_lift(Level::Atom, level, tokens, index, parsed, index + written(node).len());
    }
}

/// Parsing what writes an expression as an atom.
pub proof fn lemma_written_atom(node: NodeView, tokens: Seq<TokenView>, index: nat)
    requires
        writable(node),
        shows(tokens, index, written(node)),
    ensures
        reads_as(atom(tokens, index), node, index + written(node).len()),
    decreases node, 1nat,
{
    match node {
        NodeView::Number { token } => {
            lemma_atom(tokens, index);
            lemma_shows_one(tokens, index, token.value);
        },
        NodeView::Text { token } => {
            lemma_atom(tokens, index);
            lemma_shows_one(tokens, index, token.value);
        },
        NodeView::VarAccess { identifier } => {
            lemma_atom(tokens, index);
            lemma_shows_one(tokens, index, identifier.value);
        },
        NodeView::UnaryOp { op, right } => {
            lemma_written_unary(node, tokens, index);
        },
        NodeView::BinOp { left, op, right } => {
            lemma_written_binary(node, tokens, index);
        },
        NodeView::VarAssignment { identifier, value } => {
            lemma_written_assignment(node, tokens, index);
        },
        NodeView::VarArithmeticAssignment { identifier, op, value } => {
            lemma_written_compound(node, tokens, index);
        },
        NodeView::Assert { condition } => {
            lemma_written_assert(node, tokens, index);
        },
        NodeView::IfExpr { condition, if_true, if_false } => {
            lemma_written_if(node, tokens, index);
        },
        NodeView::FuncCall { func_node, args } => {
            lemma_written_call(node, tokens, index);
        },
        NodeView::ListExpr { elements } => {
            lemma_written_brackets(node, tokens, index);
        },
        _ => {},
    }
}

/// Parsing what writes a unary operator with its operand.
pub proof fn lemma_written_unary(node: NodeView, tokens: Seq<TokenView>, index: nat)
    requires
        node is UnaryOp,
        writable(node),
        shows(tokens, index, written(node)),
    ensures
        reads_as(atom(tokens, index), node, index + written(node).len()),
    decreases node, 0nat,
{
    lemma_atom(tokens, index);
    match node {
        NodeView::UnaryOp { op, right } => {
            if op.value == TokenKind::Keyword(Keyword::Not) {
                let inner = written(*right);
                let a = index + 2;
                let k = a + inner.len();
                lemma_shows_split(
                    tokens,
                    index,
                    seq![TokenKind::LeftParen, op.value] + inner,
                    seq![TokenKind::RightParen],
                );
                lemma_shows_split(tokens, index, seq![TokenKind::LeftParen, op.value], inner);
                lemma_shows_one(tokens, k as nat, TokenKind::RightParen);
                assert(tokens[index as int + 0].value == seq![TokenKind::LeftParen, op.value][0]);
                assert(tokens[index as int + 1].value == seq![TokenKind::LeftParen, op.value][1]);
                lemma_written_parses(*right, Level::Compare, tokens, a as nat);
                lemma_compare(tokens, index + 1);
                let parsed = compare(tokens, index + 1)->Ok_0.0;
                lemma_lift_expr(tokens, index + 1, parsed, k as nat);
            } else {
                lemma_shows_split(tokens, index, seq![op.value], written(*right));
                lemma_shows_one(tokens, index, op.value);
                lemma_written_atom(*right, tokens, index + 1);
            }
        },
        _ => {},
    }
}

/// Parsing what writes a binary operator with its operands.
pub proof fn lemma_written_binary(node: NodeView, tokens: Seq<TokenView>, index: nat)
    requires
        node is BinOp,
        writable(node),
        shows(tokens, index, written(node)),
    ensures
        reads_as(atom(tokens, index), node, index + written(node).len()),
    decreases node, 0nat,
{
    lemma_atom(tokens, index);
    match node {
        NodeView::BinOp { left, op, right } => {
            let wl = written(*left);
            let wr = written(*right);
            let a = index + 1;
            let j = a + wl.len();
            let b = j + 1;
            let k = b + wr.len();
            lemma_shows_split(
                tokens,
                index,
                seq![TokenKind::LeftParen] + wl + seq![op.value] + wr,
                seq![TokenKind::RightParen],
            );
            lemma_shows_split(tokens, index, seq![TokenKind::LeftParen] + wl + seq![op.value], wr);
            lemma_shows_split(tokens, index, seq![TokenKind::LeftParen] + wl, seq![op.value]);
            lemma_shows_split(tokens, index, seq![TokenKind::LeftParen], wl);
            lemma_shows_one(tokens, index, TokenKind::LeftParen);
            lemma_shows_one(tokens, j as nat, op.value);
            lemma_shows_one(tokens, k as nat, TokenKind::RightParen);
            lemma_written_begins(*left);
            lemma_written_begins(*right);
            assert(tokens[a as int + 0].value == wl[0]);
            assert(tokens[b as int + 0].value == wr[0]);
            let operator = tokens[j as int];
            if is_power_op(op.value) {
                lemma_written_parses(*left, Level::Call, tokens, a as nat);
                lemma_written_parses(*right, Level::Factor, tokens, b as nat);
                lemma_factor(tokens, a as nat);
                let l = call(tokens, a as nat)->Ok_0.0;
                let r = factor(tokens, b as nat)->Ok_0.0;
                lemma_lift(Level::Factor, Level::Expr, tokens, a as nat, binary(l, operator, r), k as nat);
            } else if is_product_op(op.value) {
                lemma_written_parses(*left, Level::Factor, tokens, a as nat);
                lemma_written_parses(*right, Level::Factor, tokens, b as nat);
                let l = factor(tokens, a as nat)->Ok_0.0;
                let r = factor(tokens, b as nat)->Ok_0.0;
                lemma_term(tokens, a as nat);
                lemma_term_rest(tokens, l, j as nat);
                lemma_term_rest(tokens, binary(l, operator, r), k as nat);
                lemma_lift(Level::Term, Level::Expr, tokens, a as nat, binary(l, operator, r), k as nat);
            } else if is_sum_op(op.value) {
                lemma_written_parses(*left, Level::Term, tokens, a as nat);
                lemma_written_parses(*right, Level::Term, tokens, b as nat);
                let l = term(tokens, a as nat)->Ok_0.0;
                let r = term(tokens, b as nat)->Ok_0.0;
                lemma_arithmetic(tokens, a as nat);
                lemma_arithmetic_rest(tokens, l, j as nat);
                lemma_arithmetic_rest(tokens, binary(l, operator, r), k as nat);
                lemma_lift(
                    Level::Arithmetic,
                    Level::Expr,
                    tokens,
                    a as nat,
                    binary(l, operator, r),
                    k as nat,
                );
            } else if is_compare_op(op.value) {
                lemma_written_parses(*left, Level::Arithmetic, tokens, a as nat);
                lemma_written_parses(*right, Level::Arithmetic, tokens, b as nat);
                let l = arithmetic(tokens, a as nat)->Ok_0.0;
                let r = arithmetic(tokens, b as nat)->Ok_0.0;
                lemma_compare(tokens, a as nat);
                lemma_compare_rest(tokens, l, j as nat);
                lemma_compare_rest(tokens, binary(l, operator, r), k as nat);
                lemma_lift(
                    Level::Compare,
                    Level::Expr,
                    tokens,
                    a as nat,
                    binary(l, operator, r),
                    k as nat,
                );
            } else {
                lemma_written_parses(*left, Level::Compare, tokens, a as nat);
                lemma_written_parses(*right, Level::Compare, tokens, b as nat);
                let l = compare(tokens, a as nat)->Ok_0.0;
                let r = compare(tokens, b as nat)->Ok_0.0;
                lemma_expr(tokens, a as nat);
                lemma_expr_rest(tokens, l, j as nat);
                lemma_expr_rest(tokens, binary(l, operator, r), k as nat);
            }
        },
        _ => {},
    }
}

/// Parsing what writes a `let`.
pub proof fn lemma_written_assignment(node: NodeView, tokens: Seq<TokenView>, index: nat)
    requires
        node is VarAssignment,
        writable(node),
        shows(tokens, index, written(node)),
    ensures
        reads_as(atom(tokens, index), node, index + written(node).len()),
    decreases node, 0nat,
{
    lemma_atom(tokens, index);
    match node {
        NodeView::VarAssignment { identifier, value } => {
            let head = seq![
                TokenKind::LeftParen,
                TokenKind::Keyword(Keyword::Let),
                identifier.value,
                TokenKind::Equal,
            ];
            let inner = written(*value);
            let a = index + 4;
            let k = a + inner.len();
            lemma_shows_split(tokens, index, head + inner, seq![TokenKind::RightParen]);
            lemma_shows_split(tokens, index, head, inner);
            lemma_shows_one(tokens, k as nat, TokenKind::RightParen);
            assert(tokens[index as int + 0].value == head[0]);
            assert(tokens[index as int + 1].value == head[1]);
            assert(tokens[index as int + 2].value == head[2]);
            assert(tokens[index as int + 3].value == head[3]);
            lemma_written_parses(*value, Level::Expr, tokens, a as nat);
            lemma_expr(tokens, index + 1);
        },
        _ => {},
    }
}

/// Parsing what writes a `let` with a compound operator.
pub proof fn lemma_written_compound(node: NodeView, tokens: Seq<TokenView>, index: nat)
    requires
        node is VarArithmeticAssignment,
        writable(node),
        shows(tokens, index, written(node)),
    ensures
        reads_as(atom(tokens, index), node, index + written(node).len()),
    decreases node, 0nat,
{
    lemma_atom(tokens, index);
    match node {
        NodeView::VarArithmeticAssignment { identifier, op, value } => {
            let head = seq![
                TokenKind::LeftParen,
                TokenKind::Keyword(Keyword::Let),
                identifier.value,
                op.value,
            ];
            let inner = written(*value);
            let a = index + 4;
            let k = a + inner.len();
            lemma_shows_split(tokens, index, head + inner, seq![TokenKind::RightParen]);
            lemma_shows_split(tokens, index, head, inner);
            lemma_shows_one(tokens, k as nat, TokenKind::RightParen);
            assert(tokens[index as int + 0].value == head[0]);
            assert(tokens[index as int + 1].value == head[1]);
            assert(tokens[index as int + 2].value == head[2]);
            assert(tokens[index as int + 3].value == head[3]);
            lemma_written_parses(*value, Level::Expr, tokens, a as nat);
            lemma_expr(tokens, index + 1);
        },
        _ => {},
    }
}

/// Parsing what writes an `assert`.
pub proof fn lemma_written_assert(node: NodeView, tokens: Seq<TokenView>, index: nat)
    requires
        node is Assert,
        writable(node),
        shows(tokens, index, written(node)),
    ensures
        reads_as(atom(tokens, index), node, index + written(node).len()),
    decreases node, 0nat,
{
    lemma_atom(tokens, index);
    match node {
        NodeView::Assert { condition } => {
            let head = seq![TokenKind::LeftParen, TokenKind::Keyword(Keyword::Assert)];
            let inner = written(*condition);
            let a = index + 2;
            let k = a + inner.len();
            lemma_shows_split(tokens, index, head + inner, seq![TokenKind::RightParen]);
            lemma_shows_split(tokens, index, head, inner);
            lemma_shows_one(tokens, k as nat, TokenKind::RightParen);
            assert(tokens[index as int + 0].value == head[0]);
            assert(tokens[index as int + 1].value == head[1]);
            lemma_written_parses(*condition, Level::Expr, tokens, a as nat);
            lemma_expr(tokens, index + 1);
        },
        _ => {},
    }
}

/// Parsing what writes a call.
pub proof fn lemma_written_call(node: NodeView, tokens: Seq<TokenView>, index: nat)
    requires
        node is FuncCall,
        writable(node),
        shows(tokens, index, written(node)),
    ensures
        reads_as(atom(tokens, index), node, index + written(node).len()),
    decreases node, 0nat,
{
    lemma_atom(tokens, index);
    match node {
        NodeView::FuncCall { func_node, args } => {
            let wf = written(*func_node);
            let wa = written_list(args, 0);
            let a = index + 1;
            let j = a + wf.len();
            let c = j + 1 + wa.len();
            let tail = seq![TokenKind::RightParen, TokenKind::RightParen];
            lemma_shows_split(
                tokens,
                index,
                seq![TokenKind::LeftParen] + wf + seq![TokenKind::LeftParen] + wa,
                tail,
            );
            lemma_shows_split(
                tokens,
                index,
                seq![TokenKind::LeftParen] + wf + seq![TokenKind::LeftParen],
                wa,
            );
            lemma_shows_split(
                tokens,
                index,
                seq![TokenKind::LeftParen] + wf,
                seq![TokenKind::LeftParen],
            );
            lemma_shows_split(tokens, index, seq![TokenKind::LeftParen], wf);
            lemma_shows_one(tokens, index, TokenKind::LeftParen);
            lemma_shows_one(tokens, j as nat, TokenKind::LeftParen);
            assert(tokens[c as int + 0].value == tail[0]);
            assert(tokens[c as int + 1].value == tail[1]);
            lemma_shows_one(tokens, c as nat, TokenKind::RightParen);
            lemma_shows_split(tokens, (j + 1) as nat, wa, seq![TokenKind::RightParen]);
            lemma_written_begins(*func_node);
            assert(tokens[a as int + 0].value == wf[0]);
            lemma_written_atom(*func_node, tokens, a as nat);
            lemma_written_list(
                args,
                0,
                tokens,
                (j + 1) as nat,
                TokenKind::RightParen,
                Seq::empty(),
            );
            lemma_call(tokens, a as nat);
            let callee = atom(tokens, a as nat)->Ok_0.0;
            let found = items(tokens, (j + 1) as nat, TokenKind::RightParen, Seq::empty())->Ok_0.0;
            let parsed = NodeView::FuncCall { func_node: Box::new(callee), args: found };
            assert(call(tokens, a as nat) == Ok::<(NodeView, nat), ErrorView>((parsed, (c + 1) as nat)));
            lemma_lift(Level::Call, Level::Expr, tokens, a as nat, parsed, (c + 1) as nat);
            assert forall|k: int| 0 <= k < found.len() implies shape(#[trigger] found[k]) == shape(
                args[k],
            ) by {
                assert(shape(found[0 + k]) == shape(args[0 + k]));
            }
            lemma_shapes_alike(found, args, 0);
        },
        _ => {},
    }
}

/// Parsing what writes a list.
pub proof fn lemma_written_brackets(node: NodeView, tokens: Seq<TokenView>, index: nat)
    requires
        node is ListExpr,
        writable(node),
        shows(tokens, index, written(node)),
    ensures
        reads_as(atom(tokens, index), node, index + written(node).len()),
    decreases node, 0nat,
{
    lemma_atom(tokens, index);
    match node {
        NodeView::ListExpr { elements } => {
            let we = written_list(elements, 0);
            let c = index + 1 + we.len();
            lemma_shows_split(
                tokens,
                index,
                seq![TokenKind::LeftSquare] + we,
                seq![TokenKind::RightSquare],
            );
            lemma_shows_split(tokens, index, seq![TokenKind::LeftSquare], we);
            lemma_shows_one(tokens, index, TokenKind::LeftSquare);
            lemma_shows_split(tokens, index + 1, we, seq![TokenKind::RightSquare]);
            lemma_written_list(elements, 0, tokens, index + 1, TokenKind::RightSquare, Seq::empty());
            lemma_list_expr(tokens, index + 1);
            let found = items(tokens, index + 1, TokenKind::RightSquare, Seq::empty())->Ok_0.0;
            assert forall|k: int| 0 <= k < found.len() implies shape(#[trigger] found[k]) == shape(
                elements[k],
            ) by {
                assert(shape(found[0 + k]) == shape(elements[0 + k]));
            }
            lemma_shapes_alike(found, elements, 0);
        },
        _ => {},
    }
}

/// Parsing what writes an `if`.
pub proof fn lemma_written_if(node: NodeView, tokens: Seq<TokenView>, index: nat)
    requires
        node is IfExpr,
        writable(node),
        shows(tokens, index, written(node)),
    ensures
        reads_as(atom(tokens, index), node, index + written(node).len()),
    decreases node, 0nat,
{
    match node {
        NodeView::IfExpr { condition, if_true, if_false } => {
            let head = seq![TokenKind::LeftParen, TokenKind::Keyword(Keyword::If)];
            let wc = written(*condition);
            let wt = written(*if_true);
            let we = match if_false {
                Some(other) => seq![TokenKind::Keyword(Keyword::Else), TokenKind::LeftBrace]
                    + written(*other) + seq![TokenKind::RightBrace],
                None => Seq::empty(),
            };
            let a = index + 2;
            let j1 = a + wc.len();
            let b = j1 + 1;
            let j2 = b + wt.len();
            let end = j2 + 1;
            let m = end + we.len();
            lemma_shows_split(
                tokens,
                index,
                head + wc + seq![TokenKind::LeftBrace] + wt + seq![TokenKind::RightBrace] + we,
                seq![TokenKind::RightParen],
            );
            lemma_shows_split(
                tokens,
                index,
                head + wc + seq![TokenKind::LeftBrace] + wt + seq![TokenKind::RightBrace],
                we,
            );
            lemma_shows_split(
                tokens,
                index,
                head + wc + seq![TokenKind::LeftBrace] + wt,
                seq![TokenKind::RightBrace],
            );
            lemma_shows_split(tokens, index, head + wc + seq![TokenKind::LeftBrace], wt);
            lemma_shows_split(tokens, index, head + wc, seq![TokenKind::LeftBrace]);
            lemma_shows_split(tokens, index, head, wc);
            assert(tokens[index as int + 0].value == head[0]);
            assert(tokens[index as int + 1].value == head[1]);
            lemma_shows_one(tokens, j1 as nat, TokenKind::LeftBrace);
            lemma_shows_one(tokens, j2 as nat, TokenKind::RightBrace);
            lemma_shows_one(tokens, m as nat, TokenKind::RightParen);
            lemma_written_begins(*condition);
            lemma_written_begins(*if_true);
            lemma_written_parses(*condition, Level::Expr, tokens, a as nat);
            lemma_written_parses(*if_true, Level::Expr, tokens, b as nat);
            lemma_if_expr(tokens, a as nat);
            lemma_braced(tokens, j1 as nat);
            let c = expr(tokens, a as nat)->Ok_0.0;
            let t = expr(tokens, b as nat)->Ok_0.0;
            match if_false {
                Some(other) => {
                    let wo = written(*other);
                    let e = end + 2;
                    let j3 = e + wo.len();
                    lemma_shows_split(
                        tokens,
                        end as nat,
                        seq![TokenKind::Keyword(Keyword::Else), TokenKind::LeftBrace] + wo,
                        seq![TokenKind::RightBrace],
                    );
                    lemma_shows_split(
                        tokens,
                        end as nat,
                        seq![TokenKind::Keyword(Keyword::Else), TokenKind::LeftBrace],
                        wo,
                    );
                    assert(tokens[end as int + 0].value == seq![
                        TokenKind::Keyword(Keyword::Else),
                        TokenKind::LeftBrace,
                    ][0]);
                    assert(tokens[end as int + 1].value == seq![
                        TokenKind::Keyword(Keyword::Else),
                        TokenKind::LeftBrace,
                    ][1]);
                    lemma_shows_one(tokens, j3 as nat, TokenKind::RightBrace);
                    lemma_written_parses(*other, Level::Expr, tokens, e as nat);
                    lemma_braced(tokens, (end + 1) as nat);
                    let f = expr(tokens, e as nat)->Ok_0.0;
                    let parsed = NodeView::IfExpr {
                        condition: Box::new(c),
                        if_true: Box::new(t),
                        if_false: Some(Box::new(f)),
                    };
                    assert(if_expr(tokens, a as nat) == Ok::<(NodeView, nat), ErrorView>(
                        (parsed, m as nat),
                    ));
                    lemma_atom(tokens, index + 1);
                    lemma_lift(Level::Atom, Level::Expr, tokens, index + 1, parsed, m as nat);
                },
                None => {
                    let parsed = NodeView::IfExpr {
                        condition: Box::new(c),
                        if_true: Box::new(t),
                        if_false: None,
                    };
                    assert(if_expr(tokens, a as nat) == Ok::<(NodeView, nat), ErrorView>(
                        (parsed, m as nat),
                    ));
                    lemma_atom(tokens, index + 1);
                    lemma_lift(Level::Atom, Level::Expr, tokens, index + 1, parsed, m as nat);
                },
            }
            lemma_atom(tokens, index);
        },
        _ => {},
    }
}

/// Parsing what writes the expressions of a list up to the token that
/// closes the list.
pub proof fn lemma_written_list(
    nodes: Seq<NodeView>,
    from: nat,
    tokens: Seq<TokenView>,
    index: nat,
    close: TokenKind,
    found: Seq<NodeView>,
)
    requires
        from <= nodes.len(),
        all_writable(nodes, from),
        close == TokenKind::RightParen || close == TokenKind::RightSquare,
        shows(tokens, index, written_list(nodes, from)),
        shows(tokens, index + written_list(nodes, from).len(), seq![close]),
    ensures
        reads_as_list(
            items(tokens, index, close, found),
            found,
            nodes,
            from,
            index + written_list(nodes, from).len(),
        ),
    decreases nodes, nodes.len() - from,
{
    lemma_items(tokens, index, close, found);
    let all = written_list(nodes, from);
    lemma_shows_one(tokens, index + all.len(), close);
    if from < nodes.len() {
        let first = nodes[from as int];
        let wf = written(first);
        lemma_written_begins(first);
        let j = index + wf.len();
        if from + 1 == nodes.len() {
            assert(tokens[index as int + 0].value == wf[0]);
            lemma_written_parses(first, Level::Expr, tokens, index);
            let item = expr(tokens, index)->Ok_0.0;
            lemma_written_list(nodes, from + 1, tokens, j as nat, close, found.push(item));
            let parsed = items(tokens, index, close, found)->Ok_0.0;
            assert forall|k: int| 0 <= k < nodes.len() - from implies shape(
                #[trigger] parsed[found.len() + k],
            ) == shape(nodes[from + k]) by {
                assert(k == 0);
                assert(parsed[found.len() as int] == found.push(item)[found.len() as int]);
            }
            assert forall|k: int| 0 <= k < found.len() implies (#[trigger] parsed[k])
                == found[k] by {
                assert(parsed[k] == found.push(item)[k]);
            }
        } else {
            let rest = written_list(nodes, from + 1);
            lemma_shows_split(tokens, index, wf + seq![TokenKind::Comma], rest);
            lemma_shows_split(tokens, index, wf, seq![TokenKind::Comma]);
            lemma_shows_one(tokens, j as nat, TokenKind::Comma);
            assert(tokens[index as int + 0].value == wf[0]);
            lemma_written_parses(first, Level::Expr, tokens, index);
            let item = expr(tokens, index)->Ok_0.0;
            lemma_written_list(nodes, from + 1, tokens, (j + 1) as nat, close, found.push(item));
            let parsed = items(tokens, index, close, found)->Ok_0.0;
            assert forall|k: int| 0 <= k < nodes.len() - from implies shape(
                #[trigger] parsed[found.len() + k],
            ) == shape(nodes[from + k]) by {
                if k == 0 {
                    assert(parsed[found.len() as int] == found.push(item)[found.len() as int]);
                } else {
                    assert(shape(parsed[found.push(item).len() + (k - 1)]) == shape(
                        nodes[from + 1 + (k - 1)],
                    ));
                }
            }
            assert forall|k: int| 0 <= k < found.len() implies (#[trigger] parsed[k])
                == found[k] by {
                assert(parsed[k] == found.push(item)[k]);
            }
        }
    }
}

/// The round trip of an expression through its tokens.
///
/// Where the tokens are those that write an expression, then `;` and the
/// end marker, the parser gives a program of one statement, and the
/// statement is an expression of the same shape: the same tree, but for the
/// positions of its tokens.
pub proof fn lemma_round_trip(node: NodeView, tokens: Seq<TokenView>)
    requires
        writable(node),
        tokens.len() == written(node).len() + 2,
        shows(tokens, 0, written(node) + seq![TokenKind::Semicolon, TokenKind::EOF]),
    ensures
        program(tokens) is Ok,
        program(tokens)->Ok_0 is Statements,
        program(tokens)->Ok_0->statements.len() == 1,
        shape(program(tokens)->Ok_0->statements[0]) == shape(node),
{
    let n = written(node).len();
    let tail = seq![TokenKind::Semicolon, TokenKind::EOF];
    lemma_shows_split(tokens, 0, written(node), tail);
    assert(tokens[n as int + 0].value == tail[0]);
    assert(tokens[n as int + 1].value == tail[1]);
    lemma_written_begins(node);
    assert(tokens[0int + 0].value == written(node)[0]);
    lemma_written_parses(node, Level::Expr, tokens, 0);
    let parsed = expr(tokens, 0)->Ok_0.0;
    lemma_statements(tokens, 0);
    lemma_statements_from(tokens, 0, Seq::empty());
    lemma_statement(tokens, 0);
    lemma_statements_from(tokens, n + 1, Seq::<NodeView>::empty().push(parsed));
    assert(statements(tokens, 0) == Ok::<(NodeView, nat), ErrorView>(
        (NodeView::Statements { statements: Seq::<NodeView>::empty().push(parsed) }, n + 1),
    ));
}

} // verus!
