//! The syntax tree: one kind of node for every construct of the language.
use vstd::prelude::*;
use crate::lexer::tokens::{token_views, Token, TokenPosition, TokenView};

verus! {

broadcast use vstd::std_specs::vec::group_vec_axioms;

/// A node of the syntax tree.
#[derive(Debug, PartialEq)]
pub enum Node {
    NumberNode(Box<NumberNode>),
    StringNode(Box<StringNode>),
    BinOpNode(Box<BinOpNode>),
    UnaryOpNode(Box<UnaryOpNode>),
    VarAssignmentNode(Box<VarAssignmentNode>),
    VarArithmeticAssignmentNode(Box<VarArithmeticAssignmentNode>),
    VarAccessNode(Box<VarAccessNode>),
    IfExprNode(Box<IfExprNode>),
    FuncDefNode(Box<FuncDefNode>),
    FuncCallNode(Box<FuncCallNode>),
    ListExprNode(Box<ListExprNode>),
    StatementsNode(Box<StatementsNode>),
    ReturnNode(Box<ReturnNode>),
    AssertNode(Box<AssertNode>),
    ExecuteBuiltinNode(Box<ExecuteBuiltinNode>),
}

/// A sequence of statements: a whole program, or the body of a function.
#[derive(Debug, Clone, PartialEq)]
pub struct StatementsNode {
    pub statements: Vec<Node>,
}

/// A number literal, integer or float.
#[derive(Debug, Clone, PartialEq)]
pub struct NumberNode {
    pub token: Token,
}

/// A string literal.
#[derive(Debug, Clone, PartialEq)]
pub struct StringNode {
    pub token: Token,
}

/// An operator in front of its operand.
#[derive(Debug, Clone, PartialEq)]
pub struct UnaryOpNode {
    pub token: Token,
    pub right: Node,
}

/// An operator between its two operands.
#[derive(Debug, Clone, PartialEq)]
pub struct BinOpNode {
    pub left_node: Node,
    pub op_token: Token,
    pub right_node: Node,
}

/// `let name = value`.
#[derive(Debug, Clone, PartialEq)]
pub struct VarAssignmentNode {
    pub identifier: Token,
    pub value: Node,
}

/// `let name += value`, and the same with `-=`, `*=` and `/=`.
#[derive(Debug, Clone, PartialEq)]
pub struct VarArithmeticAssignmentNode {
    pub identifier: Token,
    pub op_token: Token,
    pub value: Node,
}

/// The use of a name.
#[derive(Debug, Clone, PartialEq)]
pub struct VarAccessNode {
    pub identifier: Token,
}

/// `if condition { if_true } else { if_false }`, the `else` being optional.
#[derive(Debug, Clone, PartialEq)]
pub struct IfExprNode {
    pub condition: Node,
    pub if_true: Node,
    pub if_false: Option<Node>,
}

/// `func name(parameters) { body }`, the body being optional.
#[derive(Debug, Clone, PartialEq)]
pub struct FuncDefNode {
    pub identifier: Token,
    pub parameters: Vec<Token>,
    pub body: Option<Node>,
}

/// A call: what is called, and the arguments.
#[derive(Debug, Clone, PartialEq)]
pub struct FuncCallNode {
    pub func_node: Node,
    pub args: Vec<Node>,
}

/// `[element, element, ...]`.
#[derive(Debug, Clone, PartialEq)]
pub struct ListExprNode {
    pub elements: Vec<Node>,
}

/// `return`, with or without a value.
#[derive(Debug, Clone, PartialEq)]
pub struct ReturnNode {
    pub value: Option<Node>,
}

/// `assert condition`.
#[derive(Debug, Clone, PartialEq)]
pub struct AssertNode {
    pub condition: Node,
}

/// The body of a function that the host provides: the handle under which the
/// host knows it, and the argument nodes of the call that is under way.
#[derive(Debug, Clone, PartialEq)]
pub struct ExecuteBuiltinNode {
    pub handle: u32,
    pub args: Option<Vec<Node>>,
}

/// The mathematical value of a [`Node`].
pub enum NodeView {
    Number { token: TokenView },
    Text { token: TokenView },
    BinOp { left: Box<NodeView>, op: TokenView, right: Box<NodeView> },
    UnaryOp { op: TokenView, right: Box<NodeView> },
    VarAssignment { identifier: TokenView, value: Box<NodeView> },
    VarArithmeticAssignment { identifier: TokenView, op: TokenView, value: Box<NodeView> },
    VarAccess { identifier: TokenView },
    IfExpr { condition: Box<NodeView>, if_true: Box<NodeView>, if_false: Option<Box<NodeView>> },
    FuncDef { identifier: TokenView, parameters: Seq<TokenView>, body: Option<Box<NodeView>> },
    FuncCall { func_node: Box<NodeView>, args: Seq<NodeView> },
    ListExpr { elements: Seq<NodeView> },
    Statements { statements: Seq<NodeView> },
    Return { returned: Option<Box<NodeView>> },
    Assert { condition: Box<NodeView> },
    ExecuteBuiltin { handle: u32, bound: Option<Seq<NodeView>> },
}

impl View for Node {
    type V = NodeView;

    open spec fn view(&self) -> NodeView
        decreases self, 0nat,
    {
        match self {
            Node::NumberNode(n) => NodeView::Number { token: n.token@ },
            Node::StringNode(n) => NodeView::Text { token: n.token@ },
            Node::BinOpNode(n) => NodeView::BinOp {
                left: Box::new(n.left_node.view()),
                op: n.op_token@,
                right: Box::new(n.right_node.view()),
            },
            Node::UnaryOpNode(n) => NodeView::UnaryOp {
                op: n.token@,
                right: Box::new(n.right.view()),
            },
            Node::VarAssignmentNode(n) => NodeView::VarAssignment {
                identifier: n.identifier@,
                value: Box::new(n.value.view()),
            },
            Node::VarArithmeticAssignmentNode(n) => NodeView::VarArithmeticAssignment {
                identifier: n.identifier@,
                op: n.op_token@,
                value: Box::new(n.value.view()),
            },
            Node::VarAccessNode(n) => NodeView::VarAccess { identifier: n.identifier@ },
            Node::IfExprNode(n) => NodeView::IfExpr {
                condition: Box::new(n.condition.view()),
                if_true: Box::new(n.if_true.view()),
                if_false: match n.if_false {
                    Some(e) => Some(Box::new(e.view())),
                    None => None,
                },
            },
            Node::FuncDefNode(n) => NodeView::FuncDef {
                identifier: n.identifier@,
                parameters: token_views(n.parameters@),
                body: match n.body {
                    Some(b) => Some(Box::new(b.view())),
                    None => None,
                },
            },
            Node::FuncCallNode(n) => NodeView::FuncCall {
                func_node: Box::new(n.func_node.view()),
                args: views_upto(&n.args, n.args.len() as nat),
            },
            Node::ListExprNode(n) => NodeView::ListExpr {
                elements: views_upto(&n.elements, n.elements.len() as nat),
            },
            Node::StatementsNode(n) => NodeView::Statements {
                statements: views_upto(&n.statements, n.statements.len() as nat),
            },
            Node::ReturnNode(n) => NodeView::Return {
                returned: match n.value {
                    Some(v) => Some(Box::new(v.view())),
                    None => None,
                },
            },
            Node::AssertNode(n) => NodeView::Assert { condition: Box::new(n.condition.view()) },
            Node::ExecuteBuiltinNode(n) => NodeView::ExecuteBuiltin {
                handle: n.handle,
                bound: match n.args {
                    Some(a) => Some(
                        views_upto(&a, a.len() as nat),
                    ),
                    None => None,
                },
            },
        }
    }
}

/// The views of the first `n` nodes of a vector.
pub open spec fn views_upto(nodes: &Vec<Node>, n: nat) -> Seq<NodeView>
    decreases nodes, n,
{
    if 0 < n <= nodes.len() {
        views_upto(nodes, (n - 1) as nat).push(nodes[n - 1].view())
    } else {
        Seq::empty()
    }
}

/// The views of a sequence of nodes, one for one.
pub open spec fn node_views(nodes: Seq<Node>) -> Seq<NodeView> {
    Seq::new(nodes.len(), |i: int| nodes[i]@)
}

/// The view of a node that may be absent.
pub open spec fn option_view(node: Option<Node>) -> Option<Box<NodeView>> {
    match node {
        Some(n) => Some(Box::new(n@)),
        None => None,
    }
}

/// The position that a node is reported at: that of its own token, or of the
/// first child that has one. A node without a token of its own or of a child
/// (a sequence of statements, an empty list, a `return` without a value, the
/// body of a host function) has the position kept for internal values.
pub open spec fn position_of(node: NodeView) -> TokenPosition
    decreases node,
{
    match node {
        NodeView::Number { token } => token.position,
        NodeView::Text { token } => token.position,
        NodeView::BinOp { left, op, right } => op.position,
        NodeView::UnaryOp { op, right } => op.position,
        NodeView::VarAssignment { identifier, value } => identifier.position,
        NodeView::VarArithmeticAssignment { identifier, op, value } => op.position,
        NodeView::VarAccess { identifier } => identifier.position,
        NodeView::IfExpr { condition, if_true, if_false } => position_of(*condition),
        NodeView::FuncDef { identifier, parameters, body } => identifier.position,
        NodeView::FuncCall { func_node, args } => position_of(*func_node),
        NodeView::ListExpr { elements } => if elements.len() > 0 {
            position_of(elements[0])
        } else {
            TokenPosition::internal()
        },
        NodeView::Statements { statements } => TokenPosition::internal(),
        NodeView::Return { returned } => match returned {
            Some(v) => position_of(*v),
            None => TokenPosition::internal(),
        },
        NodeView::Assert { condition } => position_of(*condition),
        NodeView::ExecuteBuiltin { handle, bound } => TokenPosition::internal(),
    }
}

impl StatementsNode {
    /// A node of this kind from its parts.
    pub fn new(statements: Vec<Node>) -> (r: StatementsNode)
        ensures
            r.statements == statements,
    {
        StatementsNode { statements }
    }
}

impl NumberNode {
    /// A node of this kind from its parts.
    pub fn new(token: Token) -> (r: NumberNode)
        ensures
            r.token == token,
    {
        NumberNode { token }
    }
}

impl StringNode {
    /// A node of this kind from its parts.
    pub fn new(token: Token) -> (r: StringNode)
        ensures
            r.token == token,
    {
        StringNode { token }
    }
}

impl BinOpNode {
    /// A node of this kind from its parts.
    pub fn new(left_node: Node, op_token: Token, right_node: Node) -> (r: BinOpNode)
        ensures
            r.left_node == left_node,
            r.op_token == op_token,
            r.right_node == right_node,
    {
        BinOpNode { left_node, op_token, right_node }
    }
}

impl UnaryOpNode {
    /// A node of this kind from its parts.
    pub fn new(token: Token, right: Node) -> (r: UnaryOpNode)
        ensures
            r.token == token,
            r.right == right,
    {
        UnaryOpNode { token, right }
    }
}

impl VarAssignmentNode {
    /// A node of this kind from its parts.
    pub fn new(identifier: Token, value: Node) -> (r: VarAssignmentNode)
        ensures
            r.identifier == identifier,
            r.value == value,
    {
        VarAssignmentNode { identifier, value }
    }
}

impl VarArithmeticAssignmentNode {
    /// A node of this kind from its parts.
    pub fn new(identifier: Token, op_token: Token, value: Node) -> (r: VarArithmeticAssignmentNode)
        ensures
            r.identifier == identifier,
            r.op_token == op_token,
            r.value == value,
    {
        VarArithmeticAssignmentNode { identifier, op_token, value }
    }
}

impl VarAccessNode {
    /// A node of this kind from its parts.
    pub fn new(identifier: Token) -> (r: VarAccessNode)
        ensures
            r.identifier == identifier,
    {
        VarAccessNode { identifier }
    }
}

impl IfExprNode {
    /// A node of this kind from its parts.
    pub fn new(condition: Node, if_true: Node, if_false: Option<Node>) -> (r: IfExprNode)
        ensures
            r.condition == condition,
            r.if_true == if_true,
            r.if_false == if_false,
    {
        IfExprNode { condition, if_true, if_false }
    }
}

impl FuncDefNode {
    /// A node of this kind from its parts.
    pub fn new(identifier: Token, parameters: Vec<Token>, body: Option<Node>) -> (r: FuncDefNode)
        ensures
            r.identifier == identifier,
            r.parameters == parameters,
            r.body == body,
    {
        FuncDefNode { identifier, parameters, body }
    }
}

impl FuncCallNode {
    /// A node of this kind from its parts.
    pub fn new(func_node: Node, args: Vec<Node>) -> (r: FuncCallNode)
        ensures
            r.func_node == func_node,
            r.args == args,
    {
        FuncCallNode { func_node, args }
    }
}

impl ListExprNode {
    /// A node of this kind from its parts.
    pub fn new(elements: Vec<Node>) -> (r: ListExprNode)
        ensures
            r.elements == elements,
    {
        ListExprNode { elements }
    }
}

impl ReturnNode {
    /// A node of this kind from its parts.
    pub fn new(value: Option<Node>) -> (r: ReturnNode)
        ensures
            r.value == value,
    {
        ReturnNode { value }
    }
}

impl AssertNode {
    /// A node of this kind from its parts.
    pub fn new(condition: Node) -> (r: AssertNode)
        ensures
            r.condition == condition,
    {
        AssertNode { condition }
    }
}

impl ExecuteBuiltinNode {
    /// A node of this kind from its parts.
    pub fn new(handle: u32, args: Option<Vec<Node>>) -> (r: ExecuteBuiltinNode)
        ensures
            r.handle == handle,
            r.args == args,
    {
        ExecuteBuiltinNode { handle, args }
    }
}

/// The views of the first `n` nodes of a vector are the views of the first
/// `n` elements of its sequence.
pub proof fn lemma_views_upto(nodes: &Vec<Node>, n: nat)
    requires
        n <= nodes.len(),
    ensures
        views_upto(nodes, n) == node_views(nodes@.take(n as int)),
    decreases n,
{
    if n > 0 {
        lemma_views_upto(nodes, (n - 1) as nat);
        assert(node_views(nodes@.take(n as int)) =~= node_views(nodes@.take(n - 1)).push(
            nodes[n - 1]@,
        ));
    } else {
        assert(node_views(nodes@.take(0)) =~= Seq::<NodeView>::empty());
    }
}

/// The view of a node that holds a vector of nodes, written with
/// [`node_views`].
pub proof fn lemma_view_children(node: Node)
    ensures
        match node {
            Node::FuncCallNode(n) => node@ == (NodeView::FuncCall {
                func_node: Box::new(n.func_node@),
                args: node_views(n.args@),
            }),
            Node::ListExprNode(n) => node@ == (NodeView::ListExpr {
                elements: node_views(n.elements@),
            }),
            Node::StatementsNode(n) => node@ == (NodeView::Statements {
                statements: node_views(n.statements@),
            }),
            Node::ExecuteBuiltinNode(n) => node@ == (NodeView::ExecuteBuiltin {
                handle: n.handle,
                bound: match n.args {
                    Some(a) => Some(node_views(a@)),
                    None => None,
                },
            }),
            _ => true,
        },
{
    match node {
        Node::FuncCallNode(n) => {
            lemma_views_upto(&n.args, n.args.len() as nat);
            assert(n.args@.take(n.args.len() as int) =~= n.args@);
        },
        Node::ListExprNode(n) => {
            lemma_views_upto(&n.elements, n.elements.len() as nat);
            assert(n.elements@.take(n.elements.len() as int) =~= n.elements@);
        },
        Node::StatementsNode(n) => {
            lemma_views_upto(&n.statements, n.statements.len() as nat);
            assert(n.statements@.take(n.statements.len() as int) =~= n.statements@);
        },
        Node::ExecuteBuiltinNode(n) => {
            match n.args {
                Some(a) => {
                    lemma_views_upto(&a, a.len() as nat);
                    assert(a@.take(a.len() as int) =~= a@);
                },
                None => {},
            }
        },
        _ => {},
    }
}

/// A copy of a vector of tokens.
pub fn clone_tokens(tokens: &Vec<Token>) -> (r: Vec<Token>)
    ensures
        r@ == tokens@,
{
    let mut out: Vec<Token> = Vec::new();
    let mut i: usize = 0;
    while i < tokens.len()
        invariant
            i <= tokens.len(),
            out@ == tokens@.take(i as int),
        decreases tokens.len() - i,
    {
        out.push(tokens[i].clone());
        i += 1;
        assert(out@ =~= tokens@.take(i as int));
    }
    assert(out@ =~= tokens@);
    out
}

/// A copy of a vector of nodes.
pub fn clone_nodes(nodes: &Vec<Node>) -> (r: Vec<Node>)
    ensures
        node_views(r@) == node_views(nodes@),
    decreases nodes,
{
    let mut out: Vec<Node> = Vec::new();
    let mut i: usize = 0;
    while i < nodes.len()
        invariant
            i <= nodes.len(),
            out.len() == i,
            forall|j: int| 0 <= j < i ==> out[j]@ == nodes[j]@,
        decreases nodes.len() - i,
    {
        out.push(clone_node(&nodes[i]));
        i += 1;
    }
    assert(node_views(out@) =~= node_views(nodes@));
    out
}

/// A copy of a node that may be absent.
pub fn clone_option(node: &Option<Node>) -> (r: Option<Node>)
    ensures
        option_view(r) == option_view(*node),
    decreases node,
{
    match node {
        Some(n) => Some(clone_node(n)),
        None => None,
    }
}

/// A copy of a node: a tree with the same view.
pub fn clone_node(node: &Node) -> (r: Node)
    ensures
        r@ == node@,
    decreases node,
{
    match node {
        Node::NumberNode(n) => Node::NumberNode(Box::new(NumberNode::new(n.token.clone()))),
        Node::StringNode(n) => Node::StringNode(Box::new(StringNode::new(n.token.clone()))),
        Node::BinOpNode(n) => Node::BinOpNode(
            Box::new(
                BinOpNode::new(clone_node(&n.left_node), n.op_token.clone(), clone_node(&n.right_node)),
            ),
        ),
        Node::UnaryOpNode(n) => {
            let r = Node::UnaryOpNode(
                Box::new(UnaryOpNode::new(n.token.clone(), clone_node(&n.right))),
            );
            proof {
                lemma_view_children(r);
                lemma_view_children(*node);
            }
            r
        },
        Node::VarAssignmentNode(n) => Node::VarAssignmentNode(
            Box::new(VarAssignmentNode::new(n.identifier.clone(), clone_node(&n.value))),
        ),
        Node::VarArithmeticAssignmentNode(n) => Node::VarArithmeticAssignmentNode(
            Box::new(
                VarArithmeticAssignmentNode::new(
                    n.identifier.clone(),
                    n.op_token.clone(),
                    clone_node(&n.value),
                ),
            ),
        ),
        Node::VarAccessNode(n) => Node::VarAccessNode(
            Box::new(VarAccessNode::new(n.identifier.clone())),
        ),
        Node::IfExprNode(n) => {
            let r = Node::IfExprNode(
                Box::new(
                    IfExprNode::new(
                        clone_node(&n.condition),
                        clone_node(&n.if_true),
                        clone_option(&n.if_false),
                    ),
                ),
            );
            proof {
                lemma_view_children(r);
                lemma_view_children(*node);
            }
            r
        },
        Node::FuncDefNode(n) => {
            let r = Node::FuncDefNode(
                Box::new(
                    FuncDefNode::new(
                        n.identifier.clone(),
                        clone_tokens(&n.parameters),
                        clone_option(&n.body),
                    ),
                ),
            );
            proof {
                lemma_view_children(r);
                lemma_view_children(*node);
            }
            r
        },
        Node::FuncCallNode(n) => {
            let args = clone_nodes(&n.args);
            let r = Node::FuncCallNode(Box::new(FuncCallNode::new(clone_node(&n.func_node), args)));
            proof {
                lemma_view_children(r);
                lemma_view_children(*node);
            }
            r
        },
        Node::ListExprNode(n) => {
            let elements = clone_nodes(&n.elements);
            let r = Node::ListExprNode(Box::new(ListExprNode::new(elements)));
            proof {
                lemma_view_children(r);
                lemma_view_children(*node);
            }
            r
        },
        Node::StatementsNode(n) => {
            let statements = clone_nodes(&n.statements);
            let r = Node::StatementsNode(Box::new(StatementsNode::new(statements)));
            proof {
                lemma_view_children(r);
                lemma_view_children(*node);
            }
            r
        },
        Node::ReturnNode(n) => {
            let r = Node::ReturnNode(Box::new(ReturnNode::new(clone_option(&n.value))));
            proof {
                lemma_view_children(r);
                lemma_view_children(*node);
            }
            r
        },
        Node::AssertNode(n) => Node::AssertNode(Box::new(AssertNode::new(clone_node(&n.condition)))),
        Node::ExecuteBuiltinNode(n) => {
            let args = match &n.args {
                Some(a) => {
                    let copy = clone_nodes(a);
                    Some(copy)
                },
                None => None,
            };
            let r = Node::ExecuteBuiltinNode(Box::new(ExecuteBuiltinNode::new(n.handle, args)));
            proof {
                lemma_view_children(r);
                lemma_view_children(*node);
            }
            r
        },
    }
}

impl Clone for Node {
    fn clone(&self) -> (r: Node)
        ensures
            r@ == self@,
    {
        clone_node(self)
    }
}

impl Node {
    /// The position that this node is reported at.
    pub fn get_position(&self) -> (r: TokenPosition)
        ensures
            r == position_of(self@),
        decreases self,
    {
        match self {
            Node::NumberNode(n) => n.token.position,
            Node::StringNode(n) => n.token.position,
            Node::BinOpNode(n) => n.op_token.position,
            Node::UnaryOpNode(n) => n.token.position,
            Node::VarAssignmentNode(n) => n.identifier.position,
            Node::VarArithmeticAssignmentNode(n) => n.op_token.position,
            Node::VarAccessNode(n) => n.identifier.position,
            Node::IfExprNode(n) => n.condition.get_position(),
            Node::FuncDefNode(n) => n.identifier.position,
            Node::FuncCallNode(n) => n.func_node.get_position(),
            Node::ListExprNode(n) => {
                proof {
                    lemma_view_children(*self);
                }
                if n.elements.len() > 0 {
                    assert(node_views(n.elements@)[0] == n.elements[0]@);
                    n.elements[0].get_position()
                } else {
                    TokenPosition::internal()
                }
            },
            Node::StatementsNode(_) => TokenPosition::internal(),
            Node::ReturnNode(n) => match &n.value {
                Some(v) => v.get_position(),
                None => TokenPosition::internal(),
            },
            Node::AssertNode(n) => n.condition.get_position(),
            Node::ExecuteBuiltinNode(_) => TokenPosition::internal(),
        }
    }
}

} // verus!
