//! Writes a tree as tokens and as source text.
use vstd::prelude::*;
use vstd::string::StringExecFns;
use crate::lexer::tokens::{token_views, Keyword, Token, TokenKind, TokenType};
use crate::lexer::writing::source_text;
use crate::parser::nodes::{lemma_view_children, node_views, Node};
use crate::parser::printing::{written, written_list, written_names, written_statements};

verus! {

broadcast use vstd::std_specs::vec::group_vec_axioms;

/// The views of a sequence of token kinds, one for one.
pub open spec fn kind_views(kinds: Seq<TokenType>) -> Seq<TokenKind> {
    Seq::new(kinds.len(), |i: int| kinds[i]@)
}

fn push_kind(out: &mut Vec<TokenType>, kind: TokenType)
    ensures
        kind_views(final(out)@) == kind_views(old(out)@) + seq![kind@],
{
    out.push(kind);
    assert(kind_views(final(out)@) =~= kind_views(old(out)@) + seq![kind@]);
}

/// Writes the expressions of a list with a comma between one and the next.
fn write_list(nodes: &Vec<Node>, out: &mut Vec<TokenType>)
    ensures
        kind_views(final(out)@) == kind_views(old(out)@) + written_list(node_views(nodes@), 0),
    decreases nodes,
{
    let ghost views = node_views(nodes@);
    let ghost before = kind_views(out@);
    let mut i: usize = 0;
    assert(before + written_list(views, 0) =~= before + written_list(views, 0));
    while i < nodes.len()
        invariant
            i <= nodes.len(),
            views == node_views(nodes@),
            before == kind_views(old(out)@),
            kind_views(out@) + written_list(views, i as nat) == before + written_list(views, 0),
        decreases nodes.len() - i,
    {
        let ghost here = kind_views(out@);
        write_node(&nodes[i], out);
        if i + 1 < nodes.len() {
            push_kind(out, TokenType::Comma);
        }
        proof {
            assert(views[i as int] == nodes[i as int]@);
            assert(kind_views(out@) + written_list(views, (i + 1) as nat) =~= here + written_list(
                views,
                i as nat,
            ));
        }
        i += 1;
    }
    assert(kind_views(out@) + Seq::<TokenKind>::empty() =~= kind_views(out@));
}

/// Writes the statements of a sequence, each with its `;`.
fn write_statements(nodes: &Vec<Node>, out: &mut Vec<TokenType>)
    ensures
        kind_views(final(out)@) == kind_views(old(out)@) + written_statements(
            node_views(nodes@),
            0,
        ),
    decreases nodes,
{
    let ghost views = node_views(nodes@);
    let ghost before = kind_views(out@);
    let mut i: usize = 0;
    while i < nodes.len()
        invariant
            i <= nodes.len(),
            views == node_views(nodes@),
            before == kind_views(old(out)@),
            kind_views(out@) + written_statements(views, i as nat) == before + written_statements(
                views,
                0,
            ),
        decreases nodes.len() - i,
    {
        let ghost here = kind_views(out@);
        write_node(&nodes[i], out);
        push_kind(out, TokenType::Semicolon);
        proof {
            assert(views[i as int] == nodes[i as int]@);
            assert(kind_views(out@) + written_statements(views, (i + 1) as nat) =~= here
                + written_statements(views, i as nat));
        }
        i += 1;
    }
    assert(kind_views(out@) + Seq::<TokenKind>::empty() =~= kind_views(out@));
}

/// Writes the names of the parameters of a function with a comma between
/// one and the next.
fn write_names(names: &Vec<Token>, out: &mut Vec<TokenType>)
    ensures
        kind_views(final(out)@) == kind_views(old(out)@) + written_names(token_views(names@), 0),
{
    let ghost views = token_views(names@);
    let ghost before = kind_views(out@);
    let mut i: usize = 0;
    while i < names.len()
        invariant
            i <= names.len(),
            views == token_views(names@),
            before == kind_views(old(out)@),
            kind_views(out@) + written_names(views, i as nat) == before + written_names(views, 0),
        decreases names.len() - i,
    {
        let ghost here = kind_views(out@);
        push_kind(out, names[i].value.clone());
        if i + 1 < names.len() {
            push_kind(out, TokenType::Comma);
        }
        proof {
            assert(views[i as int] == names[i as int]@);
            assert(kind_views(out@) + written_names(views, (i + 1) as nat) =~= here + written_names(
                views,
                i as nat,
            ));
        }
        i += 1;
    }
    assert(kind_views(out@) + Seq::<TokenKind>::empty() =~= kind_views(out@));
}

/// Writes a tree as tokens behind the tokens that are there.
pub fn write_node(node: &Node, out: &mut Vec<TokenType>)
    ensures
        kind_views(final(out)@) == kind_views(old(out)@) + written(node@),
    decreases node,
{
    let ghost before = kind_views(out@);
    proof {
        lemma_view_children(*node);
    }
    match node {
        Node::NumberNode(n) => {
            push_kind(out, n.token.value.clone());
        },
        Node::StringNode(n) => {
            push_kind(out, n.token.value.clone());
        },
        Node::VarAccessNode(n) => {
            push_kind(out, n.identifier.value.clone());
        },
        Node::BinOpNode(n) => {
            write_binary(n, out);
        },
        Node::UnaryOpNode(n) => {
            write_unary(n, out);
        },
        Node::VarAssignmentNode(n) => {
            write_assignment(n, out);
        },
        Node::VarArithmeticAssignmentNode(n) => {
            write_compound(n, out);
        },
        Node::AssertNode(n) => {
            write_assert(n, out);
        },
        Node::IfExprNode(n) => {
            write_if(n, out);
        },
        Node::FuncCallNode(n) => {
            write_call(n, out);
        },
        Node::ListExprNode(n) => {
            write_brackets(n, out);
        },
        Node::FuncDefNode(n) => {
            write_definition(n, out);
        },
        Node::ReturnNode(n) => {
            write_return(n, out);
        },
        Node::StatementsNode(n) => {
            write_statements(&n.statements, out);
        },
        Node::ExecuteBuiltinNode(_) => {
            assert(kind_views(out@) =~= before + written(node@));
        },
    }
}

fn write_binary(n: &Box<crate::parser::nodes::BinOpNode>, out: &mut Vec<TokenType>)
    ensures
        kind_views(final(out)@) == kind_views(old(out)@) + written(Node::BinOpNode(*n)@),
    decreases n,
{
    let ghost before = kind_views(out@);
    proof {
        lemma_view_children(Node::BinOpNode(*n));
    }
    push_kind(out, TokenType::LeftParen);
    write_node(&n.left_node, out);
    push_kind(out, n.op_token.value.clone());
    write_node(&n.right_node, out);
    push_kind(out, TokenType::RightParen);
    assert(kind_views(out@) =~= before + written(Node::BinOpNode(*n)@));
}

fn write_unary(n: &Box<crate::parser::nodes::UnaryOpNode>, out: &mut Vec<TokenType>)
    ensures
        kind_views(final(out)@) == kind_views(old(out)@) + written(Node::UnaryOpNode(*n)@),
    decreases n,
{
    let ghost before = kind_views(out@);
    proof {
        lemma_view_children(Node::UnaryOpNode(*n));
    }
    if n.token.value.same(&TokenType::Keyword(Keyword::Not)) {
        push_kind(out, TokenType::LeftParen);
        push_kind(out, n.token.value.clone());
        write_node(&n.right, out);
        push_kind(out, TokenType::RightParen);
    } else {
        push_kind(out, n.token.value.clone());
        write_node(&n.right, out);
    }
    assert(kind_views(out@) =~= before + written(Node::UnaryOpNode(*n)@));
}

fn write_assignment(n: &Box<crate::parser::nodes::VarAssignmentNode>, out: &mut Vec<TokenType>)
    ensures
        kind_views(final(out)@) == kind_views(old(out)@) + written(Node::VarAssignmentNode(*n)@),
    decreases n,
{
    let ghost before = kind_views(out@);
    proof {
        lemma_view_children(Node::VarAssignmentNode(*n));
    }
    push_kind(out, TokenType::LeftParen);
    push_kind(out, TokenType::Keyword(Keyword::Let));
    push_kind(out, n.identifier.value.clone());
    push_kind(out, TokenType::Equal);
    write_node(&n.value, out);
    push_kind(out, TokenType::RightParen);
    assert(kind_views(out@) =~= before + written(Node::VarAssignmentNode(*n)@));
}

fn write_compound(n: &Box<crate::parser::nodes::VarArithmeticAssignmentNode>, out: &mut Vec<TokenType>)
    ensures
        kind_views(final(out)@) == kind_views(old(out)@) + written(Node::VarArithmeticAssignmentNode(*n)@),
    decreases n,
{
    let ghost before = kind_views(out@);
    proof {
        lemma_view_children(Node::VarArithmeticAssignmentNode(*n));
    }
    push_kind(out, TokenType::LeftParen);
    push_kind(out, TokenType::Keyword(Keyword::Let));
    push_kind(out, n.identifier.value.clone());
    push_kind(out, n.op_token.value.clone());
    write_node(&n.value, out);
    push_kind(out, TokenType::RightParen);
    assert(kind_views(out@) =~= before + written(Node::VarArithmeticAssignmentNode(*n)@));
}

fn write_assert(n: &Box<crate::parser::nodes::AssertNode>, out: &mut Vec<TokenType>)
    ensures
        kind_views(final(out)@) == kind_views(old(out)@) + written(Node::AssertNode(*n)@),
    decreases n,
{
    let ghost before = kind_views(out@);
    proof {
        lemma_view_children(Node::AssertNode(*n));
    }
    push_kind(out, TokenType::LeftParen);
    push_kind(out, TokenType::Keyword(Keyword::Assert));
    write_node(&n.condition, out);
    push_kind(out, TokenType::RightParen);
    assert(kind_views(out@) =~= before + written(Node::AssertNode(*n)@));
}

fn write_if(n: &Box<crate::parser::nodes::IfExprNode>, out: &mut Vec<TokenType>)
    ensures
        kind_views(final(out)@) == kind_views(old(out)@) + written(Node::IfExprNode(*n)@),
    decreases n,
{
    let ghost before = kind_views(out@);
    proof {
        lemma_view_children(Node::IfExprNode(*n));
    }
    push_kind(out, TokenType::LeftParen);
    push_kind(out, TokenType::Keyword(Keyword::If));
    write_node(&n.condition, out);
    push_kind(out, TokenType::LeftBrace);
    write_node(&n.if_true, out);
    push_kind(out, TokenType::RightBrace);
    match &n.if_false {
        Some(other) => {
            push_kind(out, TokenType::Keyword(Keyword::Else));
            push_kind(out, TokenType::LeftBrace);
            write_node(other, out);
            push_kind(out, TokenType::RightBrace);
        },
        None => {},
    }
    push_kind(out, TokenType::RightParen);
    assert(kind_views(out@) =~= before + written(Node::IfExprNode(*n)@));
}

fn write_call(n: &Box<crate::parser::nodes::FuncCallNode>, out: &mut Vec<TokenType>)
    ensures
        kind_views(final(out)@) == kind_views(old(out)@) + written(Node::FuncCallNode(*n)@),
    decreases n,
{
    let ghost before = kind_views(out@);
    proof {
        lemma_view_children(Node::FuncCallNode(*n));
    }
    push_kind(out, TokenType::LeftParen);
    write_node(&n.func_node, out);
    push_kind(out, TokenType::LeftParen);
    write_list(&n.args, out);
    push_kind(out, TokenType::RightParen);
    push_kind(out, TokenType::RightParen);
    assert(kind_views(out@) =~= before + written(Node::FuncCallNode(*n)@));
}

fn write_brackets(n: &Box<crate::parser::nodes::ListExprNode>, out: &mut Vec<TokenType>)
    ensures
        kind_views(final(out)@) == kind_views(old(out)@) + written(Node::ListExprNode(*n)@),
    decreases n,
{
    let ghost before = kind_views(out@);
    proof {
        lemma_view_children(Node::ListExprNode(*n));
    }
    push_kind(out, TokenType::LeftSquare);
    write_list(&n.elements, out);
    push_kind(out, TokenType::RightSquare);
    assert(kind_views(out@) =~= before + written(Node::ListExprNode(*n)@));
}

fn write_definition(n: &Box<crate::parser::nodes::FuncDefNode>, out: &mut Vec<TokenType>)
    ensures
        kind_views(final(out)@) == kind_views(old(out)@) + written(Node::FuncDefNode(*n)@),
    decreases n,
{
    let ghost before = kind_views(out@);
    proof {
        lemma_view_children(Node::FuncDefNode(*n));
    }
    push_kind(out, TokenType::Keyword(Keyword::Func));
    push_kind(out, n.identifier.value.clone());
    push_kind(out, TokenType::LeftParen);
    write_names(&n.parameters, out);
    push_kind(out, TokenType::RightParen);
    push_kind(out, TokenType::LeftBrace);
    match &n.body {
        Some(body) => {
            write_node(body, out);
        },
        None => {},
    }
    push_kind(out, TokenType::RightBrace);
    assert(kind_views(out@) =~= before + written(Node::FuncDefNode(*n)@));
}

fn write_return(n: &Box<crate::parser::nodes::ReturnNode>, out: &mut Vec<TokenType>)
    ensures
        kind_views(final(out)@) == kind_views(old(out)@) + written(Node::ReturnNode(*n)@),
    decreases n,
{
    let ghost before = kind_views(out@);
    proof {
        lemma_view_children(Node::ReturnNode(*n));
    }
    push_kind(out, TokenType::Keyword(Keyword::Return));
    match &n.value {
        Some(value) => {
            write_node(value, out);
        },
        None => {},
    }
    assert(kind_views(out@) =~= before + written(Node::ReturnNode(*n)@));
}

/// The source text of a sequence of tokens: each token as it is written,
/// and a space behind each.
pub fn tokens_to_string(kinds: &Vec<TokenType>) -> (r: String)
    ensures
        r@ == source_text(kind_views(kinds@), 0),
{
    let ghost views = kind_views(kinds@);
    let mut out = String::new();
    let mut i: usize = 0;
    assert(out@ + source_text(views, 0) =~= source_text(views, 0));
    while i < kinds.len()
        invariant
            i <= kinds.len(),
            views == kind_views(kinds@),
            out@ + source_text(views, i as nat) == source_text(views, 0),
        decreases kinds.len() - i,
    {
        let ghost here = out@;
        match &kinds[i] {
            TokenType::String(s) => {
                out.push('"');
                out.append(s.as_str());
                out.push('"');
            },
            other => {
                out.append(other.to_string().as_str());
            },
        }
        out.push(' ');
        proof {
            assert(views[i as int] == kinds[i as int]@);
            assert(out@ + source_text(views, (i + 1) as nat) =~= here + source_text(views, i as nat));
        }
        i += 1;
    }
    assert(out@ + Seq::<char>::empty() =~= out@);
    out
}

impl Node {
    /// The tokens that write this tree.
    pub fn to_tokens(&self) -> (r: Vec<TokenType>)
        ensures
            kind_views(r@) == written(self@),
    {
        let mut out: Vec<TokenType> = Vec::new();
        assert(kind_views(out@) =~= Seq::<TokenKind>::empty());
        write_node(self, &mut out);
        assert(Seq::<TokenKind>::empty() + written(self@) =~= written(self@));
        out
    }

    /// The source text that writes this tree.
    pub fn to_string(&self) -> (r: String)
        ensures
            r@ == source_text(written(self@), 0),
    {
        tokens_to_string(&self.to_tokens())
    }
}

} // verus!
