//! The rules for calls, atoms and lists.
use vstd::prelude::*;

use crate::errors::{Error, ErrorView};
use crate::lexer::tokens::{Keyword, Token, TokenType};
use crate::parser::grammar;
use crate::parser::grammar::advances;
use crate::parser::nodes::{
    lemma_view_children, node_views, FuncCallNode, ListExprNode, Node, NodeView, NumberNode,
    StringNode, UnaryOpNode, VarAccessNode,
};
use crate::parser::{parsed, parsed_list, unexpected, Parser};

verus! {

broadcast use vstd::std_specs::vec::group_vec_axioms;

impl Parser {
    /// The expressions of a list up to the token `close`, at which the
    /// parser stops.
    pub(crate) fn gr_items(&mut self, close: TokenType) -> (r: Result<Vec<Node>, Error>)
        requires
            old(self).wf(),
        ensures
            final(self).follows(old(self)),
            final(self).stream() == old(self).stream(),
            parsed_list(
                r,
                final(self).index(),
                grammar::items(old(self).stream(), old(self).index(), close@, Seq::empty()),
            ),
            r is Ok ==> old(self).index() <= final(self).index() < old(self).stream().len(),
        decreases old(self).tokens.len() - old(self).token_index, 11nat,
    {
        proof {
            reveal(grammar::items);
            reveal(grammar::expr);
        }
        let mut args: Vec<Node> = Vec::new();
        let mut open = true;
        let ghost stream = self.stream();
        let ghost start = self.index();
        assert(node_views(args@) =~= Seq::<NodeView>::empty());
        while open
            invariant
                self.follows(old(self)),
                stream == old(self).stream(),
                start == old(self).index(),
                self.index() >= start,
                grammar::items(stream, start, close@, Seq::empty()) == grammar::items(
                    stream,
                    self.index(),
                    close@,
                    node_views(args@),
                ),
                !open ==> self.index() < stream.len() && grammar::items(
                    stream,
                    self.index(),
                    close@,
                    node_views(args@),
                ) == Ok::<(Seq<NodeView>, nat), ErrorView>((node_views(args@), self.index())),
            decreases self.tokens.len() - self.token_index + (if open { 1nat } else { 0nat }),
        {
                proof {
                    reveal(grammar::items);
                    reveal(grammar::expr);
                }
            proof {
                self.lemma_current();
            }
            let token = match self.get_current_token_err() {
                Ok(token) => token,
                Err(e) => {
                    return Err(e);
                },
            };
            if token.value.same(&close) {
                open = false;
            } else {
                let ghost before = node_views(args@);
                let item = match self.gr_expr() {
                    Ok(node) => node,
                    Err(e) => {
                        return Err(e);
                    },
                };
                args.push(item);
                assert(node_views(args@) =~= before.push(item@));
                proof {
                    self.lemma_current();
                }
                let separator = match self.get_current_token_err() {
                    Ok(token) => token,
                    Err(e) => {
                        return Err(e);
                    },
                };
                if separator.value.same(&TokenType::Comma) {
                    self.advance();
                }
            }
        }
        Ok(args)
    }

    /// A call.
    pub(crate) fn gr_call(&mut self) -> (r: Result<Node, Error>)
        requires
            old(self).wf(),
        ensures
            final(self).follows(old(self)),
            final(self).stream() == old(self).stream(),
            parsed(r, final(self).index(), grammar::call(old(self).stream(), old(self).index())),
            r is Ok ==> advances(old(self).stream(), old(self).index(), final(self).index()),
        decreases old(self).tokens.len() - old(self).token_index, 1nat,
    {
        proof {
            reveal(grammar::call);
            reveal(grammar::atom);
            reveal(grammar::items);
        }
        let left_node = match self.gr_atom() {
            Ok(node) => node,
            Err(e) => {
                return Err(e);
            },
        };
        proof {
            self.lemma_current();
        }
        let current_tok = match self.get_current_token_err() {
            Ok(token) => token,
            Err(e) => {
                return Err(e);
            },
        };
        if current_tok.value.same(&TokenType::LeftParen) {
            self.advance();
            let args = match self.gr_items(TokenType::RightParen) {
                Ok(args) => args,
                Err(e) => {
                    return Err(e);
                },
            };
            self.advance();
            let node = Node::FuncCallNode(Box::new(FuncCallNode::new(left_node, args)));
            proof {
                lemma_view_children(node);
            }
            return Ok(node);
        }
        Ok(left_node)
    }

    /// An atom.
    pub(crate) fn gr_atom(&mut self) -> (r: Result<Node, Error>)
        requires
            old(self).wf(),
        ensures
            final(self).follows(old(self)),
            final(self).stream() == old(self).stream(),
            parsed(r, final(self).index(), grammar::atom(old(self).stream(), old(self).index())),
            r is Ok ==> advances(old(self).stream(), old(self).index(), final(self).index()),
        decreases old(self).tokens.len() - old(self).token_index, 0nat,
    {
        proof {
            reveal(grammar::atom);
            reveal(grammar::expr);
            reveal(grammar::list_expr);
            reveal(grammar::if_expr);
            reveal(grammar::func_def);
        }
        proof {
            self.lemma_current();
        }
        match self.get_current_token() {
            Some(token) => {
                match &token.value {
                    TokenType::Integer(_) => {
                        let number_node = NumberNode::new(token);
                        self.advance();
                        Ok(Node::NumberNode(Box::new(number_node)))
                    },
                    TokenType::Float(_) => {
                        let number_node = NumberNode::new(token);
                        self.advance();
                        Ok(Node::NumberNode(Box::new(number_node)))
                    },
                    TokenType::String(_) => {
                        let string_node = StringNode::new(token);
                        self.advance();
                        Ok(Node::StringNode(Box::new(string_node)))
                    },
                    TokenType::Plus => self.gr_signed(token),
                    TokenType::Minus => self.gr_signed(token),
                    TokenType::LeftParen => {
                        self.advance();
                        let expr = match self.gr_expr() {
                            Ok(node) => node,
                            Err(e) => {
                                return Err(e);
                            },
                        };
                        match self.expect(TokenType::RightParen) {
                            Ok(_) => {},
                            Err(e) => {
                                return Err(e);
                            },
                        }
                        self.advance();
                        Ok(expr)
                    },
                    TokenType::LeftSquare => {
                        self.advance();
                        self.gr_list_expr()
                    },
                    TokenType::Identifier(_) => {
                        let var_access_node = VarAccessNode::new(token);
                        self.advance();
                        Ok(Node::VarAccessNode(Box::new(var_access_node)))
                    },
                    TokenType::Keyword(Keyword::If) => {
                        self.advance();
                        self.gr_if_expr()
                    },
                    TokenType::Keyword(Keyword::Func) => {
                        self.advance();
                        self.gr_func_def()
                    },
                    _ => Err(unexpected("atom", &token)),
                }
            },
            None => Err(self.error_missing_token()),
        }
    }

    /// The atom behind the sign `unary_op`, which is the current token.
    pub(crate) fn gr_signed(&mut self, unary_op: Token) -> (r: Result<Node, Error>)
        requires
            old(self).wf(),
            old(self).index() < old(self).stream().len(),
        ensures
            final(self).follows(old(self)),
            final(self).stream() == old(self).stream(),
            parsed(
                r,
                final(self).index(),
                grammar::unary(unary_op@, grammar::atom(old(self).stream(), old(self).index() + 1)),
            ),
            r is Ok ==> advances(old(self).stream(), old(self).index(), final(self).index()),
        decreases old(self).tokens.len() - old(self).token_index - 1, 1nat,
    {
        proof {
            reveal(grammar::atom);
        }
        self.advance();
        let factor = match self.gr_atom() {
            Ok(node) => node,
            Err(e) => {
                return Err(e);
            },
        };
        Ok(Node::UnaryOpNode(Box::new(UnaryOpNode::new(unary_op, factor))))
    }

    /// A list, behind its `[`.
    pub(crate) fn gr_list_expr(&mut self) -> (r: Result<Node, Error>)
        requires
            old(self).wf(),
        ensures
            final(self).follows(old(self)),
            final(self).stream() == old(self).stream(),
            parsed(r, final(self).index(), grammar::list_expr(old(self).stream(), old(self).index())),
            r is Ok ==> advances(old(self).stream(), old(self).index(), final(self).index()),
        decreases old(self).tokens.len() - old(self).token_index, 12nat,
    {
        proof {
            reveal(grammar::list_expr);
            reveal(grammar::items);
        }
        let elements = match self.gr_items(TokenType::RightSquare) {
            Ok(elements) => elements,
            Err(e) => {
                return Err(e);
            },
        };
        self.advance();
        let node = Node::ListExprNode(Box::new(ListExprNode::new(elements)));
        proof {
            lemma_view_children(node);
        }
        Ok(node)
    }

}

} // verus!
