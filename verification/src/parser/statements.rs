//! The rules for statements.
use vstd::prelude::*;

use crate::errors::{Error, ErrorView};
use crate::lexer::tokens::{Keyword, TokenType};
use crate::parser::grammar;
use crate::parser::grammar::advances;
use crate::parser::nodes::{
    lemma_view_children, node_views, Node, NodeView, ReturnNode, StatementsNode,
};
use crate::parser::{closes_block, parsed, Parser};

verus! {

broadcast use vstd::std_specs::vec::group_vec_axioms;

impl Parser {
    /// Statements.
    pub(crate) fn gr_statements(&mut self) -> (r: Result<Node, Error>)
        requires
            old(self).wf(),
        ensures
            final(self).follows(old(self)),
            final(self).stream() == old(self).stream(),
            parsed(r, final(self).index(), grammar::statements(old(self).stream(), old(self).index())),
            r is Ok ==> old(self).index() <= final(self).index(),
        decreases old(self).tokens.len() - old(self).token_index, 15nat,
    {
        proof {
            reveal(grammar::statements);
            reveal(grammar::statements_from);
            reveal(grammar::statement);
        }
        let mut statements: Vec<Node> = Vec::new();
        let mut open = true;
        let ghost stream = self.stream();
        let ghost start = self.index();
        assert(node_views(statements@) =~= Seq::<NodeView>::empty());
        while open
            invariant
                self.follows(old(self)),
                stream == old(self).stream(),
                start == old(self).index(),
                self.index() >= start,
                grammar::statements_from(stream, start, Seq::empty()) == grammar::statements_from(
                    stream,
                    self.index(),
                    node_views(statements@),
                ),
                !open ==> grammar::statements_from(stream, self.index(), node_views(statements@))
                    == Ok::<(Seq<NodeView>, nat), ErrorView>((node_views(statements@), self.index())),
            decreases self.tokens.len() - self.token_index + (if open { 1nat } else { 0nat }),
        {
                proof {
                    reveal(grammar::statements);
                    reveal(grammar::statements_from);
                    reveal(grammar::statement);
                }
            proof {
                self.lemma_current();
            }
            match self.get_current_token() {
                Some(current_tok) => {
                    if closes_block(&current_tok.value) {
                        open = false;
                    } else {
                        let ghost before = node_views(statements@);
                        match self.gr_statement() {
                            Ok(node) => {
                                statements.push(node);
                                assert(node_views(statements@) =~= before.push(node@));
                            },
                            Err(e) => {
                                return Err(e);
                            },
                        }
                    }
                },
                None => {
                    open = false;
                },
            }
        }
        let node = Node::StatementsNode(Box::new(StatementsNode::new(statements)));
        proof {
            lemma_view_children(node);
        }
        Ok(node)
    }

    /// Succeeds with `node` where a `;` is the current token, and moves
    /// behind it.
    pub(crate) fn gr_terminated(&mut self, node: Node) -> (r: Result<Node, Error>)
        requires
            old(self).wf(),
        ensures
            final(self).follows(old(self)),
            final(self).stream() == old(self).stream(),
            parsed(
                r,
                final(self).index(),
                grammar::terminated(old(self).stream(), node@, old(self).index()),
            ),
    {
        match self.expect(TokenType::Semicolon) {
            Ok(_) => {},
            Err(e) => {
                return Err(e);
            },
        }
        self.advance();
        Ok(node)
    }

    /// A statement.
    pub(crate) fn gr_statement(&mut self) -> (r: Result<Node, Error>)
        requires
            old(self).wf(),
        ensures
            final(self).follows(old(self)),
            final(self).stream() == old(self).stream(),
            parsed(r, final(self).index(), grammar::statement(old(self).stream(), old(self).index())),
            r is Ok ==> advances(old(self).stream(), old(self).index(), final(self).index()),
        decreases old(self).tokens.len() - old(self).token_index, 13nat,
    {
        proof {
            grammar::lemma_statement(self.stream(), self.index());
        }
        proof {
            self.lemma_current();
        }
        let current_tok = match self.get_current_token_err() {
            Ok(token) => token,
            Err(e) => {
                return Err(e);
            },
        };
        let statement = if current_tok.value.same(&TokenType::Keyword(Keyword::Return)) {
            self.advance();
            proof {
                self.lemma_current();
            }
            let follower = match self.get_current_token_err() {
                Ok(token) => token,
                Err(e) => {
                    return Err(e);
                },
            };
            if follower.value.same(&TokenType::Semicolon) {
                self.advance();
                proof {
                    self.lemma_current();
                }
                return Ok(Node::ReturnNode(Box::new(ReturnNode::new(None))));
            }
            let expr = match self.gr_expr() {
                Ok(node) => node,
                Err(e) => {
                    return Err(e);
                },
            };
            Node::ReturnNode(Box::new(ReturnNode::new(Some(expr))))
        } else {
            match self.gr_expr() {
                Ok(node) => node,
                Err(e) => {
                    return Err(e);
                },
            }
        };
        proof {
            self.lemma_current();
        }
        self.gr_terminated(statement)
    }

}

} // verus!
