//! The rule for `if`.
use vstd::prelude::*;

use crate::errors::Error;
use crate::lexer::tokens::{Keyword, TokenType};
use crate::parser::grammar;
use crate::parser::grammar::advances;
use crate::parser::nodes::{IfExprNode, Node};
use crate::parser::{parsed, Parser};

verus! {

broadcast use vstd::std_specs::vec::group_vec_axioms;

impl Parser {
    /// An expression between `{` and `}`.
    pub(crate) fn gr_braced(&mut self) -> (r: Result<Node, Error>)
        requires
            old(self).wf(),
        ensures
            final(self).follows(old(self)),
            final(self).stream() == old(self).stream(),
            parsed(r, final(self).index(), grammar::braced(old(self).stream(), old(self).index())),
            r is Ok ==> advances(old(self).stream(), old(self).index(), final(self).index()),
        decreases old(self).tokens.len() - old(self).token_index, 11nat,
    {
        proof {
            reveal(grammar::braced);
            reveal(grammar::expr);
        }
        match self.expect(TokenType::LeftBrace) {
            Ok(_) => {},
            Err(e) => {
                return Err(e);
            },
        }
        self.advance();
        let inner = match self.gr_expr() {
            Ok(node) => node,
            Err(e) => {
                return Err(e);
            },
        };
        match self.expect(TokenType::RightBrace) {
            Ok(_) => {},
            Err(e) => {
                return Err(e);
            },
        }
        self.advance();
        Ok(inner)
    }

    /// An `if`, behind its keyword.
    pub(crate) fn gr_if_expr(&mut self) -> (r: Result<Node, Error>)
        requires
            old(self).wf(),
        ensures
            final(self).follows(old(self)),
            final(self).stream() == old(self).stream(),
            parsed(r, final(self).index(), grammar::if_expr(old(self).stream(), old(self).index())),
            r is Ok ==> advances(old(self).stream(), old(self).index(), final(self).index()),
        decreases old(self).tokens.len() - old(self).token_index, 12nat,
    {
        proof {
            grammar::lemma_if_expr(self.stream(), self.index());
        }
        let mut else_case: Option<Node> = None;
        let condition = match self.gr_expr() {
            Ok(node) => node,
            Err(e) => {
                return Err(e);
            },
        };
        let if_true = match self.gr_braced() {
            Ok(node) => node,
            Err(e) => {
                return Err(e);
            },
        };
        proof {
            self.lemma_current();
        }
        match self.get_current_token() {
            Some(token) => {
                if token.value.same(&TokenType::Keyword(Keyword::Else)) {
                    self.advance();
                    proof {
                        self.lemma_current();
                    }
                    let follower = match self.get_current_token_err() {
                        Ok(token) => token,
                        Err(e) => {
                            return Err(e);
                        },
                    };
                    if follower.value.same(&TokenType::Keyword(Keyword::If)) {
                        self.advance();
                        else_case = match self.gr_if_expr() {
                            Ok(node) => Some(node),
                            Err(e) => {
                                return Err(e);
                            },
                        };
                    } else {
                        else_case = match self.gr_braced() {
                            Ok(node) => Some(node),
                            Err(e) => {
                                return Err(e);
                            },
                        };
                    }
                }
            },
            None => {},
        }
        Ok(Node::IfExprNode(Box::new(IfExprNode::new(condition, if_true, else_case))))
    }

}

} // verus!
