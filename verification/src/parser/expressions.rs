//! The rules for expressions, from the logical operators down to the power.
use vstd::prelude::*;

use crate::errors::{Error, ErrorView};
use crate::lexer::tokens::{Keyword, TokenType};
use crate::parser::grammar;
use crate::parser::grammar::advances;
use crate::parser::nodes::{
    AssertNode, Node, NodeView, UnaryOpNode, VarArithmeticAssignmentNode, VarAssignmentNode,
};
use crate::parser::{
    binary, is_compare_op, is_compound_assign, is_identifier, is_logic_op, is_product_op,
    is_sum_op, parsed, unexpected, Parser,
};

verus! {

broadcast use vstd::std_specs::vec::group_vec_axioms;

impl Parser {
    /// An expression.
    pub(crate) fn gr_expr(&mut self) -> (r: Result<Node, Error>)
        requires
            old(self).wf(),
        ensures
            final(self).follows(old(self)),
            final(self).stream() == old(self).stream(),
            parsed(r, final(self).index(), grammar::expr(old(self).stream(), old(self).index())),
            r is Ok ==> advances(old(self).stream(), old(self).index(), final(self).index()),
        decreases old(self).tokens.len() - old(self).token_index, 10nat,
    {
        proof {
            reveal(grammar::expr);
            reveal(grammar::expr_rest);
            reveal(grammar::compare);
        }
        proof {
            self.lemma_current();
        }
        let current_token = match self.get_current_token_err() {
            Ok(token) => token,
            Err(e) => {
                return Err(e);
            },
        };
        if current_token.value.same(&TokenType::Keyword(Keyword::Let)) {
            self.advance();
            proof {
                self.lemma_current();
            }
            let var_name_identifier = match self.get_current_token() {
                Some(token) => {
                    if is_identifier(&token.value) {
                        self.advance();
                        token
                    } else {
                        return Err(unexpected("identifier", &token));
                    }
                },
                None => {
                    return Err(self.error_missing_token());
                },
            };
            proof {
                self.lemma_current();
            }
            let op_token = match self.get_current_token_err() {
                Ok(token) => token,
                Err(e) => {
                    return Err(e);
                },
            };
            if op_token.value.same(&TokenType::Equal) {
                self.advance();
                let expr = match self.gr_expr() {
                    Ok(node) => node,
                    Err(e) => {
                        return Err(e);
                    },
                };
                Ok(
                    Node::VarAssignmentNode(
                        Box::new(VarAssignmentNode::new(var_name_identifier, expr)),
                    ),
                )
            } else if is_compound_assign(&op_token.value) {
                self.advance();
                let expr = match self.gr_expr() {
                    Ok(node) => node,
                    Err(e) => {
                        return Err(e);
                    },
                };
                Ok(
                    Node::VarArithmeticAssignmentNode(
                        Box::new(
                            VarArithmeticAssignmentNode::new(var_name_identifier, op_token, expr),
                        ),
                    ),
                )
            } else {
                Err(unexpected("any equals sign", &op_token))
            }
        } else if current_token.value.same(&TokenType::Keyword(Keyword::Assert)) {
            self.advance();
            let expr = match self.gr_expr() {
                Ok(node) => node,
                Err(e) => {
                    return Err(e);
                },
            };
            Ok(Node::AssertNode(Box::new(AssertNode::new(expr))))
        } else {
            let ghost stream = self.stream();
            let ghost start = self.index();
            let mut left_node = match self.gr_compare_expr() {
                Ok(node) => node,
                Err(e) => {
                    return Err(e);
                },
            };
            let mut open = true;
            while open
                invariant
                    self.follows(old(self)),
                    stream == old(self).stream(),
                    start == old(self).index(),
                    advances(stream, start, self.index()),
                    grammar::expr(stream, start) == grammar::expr_rest(
                        stream,
                        left_node@,
                        self.index(),
                    ),
                    !open ==> grammar::expr_rest(stream, left_node@, self.index()) == Ok::<
                        (NodeView, nat),
                        ErrorView,
                    >((left_node@, self.index())),
                decreases self.tokens.len() - self.token_index + (if open { 1nat } else { 0nat }),
            {
                    proof {
                        reveal(grammar::expr);
                        reveal(grammar::expr_rest);
                        reveal(grammar::compare);
                    }
                proof {
                    self.lemma_current();
                }
                match self.get_current_token() {
                    Some(op_token) => {
                        if is_logic_op(&op_token.value) {
                            self.advance();
                            let right_node = match self.gr_compare_expr() {
                                Ok(node) => node,
                                Err(e) => {
                                    return Err(e);
                                },
                            };
                            left_node = binary(left_node, op_token, right_node);
                        } else {
                            open = false;
                        }
                    },
                    None => {
                        open = false;
                    },
                }
            }
            Ok(left_node)
        }
    }

    /// A comparison.
    pub(crate) fn gr_compare_expr(&mut self) -> (r: Result<Node, Error>)
        requires
            old(self).wf(),
        ensures
            final(self).follows(old(self)),
            final(self).stream() == old(self).stream(),
            parsed(r, final(self).index(), grammar::compare(old(self).stream(), old(self).index())),
            r is Ok ==> advances(old(self).stream(), old(self).index(), final(self).index()),
        decreases old(self).tokens.len() - old(self).token_index, 8nat,
    {
        proof {
            reveal(grammar::compare);
            reveal(grammar::compare_rest);
            reveal(grammar::arithmetic);
        }
        proof {
            self.lemma_current();
        }
        let current_token = match self.get_current_token_err() {
            Ok(token) => token,
            Err(e) => {
                return Err(e);
            },
        };
        if current_token.value.same(&TokenType::Keyword(Keyword::Not)) {
            self.advance();
            let right_node = match self.gr_compare_expr() {
                Ok(node) => node,
                Err(e) => {
                    return Err(e);
                },
            };
            Ok(Node::UnaryOpNode(Box::new(UnaryOpNode::new(current_token, right_node))))
        } else {
            let ghost stream = self.stream();
            let ghost start = self.index();
            let mut left_node = match self.gr_arithmetic_expr() {
                Ok(node) => node,
                Err(e) => {
                    return Err(e);
                },
            };
            let mut open = true;
            while open
                invariant
                    self.follows(old(self)),
                    stream == old(self).stream(),
                    start == old(self).index(),
                    advances(stream, start, self.index()),
                    grammar::compare(stream, start) == grammar::compare_rest(
                        stream,
                        left_node@,
                        self.index(),
                    ),
                    !open ==> grammar::compare_rest(stream, left_node@, self.index()) == Ok::<
                        (NodeView, nat),
                        ErrorView,
                    >((left_node@, self.index())),
                decreases self.tokens.len() - self.token_index + (if open { 1nat } else { 0nat }),
            {
                    proof {
                        reveal(grammar::compare);
                        reveal(grammar::compare_rest);
                        reveal(grammar::arithmetic);
                    }
                proof {
                    self.lemma_current();
                }
                match self.get_current_token() {
                    Some(op_token) => {
                        if is_compare_op(&op_token.value) {
                            self.advance();
                            let right_node = match self.gr_arithmetic_expr() {
                                Ok(node) => node,
                                Err(e) => {
                                    return Err(e);
                                },
                            };
                            left_node = binary(left_node, op_token, right_node);
                        } else {
                            open = false;
                        }
                    },
                    None => {
                        open = false;
                    },
                }
            }
            Ok(left_node)
        }
    }

    /// An arithmetic expression.
    pub(crate) fn gr_arithmetic_expr(&mut self) -> (r: Result<Node, Error>)
        requires
            old(self).wf(),
        ensures
            final(self).follows(old(self)),
            final(self).stream() == old(self).stream(),
            parsed(
                r,
                final(self).index(),
                grammar::arithmetic(old(self).stream(), old(self).index()),
            ),
            r is Ok ==> advances(old(self).stream(), old(self).index(), final(self).index()),
        decreases old(self).tokens.len() - old(self).token_index, 6nat,
    {
        proof {
            reveal(grammar::arithmetic);
            reveal(grammar::arithmetic_rest);
            reveal(grammar::term);
        }
        let ghost stream = self.stream();
        let ghost start = self.index();
        let mut left_node = match self.gr_term() {
            Ok(node) => node,
            Err(e) => {
                return Err(e);
            },
        };
        let mut open = true;
        while open
            invariant
                self.follows(old(self)),
                stream == old(self).stream(),
                start == old(self).index(),
                advances(stream, start, self.index()),
                grammar::arithmetic(stream, start) == grammar::arithmetic_rest(
                    stream,
                    left_node@,
                    self.index(),
                ),
                !open ==> grammar::arithmetic_rest(stream, left_node@, self.index()) == Ok::<
                    (NodeView, nat),
                    ErrorView,
                >((left_node@, self.index())),
            decreases self.tokens.len() - self.token_index + (if open { 1nat } else { 0nat }),
        {
                proof {
                    reveal(grammar::arithmetic);
                    reveal(grammar::arithmetic_rest);
                    reveal(grammar::term);
                }
            proof {
                self.lemma_current();
            }
            match self.get_current_token() {
                Some(op_token) => {
                    if is_sum_op(&op_token.value) {
                        self.advance();
                        let right_node = match self.gr_term() {
                            Ok(node) => node,
                            Err(e) => {
                                return Err(e);
                            },
                        };
                        left_node = binary(left_node, op_token, right_node);
                    } else {
                        open = false;
                    }
                },
                None => {
                    open = false;
                },
            }
        }
        Ok(left_node)
    }

    /// A term.
    pub(crate) fn gr_term(&mut self) -> (r: Result<Node, Error>)
        requires
            old(self).wf(),
        ensures
            final(self).follows(old(self)),
            final(self).stream() == old(self).stream(),
            parsed(r, final(self).index(), grammar::term(old(self).stream(), old(self).index())),
            r is Ok ==> advances(old(self).stream(), old(self).index(), final(self).index()),
        decreases old(self).tokens.len() - old(self).token_index, 4nat,
    {
        proof {
            reveal(grammar::term);
            reveal(grammar::term_rest);
            reveal(grammar::factor);
        }
        let ghost stream = self.stream();
        let ghost start = self.index();
        let mut left_node = match self.gr_factor() {
            Ok(node) => node,
            Err(e) => {
                return Err(e);
            },
        };
        let mut open = true;
        while open
            invariant
                self.follows(old(self)),
                stream == old(self).stream(),
                start == old(self).index(),
                advances(stream, start, self.index()),
                grammar::term(stream, start) == grammar::term_rest(stream, left_node@, self.index()),
                !open ==> grammar::term_rest(stream, left_node@, self.index()) == Ok::<
                    (NodeView, nat),
                    ErrorView,
                >((left_node@, self.index())),
            decreases self.tokens.len() - self.token_index + (if open { 1nat } else { 0nat }),
        {
                proof {
                    reveal(grammar::term);
                    reveal(grammar::term_rest);
                    reveal(grammar::factor);
                }
            proof {
                self.lemma_current();
            }
            match self.get_current_token() {
                Some(op_token) => {
                    if is_product_op(&op_token.value) {
                        self.advance();
                        let right_node = match self.gr_factor() {
                            Ok(node) => node,
                            Err(e) => {
                                return Err(e);
                            },
                        };
                        left_node = binary(left_node, op_token, right_node);
                    } else {
                        open = false;
                    }
                },
                None => {
                    open = false;
                },
            }
        }
        Ok(left_node)
    }

    /// A factor.
    pub(crate) fn gr_factor(&mut self) -> (r: Result<Node, Error>)
        requires
            old(self).wf(),
        ensures
            final(self).follows(old(self)),
            final(self).stream() == old(self).stream(),
            parsed(r, final(self).index(), grammar::factor(old(self).stream(), old(self).index())),
            r is Ok ==> advances(old(self).stream(), old(self).index(), final(self).index()),
        decreases old(self).tokens.len() - old(self).token_index, 2nat,
    {
        proof {
            reveal(grammar::factor);
            reveal(grammar::call);
        }
        let left_node = match self.gr_call() {
            Ok(node) => node,
            Err(e) => {
                return Err(e);
            },
        };
        proof {
            self.lemma_current();
        }
        match self.get_current_token() {
            Some(op_token) => {
                if op_token.value.same(&TokenType::Caret) {
                    self.advance();
                    let right_node = match self.gr_factor() {
                        Ok(node) => node,
                        Err(e) => {
                            return Err(e);
                        },
                    };
                    Ok(binary(left_node, op_token, right_node))
                } else {
                    Ok(left_node)
                }
            },
            None => Ok(left_node),
        }
    }

}

} // verus!
