//! The rule for `func`.
use vstd::prelude::*;

use crate::errors::{Error, ErrorView};
use crate::lexer::tokens::{token_views, Token, TokenKind, TokenType, TokenView};
use crate::parser::grammar;
use crate::parser::grammar::advances;
use crate::parser::nodes::{FuncDefNode, Node};
use crate::parser::{is_identifier, parsed, unexpected, Parser};

verus! {

broadcast use vstd::std_specs::vec::group_vec_axioms;

impl Parser {
    /// A function definition, behind its keyword.
    pub(crate) fn gr_func_def(&mut self) -> (r: Result<Node, Error>)
        requires
            old(self).wf(),
        ensures
            final(self).follows(old(self)),
            final(self).stream() == old(self).stream(),
            parsed(r, final(self).index(), grammar::func_def(old(self).stream(), old(self).index())),
            r is Ok ==> advances(old(self).stream(), old(self).index(), final(self).index()),
        decreases old(self).tokens.len() - old(self).token_index, 0nat,
    {
        proof {
            grammar::lemma_func_def(self.stream(), self.index());
        }
        let ghost stream = self.stream();
        let ghost start = self.index();
        proof {
            self.lemma_current();
        }
        let current_tok = match self.get_current_token_err() {
            Ok(token) => token,
            Err(e) => {
                return Err(e);
            },
        };
        if !is_identifier(&current_tok.value) {
            return Err(unexpected("identifier", &current_tok));
        }
        let identifier = current_tok;
        self.advance();
        match self.expect(TokenType::LeftParen) {
            Ok(_) => {},
            Err(e) => {
                return Err(e);
            },
        }
        self.advance();
        let mut parameters: Vec<Token> = Vec::new();
        proof {
            self.lemma_current();
        }
        let current_tok = match self.get_current_token_err() {
            Ok(token) => token,
            Err(e) => {
                return Err(e);
            },
        };
        if is_identifier(&current_tok.value) {
            parameters.push(current_tok);
            self.advance();
            assert(token_views(parameters@) =~= seq![current_tok@]);
            proof {
                grammar::lemma_parameters_rest(stream, self.index(), token_views(parameters@));
            }
        } else {
            assert(token_views(parameters@) =~= Seq::<TokenView>::empty());
        }
        let mut open = true;
        while open
            invariant
                self.follows(old(self)),
                stream == old(self).stream(),
                start == old(self).index(),
                start + 2 <= self.index(),
                grammar::current(stream, start) == Some(identifier@),
                identifier@.value is Identifier,
                grammar::accepts(stream, start + 1, TokenKind::LeftParen),
                grammar::parameters(stream, start + 2) == grammar::parameters_rest(
                    stream,
                    self.index(),
                    token_views(parameters@),
                ),
                !open ==> self.index() < stream.len() && grammar::parameters_rest(
                    stream,
                    self.index(),
                    token_views(parameters@),
                ) == Ok::<(Seq<TokenView>, nat), ErrorView>(
                    (token_views(parameters@), self.index()),
                ),
            decreases self.tokens.len() - self.token_index + (if open { 1nat } else { 0nat }),
        {
                proof {
                    reveal(grammar::func_def);
                    reveal(grammar::parameters_rest);
                    reveal(grammar::statements);
                }
            proof {
                self.lemma_current();
            }
            let separator = match self.get_current_token_err() {
                Ok(token) => token,
                Err(e) => {
                    return Err(e);
                },
            };
            if separator.value.same(&TokenType::Comma) {
                self.advance();
                proof {
                    self.lemma_current();
                }
                let current_tok = match self.get_current_token_err() {
                    Ok(token) => token,
                    Err(e) => {
                        return Err(e);
                    },
                };
                if is_identifier(&current_tok.value) {
                    let ghost before = token_views(parameters@);
                    parameters.push(current_tok);
                    self.advance();
                    assert(token_views(parameters@) =~= before.push(current_tok@));
                } else {
                    return Err(unexpected("identifier", &current_tok));
                }
            } else {
                open = false;
            }
        }
        match self.expect(TokenType::RightParen) {
            Ok(_) => {},
            Err(e) => {
                return Err(e);
            },
        }
        self.advance();
        match self.expect(TokenType::LeftBrace) {
            Ok(_) => {},
            Err(e) => {
                return Err(e);
            },
        }
        self.advance();
        proof {
            self.lemma_current();
        }
        let follower = match self.get_current_token_err() {
            Ok(token) => token,
            Err(e) => {
                return Err(e);
            },
        };
        let body: Option<Node> = if follower.value.same(&TokenType::RightBrace) {
            None
        } else {
            match self.gr_statements() {
                Ok(node) => Some(node),
                Err(e) => {
                    return Err(e);
                },
            }
        };
        match self.expect(TokenType::RightBrace) {
            Ok(_) => {},
            Err(e) => {
                return Err(e);
            },
        }
        self.advance();
        proof {
            self.lemma_current();
        }
        Ok(Node::FuncDefNode(Box::new(FuncDefNode::new(identifier, parameters, body))))
    }
}

} // verus!
