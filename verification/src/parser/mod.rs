//! Parses a sequence of tokens into a syntax tree.
//!
//! The parser is a recursive descent over the token sequence, one function
//! for each rule of [`grammar`]. Each function is proved to give what its
//! rule gives, and to leave the parser behind the tokens that the rule
//! consumed.
pub mod atoms;
pub mod conditionals;
pub mod functions;
pub mod expressions;
pub mod grammar;
pub mod nodes;
pub mod printing;
pub mod progress;
pub mod writer;
pub mod statements;

use vstd::prelude::*;
use vstd::string::StringExecFns;
use crate::errors::{Error, ErrorView};
use crate::lexer::tokens::{token_views, Keyword, Token, TokenType, TokenView};
use crate::parser::grammar::{Parsed, ParsedList};
use crate::parser::nodes::{node_views, BinOpNode, Node, NodeView};

verus! {

broadcast use vstd::std_specs::vec::group_vec_axioms;

/// The view of what [`Parser::parse`] returns.
pub open spec fn node_result(r: Result<Node, Error>) -> Result<NodeView, ErrorView> {
    match r {
        Ok(node) => Ok(node@),
        Err(e) => Err(e@),
    }
}

/// Whether a parsing step that ended at index `end` with `r` did what
/// `expected` says.
pub open spec fn parsed(r: Result<Node, Error>, end: nat, expected: Parsed) -> bool {
    match expected {
        Ok((node, next)) => r is Ok && r->Ok_0@ == node && end == next,
        Err(e) => r is Err && r->Err_0@ == e,
    }
}

/// The same for a step that parses a list of nodes.
pub open spec fn parsed_list(r: Result<Vec<Node>, Error>, end: nat, expected: ParsedList) -> bool {
    match expected {
        Ok((nodes, next)) => r is Ok && node_views(r->Ok_0@) == nodes && end == next,
        Err(e) => r is Err && r->Err_0@ == e,
    }
}

/// The error for a token that stands where `what` is wanted.
pub fn unexpected(what: &str, found: &Token) -> (e: Error)
    ensures
        e@ == grammar::unexpected(what@, found@),
{
    proof {
        reveal(grammar::unexpected);
    }
    let mut message = String::from_str("Expected ");
    message.append(what);
    message.append(", found ");
    message.append("'");
    message.append(found.value.to_string().as_str());
    message.append("'");
    assert(message@ =~= grammar::expected_message(what@, found@.value));
    Error::new_parser(message, &found.position)
}

pub(crate) fn is_logic_op(kind: &TokenType) -> (r: bool)
    ensures
        r == grammar::is_logic_op(kind@),
{
    match kind {
        TokenType::Keyword(Keyword::And) => true,
        TokenType::Keyword(Keyword::Or) => true,
        _ => false,
    }
}

pub(crate) fn is_compare_op(kind: &TokenType) -> (r: bool)
    ensures
        r == grammar::is_compare_op(kind@),
{
    match kind {
        TokenType::EqualEqual => true,
        TokenType::BangEqual => true,
        TokenType::Less => true,
        TokenType::LessEqual => true,
        TokenType::Greater => true,
        TokenType::GreaterEqual => true,
        _ => false,
    }
}

pub(crate) fn is_sum_op(kind: &TokenType) -> (r: bool)
    ensures
        r == grammar::is_sum_op(kind@),
{
    match kind {
        TokenType::Plus => true,
        TokenType::Minus => true,
        _ => false,
    }
}

pub(crate) fn is_product_op(kind: &TokenType) -> (r: bool)
    ensures
        r == grammar::is_product_op(kind@),
{
    match kind {
        TokenType::Star => true,
        TokenType::Slash => true,
        _ => false,
    }
}

pub(crate) fn is_compound_assign(kind: &TokenType) -> (r: bool)
    ensures
        r == grammar::is_compound_assign(kind@),
{
    match kind {
        TokenType::PlusEqual => true,
        TokenType::MinusEqual => true,
        TokenType::StarEqual => true,
        TokenType::SlashEqual => true,
        _ => false,
    }
}

pub(crate) fn closes_block(kind: &TokenType) -> (r: bool)
    ensures
        r == grammar::closes_block(kind@),
{
    match kind {
        TokenType::EOF => true,
        TokenType::RightBrace => true,
        TokenType::RightParen => true,
        TokenType::RightSquare => true,
        _ => false,
    }
}

pub(crate) fn is_identifier(kind: &TokenType) -> (r: bool)
    ensures
        r == (kind@ is Identifier),
{
    match kind {
        TokenType::Identifier(_) => true,
        _ => false,
    }
}

pub(crate) fn binary(left: Node, op: Token, right: Node) -> (r: Node)
    ensures
        r@ == grammar::binary(left@, op@, right@),
{
    Node::BinOpNode(Box::new(BinOpNode::new(left, op, right)))
}

/// The parser: the tokens, and the index of the token that comes next.
pub struct Parser {
    pub(crate) tokens: Vec<Token>,
    pub(crate) token_index: usize,
    pub(crate) current_token: Option<Token>,
}

impl Parser {
    /// The tokens that are parsed.
    pub closed spec fn stream(&self) -> Seq<TokenView> {
        token_views(self.tokens@)
    }

    /// The index of the token that comes next.
    pub closed spec fn index(&self) -> nat {
        self.token_index as nat
    }

    /// There is at least one token, the index is inside the tokens or just
    /// behind them, and the current token is the one at the index.
    pub closed spec fn wf(&self) -> bool {
        &&& self.tokens.len() > 0
        &&& self.token_index <= self.tokens.len()
        &&& self.current_token == if self.token_index < self.tokens.len() {
            Some(self.tokens@[self.token_index as int])
        } else {
            None
        }
    }

    /// The parser reads the same tokens as `before`.
    pub(crate) open spec fn follows(&self, before: &Parser) -> bool {
        self.wf() && self.tokens == before.tokens
    }

    pub(crate) proof fn lemma_current(&self)
        requires
            self.wf(),
        ensures
            self.stream() == token_views(self.tokens@),
            self.stream().len() == self.tokens.len(),
            self.index() == self.token_index,
            self.token_index <= self.tokens.len(),
            match self.current_token {
                Some(token) => grammar::current(self.stream(), self.index()) == Some(token@),
                None => grammar::current(self.stream(), self.index()) is None && self.index()
                    == self.stream().len(),
            },
            self.stream().last() == self.tokens@.last()@,
    {
    }

    /// A parser at the first of `tokens`.
    pub fn new(tokens: Vec<Token>) -> (r: Parser)
        requires
            tokens.len() > 0,
        ensures
            r.stream() == token_views(tokens@),
            r.index() == 0,
            r.wf(),
    {
        let token_index: usize = 0;
        let current_token = Parser::try_get_token(&tokens, 0);
        Parser { tokens, token_index, current_token }
    }

    /// Parses a whole program: statements up to the end marker.
    pub fn parse(&mut self) -> (r: Result<Node, Error>)
        requires
            old(self).wf(),
        ensures
            node_result(r) == grammar::program_from(old(self).stream(), old(self).index()),
            final(self).wf(),
            final(self).stream() == old(self).stream(),
    {
        proof {
            reveal(grammar::statements);
        }
        let res = match self.gr_statements() {
            Ok(node) => node,
            Err(e) => {
                return Err(e);
            },
        };
        proof {
            self.lemma_current();
        }
        match self.get_current_token() {
            Some(token) => {
                if token.value.same(&TokenType::EOF) {
                    Ok(res)
                } else {
                    let mut message = String::from_str("Unexpected token: ");
                    message.append("'");
                    message.append(token.value.to_string().as_str());
                    message.append("'");
                    message.append(", expected EOF");
                    assert(message@ =~= "Unexpected token: "@ + grammar::quoted(token@.value)
                        + ", expected EOF"@);
                    proof {
                        reveal(grammar::trailing_token);
                    }
                    Err(Error::new_parser(message, &token.position))
                }
            },
            None => Err(self.error_missing_token()),
        }
    }

    /// The token at index `pos` of `tokens`, if there is one.
    pub(crate) fn try_get_token(tokens: &Vec<Token>, pos: usize) -> (r: Option<Token>)
        ensures
            r == if pos < tokens.len() {
                Some(tokens@[pos as int])
            } else {
                None
            },
    {
        if pos < tokens.len() {
            Some(tokens[pos].clone())
        } else {
            None
        }
    }

    /// Moves to the next token, and returns it.
    pub(crate) fn advance(&mut self) -> (r: Option<Token>)
        requires
            old(self).wf(),
            old(self).index() < old(self).stream().len(),
        ensures
            final(self).follows(old(self)),
            final(self).stream() == old(self).stream(),
            final(self).index() == old(self).index() + 1,
            r == final(self).current_token,
    {
        self.token_index += 1;
        self.current_token = Parser::try_get_token(&self.tokens, self.token_index);
        self.get_current_token()
    }

    /// The current token, if there is one.
    pub(crate) fn get_current_token(&self) -> (r: Option<Token>)
        ensures
            r == self.current_token,
    {
        match &self.current_token {
            Some(token) => Some(token.clone()),
            None => None,
        }
    }

    /// The current token, or the error for a missing token.
    pub(crate) fn get_current_token_err(&self) -> (r: Result<Token, Error>)
        requires
            self.wf(),
        ensures
            match grammar::current(self.stream(), self.index()) {
                Some(token) => r is Ok && r->Ok_0@ == token && Some(r->Ok_0) == self.current_token,
                None => r is Err && r->Err_0@ == grammar::missing_token(self.stream()),
            },
    {
        proof {
            self.lemma_current();
        }
        match self.get_current_token() {
            Some(token) => Ok(token),
            None => Err(self.error_missing_token()),
        }
    }

    /// The token behind the current one, or the error for a missing token,
    /// which is reported at the token before the current one.
    pub(crate) fn peek_token(&self) -> (r: Result<Token, Error>)
        requires
            self.wf(),
            self.index() > 0,
        ensures
            match grammar::current(self.stream(), self.index() + 1) {
                Some(token) => r is Ok && r->Ok_0@ == token,
                None => r is Err && r->Err_0@ == grammar::parser_error(
                    "Expected token"@,
                    self.stream()[self.index() - 1].position,
                ),
            },
    {
        proof {
            self.lemma_current();
        }
        if self.token_index < self.tokens.len() {
            match Parser::try_get_token(&self.tokens, self.token_index + 1) {
                Some(token) => Ok(token),
                None => Err(
                    Error::new_parser(
                        String::from_str("Expected token"),
                        &self.get_last_token().position,
                    ),
                ),
            }
        } else {
            Err(
                Error::new_parser(String::from_str("Expected token"), &self.get_last_token().position),
            )
        }
    }

    /// The token before the current one.
    pub(crate) fn get_last_token(&self) -> (r: Token)
        requires
            self.wf(),
            self.index() > 0,
        ensures
            r == self.tokens@[self.index() - 1],
    {
        self.tokens[self.token_index - 1].clone()
    }

    /// Whether the parser stands behind the last token.
    pub(crate) fn reached_eof(&self) -> (r: bool)
        requires
            self.wf(),
        ensures
            r == (grammar::current(self.stream(), self.index()) is None),
    {
        proof {
            self.lemma_current();
        }
        match self.current_token {
            Some(_) => false,
            None => true,
        }
    }

    /// The error for a token that is wanted behind the end of the tokens.
    pub(crate) fn error_missing_token(&self) -> (r: Error)
        requires
            self.wf(),
            self.index() == self.stream().len(),
        ensures
            r@ == grammar::missing_token(self.stream()),
    {
        proof {
            self.lemma_current();
            reveal(grammar::missing_token);
        }
        Error::new_parser(String::from_str("Expected token"), &self.get_last_token().position)
    }

    /// Succeeds where the current token is of kind `token_type`. The parser
    /// stays where it is.
    pub(crate) fn expect(&self, token_type: TokenType) -> (r: Result<(), Error>)
        requires
            self.wf(),
        ensures
            match grammar::expect(self.stream(), self.index(), token_type@) {
                None => r is Ok && self.index() < self.stream().len(),
                Some(e) => r is Err && r->Err_0@ == e,
            },
    {
        proof {
            self.lemma_current();
            reveal(grammar::rejection);
        }
        match self.get_current_token() {
            Some(token) => {
                if token.value.same(&token_type) {
                    Ok(())
                } else {
                    let mut what = String::from_str("'");
                    what.append(token_type.to_string().as_str());
                    what.append("'");
                    assert(what@ =~= grammar::quoted(token_type@));
                    Err(unexpected(what.as_str(), &token))
                }
            },
            None => Err(self.error_missing_token()),
        }
    }

}

} // verus!
