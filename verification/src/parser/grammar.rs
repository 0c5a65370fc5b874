//! The grammar of the language, as functions from a sequence of tokens and
//! an index to the tree that starts there and the index behind it.
//!
//! There is one function for every level of precedence, from [`statements`]
//! down to [`atom`]. The first error ends the parse: nothing is recovered.
//! Every function consumes at least one token when it succeeds (a sequence
//! of statements may be empty and consume none); the functions say so in the
//! test [`advances`], which never fails and which shows that they terminate.
use vstd::prelude::*;
use crate::errors::{ErrorType, ErrorView};
use crate::lexer::tokens::{kind_text, Keyword, TokenKind, TokenPosition, TokenView};
use crate::parser::nodes::NodeView;

verus! {

/// What a grammar function gives: a tree and the index of the first token
/// behind it, or the error.
pub type Parsed = Result<(NodeView, nat), ErrorView>;

/// What a grammar function for a list gives: the trees of the list and the
/// index of the first token behind them, or the error.
pub type ParsedList = Result<(Seq<NodeView>, nat), ErrorView>;

/// The token at `index`, if the sequence is that long.
pub open spec fn current(tokens: Seq<TokenView>, index: nat) -> Option<TokenView> {
    if index < tokens.len() {
        Some(tokens[index as int])
    } else {
        None
    }
}

/// An error of the parser.
pub open spec fn parser_error(message: Seq<char>, position: TokenPosition) -> ErrorView {
    ErrorView { error_type: ErrorType::ParserError, error_message: message, position: position }
}

/// The error for a token that is wanted behind the end of the sequence: it
/// is reported at the last token.
#[verifier::opaque]
pub open spec fn missing_token(tokens: Seq<TokenView>) -> ErrorView {
    parser_error("Expected token"@, tokens.last().position)
}

/// The text of a token between single quotes.
pub open spec fn quoted(kind: TokenKind) -> Seq<char> {
    "'"@ + kind_text(kind) + "'"@
}

/// The message of the error for a token that stands where `what` is wanted.
pub open spec fn expected_message(what: Seq<char>, found: TokenKind) -> Seq<char> {
    "Expected "@ + what + ", found "@ + quoted(found)
}

/// The error for a token that stands where `what` is wanted: it names the
/// token that was found and is reported at that token.
#[verifier::opaque]
pub open spec fn unexpected(what: Seq<char>, found: TokenView) -> ErrorView {
    parser_error(expected_message(what, found.value), found.position)
}

/// The error for a token behind the last statement that is not the end
/// marker.
#[verifier::opaque]
pub open spec fn trailing_token(found: TokenView) -> ErrorView {
    parser_error("Unexpected token: "@ + quoted(found.value) + ", expected EOF"@, found.position)
}

/// Whether the token at `index` is of kind `kind`.
pub open spec fn accepts(tokens: Seq<TokenView>, index: nat, kind: TokenKind) -> bool {
    index < tokens.len() && tokens[index as int].value == kind
}

/// The error for a token of kind `kind` that is wanted at `index` and is not
/// there.
#[verifier::opaque]
pub open spec fn rejection(tokens: Seq<TokenView>, index: nat, kind: TokenKind) -> ErrorView {
    match current(tokens, index) {
        Some(token) => unexpected(quoted(kind), token),
        None => missing_token(tokens),
    }
}

/// `None` where the token at `index` is of kind `kind`, else the error.
pub open spec fn expect(tokens: Seq<TokenView>, index: nat, kind: TokenKind) -> Option<ErrorView> {
    if accepts(tokens, index, kind) {
        None
    } else {
        Some(rejection(tokens, index, kind))
    }
}

/// Whether a parse that began at `index` and ended at `next` consumed a
/// token and stayed inside the sequence.
pub open spec fn advances(tokens: Seq<TokenView>, index: nat, next: nat) -> bool {
    index < next <= tokens.len()
}

/// What stands for a parse that consumed nothing. No parse gives it.
pub open spec fn no_progress() -> ErrorView {
    parser_error("Parser made no progress"@, TokenPosition::internal())
}

/// `and` and `or`.
pub open spec fn is_logic_op(kind: TokenKind) -> bool {
    kind == TokenKind::Keyword(Keyword::And) || kind == TokenKind::Keyword(Keyword::Or)
}

/// The relational operators.
pub open spec fn is_compare_op(kind: TokenKind) -> bool {
    kind == TokenKind::EqualEqual || kind == TokenKind::BangEqual || kind == TokenKind::Less
        || kind == TokenKind::LessEqual || kind == TokenKind::Greater || kind
        == TokenKind::GreaterEqual
}

/// `+` and `-`.
pub open spec fn is_sum_op(kind: TokenKind) -> bool {
    kind == TokenKind::Plus || kind == TokenKind::Minus
}

/// `*` and `/`.
pub open spec fn is_product_op(kind: TokenKind) -> bool {
    kind == TokenKind::Star || kind == TokenKind::Slash
}

/// `+=`, `-=`, `*=` and `/=`.
pub open spec fn is_compound_assign(kind: TokenKind) -> bool {
    kind == TokenKind::PlusEqual || kind == TokenKind::MinusEqual || kind == TokenKind::StarEqual
        || kind == TokenKind::SlashEqual
}

/// The tokens that end a sequence of statements without belonging to it.
pub open spec fn closes_block(kind: TokenKind) -> bool {
    kind == TokenKind::EOF || kind == TokenKind::RightBrace || kind == TokenKind::RightParen
        || kind == TokenKind::RightSquare
}

/// The operator `op` between its operands.
pub open spec fn binary(left: NodeView, op: TokenView, right: NodeView) -> NodeView {
    NodeView::BinOp { left: Box::new(left), op: op, right: Box::new(right) }
}

/// The operator `op` in front of the operand that was parsed behind it.
pub open spec fn unary(op: TokenView, operand: Parsed) -> Parsed {
    match operand {
        Err(e) => Err(e),
        Ok((node, next)) => Ok((NodeView::UnaryOp { op: op, right: Box::new(node) }, next)),
    }
}

/// Atom: a literal, a unary `+` or `-` with its atom, an expression in
/// parentheses, a list in square brackets, a name, an `if` or a `func`.
#[verifier::opaque]
pub open spec fn atom(tokens: Seq<TokenView>, index: nat) -> Parsed
    decreases tokens.len() - index, 0nat,
{
    match current(tokens, index) {
        None => Err(missing_token(tokens)),
        Some(token) => match token.value {
            TokenKind::Integer(_) => Ok((NodeView::Number { token: token }, index + 1)),
            TokenKind::Float(_) => Ok((NodeView::Number { token: token }, index + 1)),
            TokenKind::String(_) => Ok((NodeView::Text { token: token }, index + 1)),
            TokenKind::Plus => unary(token, atom(tokens, index + 1)),
            TokenKind::Minus => unary(token, atom(tokens, index + 1)),
            TokenKind::LeftParen => match expr(tokens, index + 1) {
                Err(e) => Err(e),
                Ok((inner, next)) => match expect(tokens, next, TokenKind::RightParen) {
                    Some(e) => Err(e),
                    None => Ok((inner, next + 1)),
                },
            },
            TokenKind::LeftSquare => list_expr(tokens, index + 1),
            TokenKind::Identifier(_) => Ok((NodeView::VarAccess { identifier: token }, index + 1)),
            TokenKind::Keyword(Keyword::If) => if_expr(tokens, index + 1),
            TokenKind::Keyword(Keyword::Func) => func_def(tokens, index + 1),
            _ => Err(unexpected("atom"@, token)),
        },
    }
}

/// Call: an atom, and behind it, if a `(` follows, the arguments up to `)`.
/// A token must follow the atom.
#[verifier::opaque]
pub open spec fn call(tokens: Seq<TokenView>, index: nat) -> Parsed
    decreases tokens.len() - index, 1nat,
{
    match atom(tokens, index) {
        Err(e) => Err(e),
        Ok((callee, next)) => match current(tokens, next) {
            None => Err(missing_token(tokens)),
            Some(token) => if token.value == TokenKind::LeftParen {
                if advances(tokens, index, next) {
                    match items(tokens, next + 1, TokenKind::RightParen, Seq::empty()) {
                        Err(e) => Err(e),
                        Ok((args, close)) => Ok(
                            (NodeView::FuncCall { func_node: Box::new(callee), args: args }, close + 1),
                        ),
                    }
                } else {
                    Err(no_progress())
                }
            } else {
                Ok((callee, next))
            },
        },
    }
}

/// Factor: a call, and behind it, if a `^` follows, the factor that it is
/// raised to. The power so groups to the right.
#[verifier::opaque]
pub open spec fn factor(tokens: Seq<TokenView>, index: nat) -> Parsed
    decreases tokens.len() - index, 2nat,
{
    match call(tokens, index) {
        Err(e) => Err(e),
        Ok((left, next)) => match current(tokens, next) {
            None => Ok((left, next)),
            Some(op) => if op.value == TokenKind::Caret {
                if advances(tokens, index, next) {
                    match factor(tokens, next + 1) {
                        Err(e) => Err(e),
                        Ok((right, end)) => Ok((binary(left, op, right), end)),
                    }
                } else {
                    Err(no_progress())
                }
            } else {
                Ok((left, next))
            },
        },
    }
}

/// The rest of a term behind its factors so far, which make up `left`.
#[verifier::opaque]
pub open spec fn term_rest(tokens: Seq<TokenView>, left: NodeView, index: nat) -> Parsed
    decreases tokens.len() - index, 3nat,
{
    match current(tokens, index) {
        None => Ok((left, index)),
        Some(op) => if is_product_op(op.value) {
            match factor(tokens, index + 1) {
                Err(e) => Err(e),
                Ok((right, next)) => if advances(tokens, index, next) {
                    term_rest(tokens, binary(left, op, right), next)
                } else {
                    Err(no_progress())
                },
            }
        } else {
            Ok((left, index))
        },
    }
}

/// Term: factors joined by `*` and `/`, grouped to the left.
#[verifier::opaque]
pub open spec fn term(tokens: Seq<TokenView>, index: nat) -> Parsed
    decreases tokens.len() - index, 4nat,
{
    match factor(tokens, index) {
        Err(e) => Err(e),
        Ok((left, next)) => if advances(tokens, index, next) {
            term_rest(tokens, left, next)
        } else {
            Err(no_progress())
        },
    }
}

/// The rest of an arithmetic expression behind its terms so far.
#[verifier::opaque]
pub open spec fn arithmetic_rest(tokens: Seq<TokenView>, left: NodeView, index: nat) -> Parsed
    decreases tokens.len() - index, 5nat,
{
    match current(tokens, index) {
        None => Ok((left, index)),
        Some(op) => if is_sum_op(op.value) {
            match term(tokens, index + 1) {
                Err(e) => Err(e),
                Ok((right, next)) => if advances(tokens, index, next) {
                    arithmetic_rest(tokens, binary(left, op, right), next)
                } else {
                    Err(no_progress())
                },
            }
        } else {
            Ok((left, index))
        },
    }
}

/// Arithmetic expression: terms joined by `+` and `-`, grouped to the left.
#[verifier::opaque]
pub open spec fn arithmetic(tokens: Seq<TokenView>, index: nat) -> Parsed
    decreases tokens.len() - index, 6nat,
{
    match term(tokens, index) {
        Err(e) => Err(e),
        Ok((left, next)) => if advances(tokens, index, next) {
            arithmetic_rest(tokens, left, next)
        } else {
            Err(no_progress())
        },
    }
}

/// The rest of a comparison behind its arithmetic expressions so far.
#[verifier::opaque]
pub open spec fn compare_rest(tokens: Seq<TokenView>, left: NodeView, index: nat) -> Parsed
    decreases tokens.len() - index, 7nat,
{
    match current(tokens, index) {
        None => Ok((left, index)),
        Some(op) => if is_compare_op(op.value) {
            match arithmetic(tokens, index + 1) {
                Err(e) => Err(e),
                Ok((right, next)) => if advances(tokens, index, next) {
                    compare_rest(tokens, binary(left, op, right), next)
                } else {
                    Err(no_progress())
                },
            }
        } else {
            Ok((left, index))
        },
    }
}

/// Comparison: `not` in front of a comparison, or arithmetic expressions
/// joined by `==`, `!=`, `<`, `<=`, `>` and `>=`, grouped to the left.
#[verifier::opaque]
pub open spec fn compare(tokens: Seq<TokenView>, index: nat) -> Parsed
    decreases tokens.len() - index, 8nat,
{
    match current(tokens, index) {
        None => Err(missing_token(tokens)),
        Some(token) => if token.value == TokenKind::Keyword(Keyword::Not) {
            unary(token, compare(tokens, index + 1))
        } else {
            match arithmetic(tokens, index) {
                Err(e) => Err(e),
                Ok((left, next)) => if advances(tokens, index, next) {
                    compare_rest(tokens, left, next)
                } else {
                    Err(no_progress())
                },
            }
        },
    }
}

/// The rest of an expression behind its comparisons so far.
#[verifier::opaque]
pub open spec fn expr_rest(tokens: Seq<TokenView>, left: NodeView, index: nat) -> Parsed
    decreases tokens.len() - index, 9nat,
{
    match current(tokens, index) {
        None => Ok((left, index)),
        Some(op) => if is_logic_op(op.value) {
            match compare(tokens, index + 1) {
                Err(e) => Err(e),
                Ok((right, next)) => if advances(tokens, index, next) {
                    expr_rest(tokens, binary(left, op, right), next)
                } else {
                    Err(no_progress())
                },
            }
        } else {
            Ok((left, index))
        },
    }
}

/// Expression: `let name = expression` (or with `+=`, `-=`, `*=`, `/=`),
/// `assert expression`, or comparisons joined by `and` and `or`, grouped to
/// the left.
#[verifier::opaque]
pub open spec fn expr(tokens: Seq<TokenView>, index: nat) -> Parsed
    decreases tokens.len() - index, 10nat,
{
    match current(tokens, index) {
        None => Err(missing_token(tokens)),
        Some(token) => if token.value == TokenKind::Keyword(Keyword::Let) {
            match current(tokens, index + 1) {
                None => Err(missing_token(tokens)),
                Some(name) => if name.value is Identifier {
                    match current(tokens, index + 2) {
                        None => Err(missing_token(tokens)),
                        Some(op) => if op.value == TokenKind::Equal {
                            match expr(tokens, index + 3) {
                                Err(e) => Err(e),
                                Ok((value, next)) => Ok(
                                    (
                                        NodeView::VarAssignment {
                                            identifier: name,
                                            value: Box::new(value),
                                        },
                                        next,
                                    ),
                                ),
                            }
                        } else if is_compound_assign(op.value) {
                            match expr(tokens, index + 3) {
                                Err(e) => Err(e),
                                Ok((value, next)) => Ok(
                                    (
                                        NodeView::VarArithmeticAssignment {
                                            identifier: name,
                                            op: op,
                                            value: Box::new(value),
                                        },
                                        next,
                                    ),
                                ),
                            }
                        } else {
                            Err(unexpected("any equals sign"@, op))
                        },
                    }
                } else {
                    Err(unexpected("identifier"@, name))
                },
            }
        } else if token.value == TokenKind::Keyword(Keyword::Assert) {
            match expr(tokens, index + 1) {
                Err(e) => Err(e),
                Ok((condition, next)) => Ok(
                    (NodeView::Assert { condition: Box::new(condition) }, next),
                ),
            }
        } else {
            match compare(tokens, index) {
                Err(e) => Err(e),
                Ok((left, next)) => if advances(tokens, index, next) {
                    expr_rest(tokens, left, next)
                } else {
                    Err(no_progress())
                },
            }
        },
    }
}

/// The expressions of a list up to the token `close`, behind the
/// expressions `found`: a comma may follow each one and need not. The index
/// that is given is that of `close`.
#[verifier::opaque]
pub open spec fn items(tokens: Seq<TokenView>, index: nat, close: TokenKind, found: Seq<NodeView>) -> ParsedList
    decreases tokens.len() - index, 11nat,
{
    match current(tokens, index) {
        None => Err(missing_token(tokens)),
        Some(token) => if token.value == close {
            Ok((found, index))
        } else {
            match expr(tokens, index) {
                Err(e) => Err(e),
                Ok((item, next)) => if advances(tokens, index, next) {
                    match current(tokens, next) {
                        None => Err(missing_token(tokens)),
                        Some(separator) => if separator.value == TokenKind::Comma {
                            items(tokens, next + 1, close, found.push(item))
                        } else {
                            items(tokens, next, close, found.push(item))
                        },
                    }
                } else {
                    Err(no_progress())
                },
            }
        },
    }
}

/// List: the expressions up to `]`. The `[` stands before `index`.
#[verifier::opaque]
pub open spec fn list_expr(tokens: Seq<TokenView>, index: nat) -> Parsed
    decreases tokens.len() - index, 12nat,
{
    match items(tokens, index, TokenKind::RightSquare, Seq::empty()) {
        Err(e) => Err(e),
        Ok((elements, close)) => Ok((NodeView::ListExpr { elements: elements }, close + 1)),
    }
}

/// `{ expression }` from `index` on.
#[verifier::opaque]
pub open spec fn braced(tokens: Seq<TokenView>, index: nat) -> Parsed
    decreases tokens.len() - index, 11nat,
{
    match expect(tokens, index, TokenKind::LeftBrace) {
        Some(e) => Err(e),
        None => match expr(tokens, index + 1) {
            Err(e) => Err(e),
            Ok((inner, next)) => match expect(tokens, next, TokenKind::RightBrace) {
                Some(e) => Err(e),
                None => Ok((inner, next + 1)),
            },
        },
    }
}

/// If: a condition, `{ expression }`, and an optional `else` that is
/// followed by another `if` or by `{ expression }`. The `if` stands before
/// `index`.
#[verifier::opaque]
pub open spec fn if_expr(tokens: Seq<TokenView>, index: nat) -> Parsed
    decreases tokens.len() - index, 12nat,
{
    match expr(tokens, index) {
        Err(e) => Err(e),
        Ok((condition, next)) => if advances(tokens, index, next) {
            match braced(tokens, next) {
                Err(e) => Err(e),
                Ok((if_true, end)) => if advances(tokens, next, end) {
                    if current(tokens, end) is Some && current(tokens, end)->Some_0.value
                        == TokenKind::Keyword(Keyword::Else) {
                        match current(tokens, end + 1) {
                            None => Err(missing_token(tokens)),
                            Some(token) => {
                                let other = if token.value == TokenKind::Keyword(Keyword::If) {
                                    if_expr(tokens, end + 2)
                                } else {
                                    braced(tokens, end + 1)
                                };
                                match other {
                                    Err(e) => Err(e),
                                    Ok((if_false, last)) => Ok(
                                        (
                                            NodeView::IfExpr {
                                                condition: Box::new(condition),
                                                if_true: Box::new(if_true),
                                                if_false: Some(Box::new(if_false)),
                                            },
                                            last,
                                        ),
                                    ),
                                }
                            },
                        }
                    } else {
                        Ok(
                            (
                                NodeView::IfExpr {
                                    condition: Box::new(condition),
                                    if_true: Box::new(if_true),
                                    if_false: None,
                                },
                                end,
                            ),
                        )
                    }
                } else {
                    Err(no_progress())
                },
            }
        } else {
            Err(no_progress())
        },
    }
}

/// The parameters of a function behind the first: each one a comma and a
/// name.
#[verifier::opaque]
pub open spec fn parameters_rest(tokens: Seq<TokenView>, index: nat, found: Seq<TokenView>) -> Result<(Seq<TokenView>, nat), ErrorView>
    decreases tokens.len() - index,
{
    match current(tokens, index) {
        None => Err(missing_token(tokens)),
        Some(token) => if token.value == TokenKind::Comma {
            match current(tokens, index + 1) {
                None => Err(missing_token(tokens)),
                Some(name) => if name.value is Identifier {
                    parameters_rest(tokens, index + 2, found.push(name))
                } else {
                    Err(unexpected("identifier"@, name))
                },
            }
        } else {
            Ok((found, index))
        },
    }
}

/// The parameters of a function, from the token behind `(` on: nothing, or a
/// name and then each further one behind a comma.
pub open spec fn parameters(tokens: Seq<TokenView>, index: nat) -> Result<(Seq<TokenView>, nat), ErrorView> {
    match current(tokens, index) {
        None => Err(missing_token(tokens)),
        Some(token) => if token.value is Identifier {
            parameters_rest(tokens, index + 1, seq![token])
        } else {
            parameters_rest(tokens, index, Seq::empty())
        },
    }
}

/// Function definition: a name, the parameters in parentheses, and the body
/// in braces, which may be empty. The `func` stands before `index`.
#[verifier::opaque]
pub open spec fn func_def(tokens: Seq<TokenView>, index: nat) -> Parsed
    decreases tokens.len() - index, 0nat,
{
    match current(tokens, index) {
        None => Err(missing_token(tokens)),
        Some(name) => if name.value is Identifier {
            match expect(tokens, index + 1, TokenKind::LeftParen) {
                Some(e) => Err(e),
                None => match parameters(tokens, index + 2) {
                    Err(e) => Err(e),
                    Ok((names, close)) => match expect(tokens, close, TokenKind::RightParen) {
                        Some(e) => Err(e),
                        None => match expect(tokens, close + 1, TokenKind::LeftBrace) {
                            Some(e) => Err(e),
                            None => match current(tokens, close + 2) {
                                None => Err(missing_token(tokens)),
                                Some(token) => if token.value == TokenKind::RightBrace {
                                    Ok(
                                        (
                                            NodeView::FuncDef {
                                                identifier: name,
                                                parameters: names,
                                                body: None,
                                            },
                                            close + 3,
                                        ),
                                    )
                                } else if close > index {
                                    match statements(tokens, close + 2) {
                                        Err(e) => Err(e),
                                        Ok((body, end)) => match expect(
                                            tokens,
                                            end,
                                            TokenKind::RightBrace,
                                        ) {
                                            Some(e) => Err(e),
                                            None => Ok(
                                                (
                                                    NodeView::FuncDef {
                                                        identifier: name,
                                                        parameters: names,
                                                        body: Some(Box::new(body)),
                                                    },
                                                    end + 1,
                                                ),
                                            ),
                                        },
                                    }
                                } else {
                                    Err(no_progress())
                                },
                            },
                        },
                    },
                },
            }
        } else {
            Err(unexpected("identifier"@, name))
        },
    }
}

/// The node `node`, where a `;` stands at `index`.
pub open spec fn terminated(tokens: Seq<TokenView>, node: NodeView, index: nat) -> Parsed {
    match expect(tokens, index, TokenKind::Semicolon) {
        Some(e) => Err(e),
        None => Ok((node, index + 1)),
    }
}

/// Statement: an expression and `;`; or `return` and `;`, which returns no
/// value; or `return`, an expression and `;`.
#[verifier::opaque]
pub open spec fn statement(tokens: Seq<TokenView>, index: nat) -> Parsed
    decreases tokens.len() - index, 13nat,
{
    match current(tokens, index) {
        None => Err(missing_token(tokens)),
        Some(token) => if token.value == TokenKind::Keyword(Keyword::Return) {
            match current(tokens, index + 1) {
                None => Err(missing_token(tokens)),
                Some(follower) => if follower.value == TokenKind::Semicolon {
                    Ok((NodeView::Return { returned: None }, index + 2))
                } else {
                    match expr(tokens, index + 1) {
                        Err(e) => Err(e),
                        Ok((value, next)) => terminated(
                            tokens,
                            NodeView::Return { returned: Some(Box::new(value)) },
                            next,
                        ),
                    }
                },
            }
        } else {
            match expr(tokens, index) {
                Err(e) => Err(e),
                Ok((node, next)) => terminated(tokens, node, next),
            }
        },
    }
}

/// The statements from `index` on, behind the statements `found`, up to the
/// end of the tokens or a token that closes a block.
#[verifier::opaque]
pub open spec fn statements_from(tokens: Seq<TokenView>, index: nat, found: Seq<NodeView>) -> ParsedList
    decreases tokens.len() - index, 14nat,
{
    match current(tokens, index) {
        None => Ok((found, index)),
        Some(token) => if closes_block(token.value) {
            Ok((found, index))
        } else {
            match statement(tokens, index) {
                Err(e) => Err(e),
                Ok((node, next)) => if advances(tokens, index, next) {
                    statements_from(tokens, next, found.push(node))
                } else {
                    Err(no_progress())
                },
            }
        },
    }
}

/// Statements: a sequence of statements, which may be empty.
#[verifier::opaque]
pub open spec fn statements(tokens: Seq<TokenView>, index: nat) -> Parsed
    decreases tokens.len() - index, 15nat,
{
    match statements_from(tokens, index, Seq::empty()) {
        Err(e) => Err(e),
        Ok((found, next)) => Ok((NodeView::Statements { statements: found }, next)),
    }
}

/// A program from `index` on: statements, and behind them the end marker.
pub open spec fn program_from(tokens: Seq<TokenView>, index: nat) -> Result<NodeView, ErrorView> {
    match statements(tokens, index) {
        Err(e) => Err(e),
        Ok((node, next)) => match current(tokens, next) {
            None => Err(missing_token(tokens)),
            Some(token) => if token.value == TokenKind::EOF {
                Ok(node)
            } else {
                Err(trailing_token(token))
            },
        },
    }
}

/// The tree of a whole program.
pub open spec fn program(tokens: Seq<TokenView>) -> Result<NodeView, ErrorView> {
    program_from(tokens, 0)
}

/// The rule [`atom`], unfolded once.
pub proof fn lemma_atom(tokens: Seq<TokenView>, index: nat)
    ensures
        atom(tokens, index) == ({
            match current(tokens, index) {
                None => Err(missing_token(tokens)),
                Some(token) => match token.value {
                    TokenKind::Integer(_) => Ok((NodeView::Number { token: token }, index + 1)),
                    TokenKind::Float(_) => Ok((NodeView::Number { token: token }, index + 1)),
                    TokenKind::String(_) => Ok((NodeView::Text { token: token }, index + 1)),
                    TokenKind::Plus => unary(token, atom(tokens, index + 1)),
                    TokenKind::Minus => unary(token, atom(tokens, index + 1)),
                    TokenKind::LeftParen => match expr(tokens, index + 1) {
                        Err(e) => Err(e),
                        Ok((inner, next)) => match expect(tokens, next, TokenKind::RightParen) {
                            Some(e) => Err(e),
                            None => Ok((inner, next + 1)),
                        },
                    },
                    TokenKind::LeftSquare => list_expr(tokens, index + 1),
                    TokenKind::Identifier(_) => Ok((NodeView::VarAccess { identifier: token }, index + 1)),
                    TokenKind::Keyword(Keyword::If) => if_expr(tokens, index + 1),
                    TokenKind::Keyword(Keyword::Func) => func_def(tokens, index + 1),
                    _ => Err(unexpected("atom"@, token)),
                },
            }
        }),
{
    reveal(atom);
    reveal(expr);
    reveal(list_expr);
    reveal(if_expr);
    reveal(func_def);
}

/// The rule [`call`], unfolded once.
pub proof fn lemma_call(tokens: Seq<TokenView>, index: nat)
    ensures
        call(tokens, index) == ({
            match atom(tokens, index) {
                Err(e) => Err(e),
                Ok((callee, next)) => match current(tokens, next) {
                    None => Err(missing_token(tokens)),
                    Some(token) => if token.value == TokenKind::LeftParen {
                        if advances(tokens, index, next) {
                            match items(tokens, next + 1, TokenKind::RightParen, Seq::empty()) {
                                Err(e) => Err(e),
                                Ok((args, close)) => Ok(
                                    (NodeView::FuncCall { func_node: Box::new(callee), args: args }, close + 1),
                                ),
                            }
                        } else {
                            Err(no_progress())
                        }
                    } else {
                        Ok((callee, next))
                    },
                },
            }
        }),
{
    reveal(call);
    reveal(atom);
    reveal(items);
}

/// The rule [`factor`], unfolded once.
pub proof fn lemma_factor(tokens: Seq<TokenView>, index: nat)
    ensures
        factor(tokens, index) == ({
            match call(tokens, index) {
                Err(e) => Err(e),
                Ok((left, next)) => match current(tokens, next) {
                    None => Ok((left, next)),
                    Some(op) => if op.value == TokenKind::Caret {
                        if advances(tokens, index, next) {
                            match factor(tokens, next + 1) {
                                Err(e) => Err(e),
                                Ok((right, end)) => Ok((binary(left, op, right), end)),
                            }
                        } else {
                            Err(no_progress())
                        }
                    } else {
                        Ok((left, next))
                    },
                },
            }
        }),
{
    reveal(call);
    reveal(factor);
}

/// The rule [`term_rest`], unfolded once.
pub proof fn lemma_term_rest(tokens: Seq<TokenView>, left: NodeView, index: nat)
    ensures
        term_rest(tokens, left, index) == ({
            match current(tokens, index) {
                None => Ok((left, index)),
                Some(op) => if is_product_op(op.value) {
                    match factor(tokens, index + 1) {
                        Err(e) => Err(e),
                        Ok((right, next)) => if advances(tokens, index, next) {
                            term_rest(tokens, binary(left, op, right), next)
                        } else {
                            Err(no_progress())
                        },
                    }
                } else {
                    Ok((left, index))
                },
            }
        }),
{
    reveal(factor);
    reveal(term_rest);
}

/// The rule [`term`], unfolded once.
pub proof fn lemma_term(tokens: Seq<TokenView>, index: nat)
    ensures
        term(tokens, index) == ({
            match factor(tokens, index) {
                Err(e) => Err(e),
                Ok((left, next)) => if advances(tokens, index, next) {
                    term_rest(tokens, left, next)
                } else {
                    Err(no_progress())
                },
            }
        }),
{
    reveal(term);
    reveal(factor);
    reveal(term_rest);
}

/// The rule [`arithmetic_rest`], unfolded once.
pub proof fn lemma_arithmetic_rest(tokens: Seq<TokenView>, left: NodeView, index: nat)
    ensures
        arithmetic_rest(tokens, left, index) == ({
            match current(tokens, index) {
                None => Ok((left, index)),
                Some(op) => if is_sum_op(op.value) {
                    match term(tokens, index + 1) {
                        Err(e) => Err(e),
                        Ok((right, next)) => if advances(tokens, index, next) {
                            arithmetic_rest(tokens, binary(left, op, right), next)
                        } else {
                            Err(no_progress())
                        },
                    }
                } else {
                    Ok((left, index))
                },
            }
        }),
{
    reveal(term);
    reveal(arithmetic_rest);
}

/// The rule [`arithmetic`], unfolded once.
pub proof fn lemma_arithmetic(tokens: Seq<TokenView>, index: nat)
    ensures
        arithmetic(tokens, index) == ({
            match term(tokens, index) {
                Err(e) => Err(e),
                Ok((left, next)) => if advances(tokens, index, next) {
                    arithmetic_rest(tokens, left, next)
                } else {
                    Err(no_progress())
                },
            }
        }),
{
    reveal(arithmetic);
    reveal(term);
    reveal(arithmetic_rest);
}

/// The rule [`compare_rest`], unfolded once.
pub proof fn lemma_compare_rest(tokens: Seq<TokenView>, left: NodeView, index: nat)
    ensures
        compare_rest(tokens, left, index) == ({
            match current(tokens, index) {
                None => Ok((left, index)),
                Some(op) => if is_compare_op(op.value) {
                    match arithmetic(tokens, index + 1) {
                        Err(e) => Err(e),
                        Ok((right, next)) => if advances(tokens, index, next) {
                            compare_rest(tokens, binary(left, op, right), next)
                        } else {
                            Err(no_progress())
                        },
                    }
                } else {
                    Ok((left, index))
                },
            }
        }),
{
    reveal(arithmetic);
    reveal(compare_rest);
}

/// The rule [`compare`], unfolded once.
pub proof fn lemma_compare(tokens: Seq<TokenView>, index: nat)
    ensures
        compare(tokens, index) == ({
            match current(tokens, index) {
                None => Err(missing_token(tokens)),
                Some(token) => if token.value == TokenKind::Keyword(Keyword::Not) {
                    unary(token, compare(tokens, index + 1))
                } else {
                    match arithmetic(tokens, index) {
                        Err(e) => Err(e),
                        Ok((left, next)) => if advances(tokens, index, next) {
                            compare_rest(tokens, left, next)
                        } else {
                            Err(no_progress())
                        },
                    }
                },
            }
        }),
{
    reveal(arithmetic);
    reveal(compare_rest);
    reveal(compare);
}

/// The rule [`expr_rest`], unfolded once.
pub proof fn lemma_expr_rest(tokens: Seq<TokenView>, left: NodeView, index: nat)
    ensures
        expr_rest(tokens, left, index) == ({
            match current(tokens, index) {
                None => Ok((left, index)),
                Some(op) => if is_logic_op(op.value) {
                    match compare(tokens, index + 1) {
                        Err(e) => Err(e),
                        Ok((right, next)) => if advances(tokens, index, next) {
                            expr_rest(tokens, binary(left, op, right), next)
                        } else {
                            Err(no_progress())
                        },
                    }
                } else {
                    Ok((left, index))
                },
            }
        }),
{
    reveal(compare);
    reveal(expr_rest);
}

/// The rule [`expr`], unfolded once.
pub proof fn lemma_expr(tokens: Seq<TokenView>, index: nat)
    ensures
        expr(tokens, index) == ({
            match current(tokens, index) {
                None => Err(missing_token(tokens)),
                Some(token) => if token.value == TokenKind::Keyword(Keyword::Let) {
                    match current(tokens, index + 1) {
                        None => Err(missing_token(tokens)),
                        Some(name) => if name.value is Identifier {
                            match current(tokens, index + 2) {
                                None => Err(missing_token(tokens)),
                                Some(op) => if op.value == TokenKind::Equal {
                                    match expr(tokens, index + 3) {
                                        Err(e) => Err(e),
                                        Ok((value, next)) => Ok(
                                            (
                                                NodeView::VarAssignment {
                                                    identifier: name,
                                                    value: Box::new(value),
                                                },
                                                next,
                                            ),
                                        ),
                                    }
                                } else if is_compound_assign(op.value) {
                                    match expr(tokens, index + 3) {
                                        Err(e) => Err(e),
                                        Ok((value, next)) => Ok(
                                            (
                                                NodeView::VarArithmeticAssignment {
                                                    identifier: name,
                                                    op: op,
                                                    value: Box::new(value),
                                                },
                                                next,
                                            ),
                                        ),
                                    }
                                } else {
                                    Err(unexpected("any equals sign"@, op))
                                },
                            }
                        } else {
                            Err(unexpected("identifier"@, name))
                        },
                    }
                } else if token.value == TokenKind::Keyword(Keyword::Assert) {
                    match expr(tokens, index + 1) {
                        Err(e) => Err(e),
                        Ok((condition, next)) => Ok(
                            (NodeView::Assert { condition: Box::new(condition) }, next),
                        ),
                    }
                } else {
                    match compare(tokens, index) {
                        Err(e) => Err(e),
                        Ok((left, next)) => if advances(tokens, index, next) {
                            expr_rest(tokens, left, next)
                        } else {
                            Err(no_progress())
                        },
                    }
                },
            }
        }),
{
    reveal(compare);
    reveal(expr_rest);
    reveal(expr);
}

/// The rule [`items`], unfolded once.
pub proof fn lemma_items(tokens: Seq<TokenView>, index: nat, close: TokenKind, found: Seq<NodeView>)
    ensures
        items(tokens, index, close, found) == ({
            match current(tokens, index) {
                None => Err(missing_token(tokens)),
                Some(token) => if token.value == close {
                    Ok((found, index))
                } else {
                    match expr(tokens, index) {
                        Err(e) => Err(e),
                        Ok((item, next)) => if advances(tokens, index, next) {
                            match current(tokens, next) {
                                None => Err(missing_token(tokens)),
                                Some(separator) => if separator.value == TokenKind::Comma {
                                    items(tokens, next + 1, close, found.push(item))
                                } else {
                                    items(tokens, next, close, found.push(item))
                                },
                            }
                        } else {
                            Err(no_progress())
                        },
                    }
                },
            }
        }),
{
    reveal(expr);
    reveal(items);
}

/// The rule [`list_expr`], unfolded once.
pub proof fn lemma_list_expr(tokens: Seq<TokenView>, index: nat)
    ensures
        list_expr(tokens, index) == ({
            match items(tokens, index, TokenKind::RightSquare, Seq::empty()) {
                Err(e) => Err(e),
                Ok((elements, close)) => Ok((NodeView::ListExpr { elements: elements }, close + 1)),
            }
        }),
{
    reveal(list_expr);
    reveal(items);
}

/// The rule [`braced`], unfolded once.
pub proof fn lemma_braced(tokens: Seq<TokenView>, index: nat)
    ensures
        braced(tokens, index) == ({
            match expect(tokens, index, TokenKind::LeftBrace) {
                Some(e) => Err(e),
                None => match expr(tokens, index + 1) {
                    Err(e) => Err(e),
                    Ok((inner, next)) => match expect(tokens, next, TokenKind::RightBrace) {
                        Some(e) => Err(e),
                        None => Ok((inner, next + 1)),
                    },
                },
            }
        }),
{
    reveal(braced);
    reveal(expr);
}

/// The rule [`if_expr`], unfolded once.
pub proof fn lemma_if_expr(tokens: Seq<TokenView>, index: nat)
    ensures
        if_expr(tokens, index) == ({
            match expr(tokens, index) {
                Err(e) => Err(e),
                Ok((condition, next)) => if advances(tokens, index, next) {
                    match braced(tokens, next) {
                        Err(e) => Err(e),
                        Ok((if_true, end)) => if advances(tokens, next, end) {
                            if current(tokens, end) is Some && current(tokens, end)->Some_0.value
                                == TokenKind::Keyword(Keyword::Else) {
                                match current(tokens, end + 1) {
                                    None => Err(missing_token(tokens)),
                                    Some(token) => {
                                        let other = if token.value == TokenKind::Keyword(Keyword::If) {
                                            if_expr(tokens, end + 2)
                                        } else {
                                            braced(tokens, end + 1)
                                        };
                                        match other {
                                            Err(e) => Err(e),
                                            Ok((if_false, last)) => Ok(
                                                (
                                                    NodeView::IfExpr {
                                                        condition: Box::new(condition),
                                                        if_true: Box::new(if_true),
                                                        if_false: Some(Box::new(if_false)),
                                                    },
                                                    last,
                                                ),
                                            ),
                                        }
                                    },
                                }
                            } else {
                                Ok(
                                    (
                                        NodeView::IfExpr {
                                            condition: Box::new(condition),
                                            if_true: Box::new(if_true),
                                            if_false: None,
                                        },
                                        end,
                                    ),
                                )
                            }
                        } else {
                            Err(no_progress())
                        },
                    }
                } else {
                    Err(no_progress())
                },
            }
        }),
{
    reveal(expr);
    reveal(braced);
    reveal(if_expr);
}

/// The rule [`parameters_rest`], unfolded once.
pub proof fn lemma_parameters_rest(tokens: Seq<TokenView>, index: nat, found: Seq<TokenView>)
    ensures
        parameters_rest(tokens, index, found) == ({
            match current(tokens, index) {
                None => Err(missing_token(tokens)),
                Some(token) => if token.value == TokenKind::Comma {
                    match current(tokens, index + 1) {
                        None => Err(missing_token(tokens)),
                        Some(name) => if name.value is Identifier {
                            parameters_rest(tokens, index + 2, found.push(name))
                        } else {
                            Err(unexpected("identifier"@, name))
                        },
                    }
                } else {
                    Ok((found, index))
                },
            }
        }),
{
    reveal(parameters_rest);
}

/// The rule [`func_def`], unfolded once.
pub proof fn lemma_func_def(tokens: Seq<TokenView>, index: nat)
    ensures
        func_def(tokens, index) == ({
            match current(tokens, index) {
                None => Err(missing_token(tokens)),
                Some(name) => if name.value is Identifier {
                    match expect(tokens, index + 1, TokenKind::LeftParen) {
                        Some(e) => Err(e),
                        None => match parameters(tokens, index + 2) {
                            Err(e) => Err(e),
                            Ok((names, close)) => match expect(tokens, close, TokenKind::RightParen) {
                                Some(e) => Err(e),
                                None => match expect(tokens, close + 1, TokenKind::LeftBrace) {
                                    Some(e) => Err(e),
                                    None => match current(tokens, close + 2) {
                                        None => Err(missing_token(tokens)),
                                        Some(token) => if token.value == TokenKind::RightBrace {
                                            Ok(
                                                (
                                                    NodeView::FuncDef {
                                                        identifier: name,
                                                        parameters: names,
                                                        body: None,
                                                    },
                                                    close + 3,
                                                ),
                                            )
                                        } else if close > index {
                                            match statements(tokens, close + 2) {
                                                Err(e) => Err(e),
                                                Ok((body, end)) => match expect(
                                                    tokens,
                                                    end,
                                                    TokenKind::RightBrace,
                                                ) {
                                                    Some(e) => Err(e),
                                                    None => Ok(
                                                        (
                                                            NodeView::FuncDef {
                                                                identifier: name,
                                                                parameters: names,
                                                                body: Some(Box::new(body)),
                                                            },
                                                            end + 1,
                                                        ),
                                                    ),
                                                },
                                            }
                                        } else {
                                            Err(no_progress())
                                        },
                                    },
                                },
                            },
                        },
                    }
                } else {
                    Err(unexpected("identifier"@, name))
                },
            }
        }),
{
    reveal(func_def);
    reveal(statements);
}

/// The rule [`statement`], unfolded once.
pub proof fn lemma_statement(tokens: Seq<TokenView>, index: nat)
    ensures
        statement(tokens, index) == ({
            match current(tokens, index) {
                None => Err(missing_token(tokens)),
                Some(token) => if token.value == TokenKind::Keyword(Keyword::Return) {
                    match current(tokens, index + 1) {
                        None => Err(missing_token(tokens)),
                        Some(follower) => if follower.value == TokenKind::Semicolon {
                            Ok((NodeView::Return { returned: None }, index + 2))
                        } else {
                            match expr(tokens, index + 1) {
                                Err(e) => Err(e),
                                Ok((value, next)) => terminated(
                                    tokens,
                                    NodeView::Return { returned: Some(Box::new(value)) },
                                    next,
                                ),
                            }
                        },
                    }
                } else {
                    match expr(tokens, index) {
                        Err(e) => Err(e),
                        Ok((node, next)) => terminated(tokens, node, next),
                    }
                },
            }
        }),
{
    reveal(statement);
    reveal(expr);
}

/// The rule [`statements_from`], unfolded once.
pub proof fn lemma_statements_from(tokens: Seq<TokenView>, index: nat, found: Seq<NodeView>)
    ensures
        statements_from(tokens, index, found) == ({
            match current(tokens, index) {
                None => Ok((found, index)),
                Some(token) => if closes_block(token.value) {
                    Ok((found, index))
                } else {
                    match statement(tokens, index) {
                        Err(e) => Err(e),
                        Ok((node, next)) => if advances(tokens, index, next) {
                            statements_from(tokens, next, found.push(node))
                        } else {
                            Err(no_progress())
                        },
                    }
                },
            }
        }),
{
    reveal(statement);
    reveal(statements_from);
}

/// The rule [`statements`], unfolded once.
pub proof fn lemma_statements(tokens: Seq<TokenView>, index: nat)
    ensures
        statements(tokens, index) == ({
            match statements_from(tokens, index, Seq::empty()) {
                Err(e) => Err(e),
                Ok((found, next)) => Ok((NodeView::Statements { statements: found }, next)),
            }
        }),
{
    reveal(statements);
    reveal(statements_from);
}

} // verus!
