//! Every rule of the grammar consumes tokens when it succeeds, and none
//! gives the error that stands for a parse that consumed nothing.
use vstd::prelude::*;
use crate::errors::ErrorView;
use crate::lexer::tokens::{TokenKind, TokenView};
use crate::parser::grammar::{
    advances, arithmetic, arithmetic_rest, atom, braced, call, compare, compare_rest, expect,
    expected_message, expr, expr_rest, factor, func_def, if_expr, items, lemma_arithmetic,
    lemma_arithmetic_rest, lemma_atom, lemma_braced, lemma_call, lemma_compare,
    lemma_compare_rest, lemma_expr, lemma_expr_rest, lemma_factor, lemma_func_def, lemma_if_expr,
    lemma_items, lemma_list_expr, lemma_parameters_rest, lemma_statement, lemma_statements,
    lemma_statements_from, lemma_term, lemma_term_rest, list_expr, missing_token, no_progress,
    parameters, parameters_rest, program_from, rejection, statement, statements, statements_from,
    term, term_rest, trailing_token, unexpected, Parsed, ParsedList,
};
use crate::parser::nodes::NodeView;

verus! {

/// Whether an error is one that a parse gives: its message begins with
/// `Expected` or `Unexpected`.
pub open spec fn genuine(e: ErrorView) -> bool {
    e.error_message.len() > 0 && (e.error_message[0] == 'E' || e.error_message[0] == 'U')
}

/// Whether a rule that began at `index` consumed at least one token where
/// it succeeded, and gave a genuine error where it failed.
pub open spec fn sound(parsed: Parsed, tokens: Seq<TokenView>, index: nat) -> bool {
    match parsed {
        Ok((_, next)) => advances(tokens, index, next),
        Err(e) => genuine(e),
    }
}

/// The same for a rule that may consume nothing.
pub open spec fn steady(parsed: Parsed, tokens: Seq<TokenView>, index: nat) -> bool {
    match parsed {
        Ok((_, next)) => index <= next <= tokens.len(),
        Err(e) => genuine(e),
    }
}

/// The same for a rule that gives a list and stops at a token.
pub open spec fn steady_list(parsed: ParsedList, tokens: Seq<TokenView>, index: nat) -> bool {
    match parsed {
        Ok((_, next)) => index <= next <= tokens.len(),
        Err(e) => genuine(e),
    }
}

/// The error that stands for a parse that consumed nothing is not genuine.
pub proof fn lemma_no_progress_is_not_genuine()
    ensures
        !genuine(no_progress()),
{
    reveal_strlit("Parser made no progress");
}

/// The errors for a missing and for an unexpected token are genuine.
pub proof fn lemma_genuine_errors(tokens: Seq<TokenView>, index: nat, kind: TokenKind, what: Seq<char>, found: TokenView)
    ensures
        genuine(missing_token(tokens)),
        genuine(unexpected(what, found)),
        genuine(rejection(tokens, index, kind)),
        genuine(trailing_token(found)),
{
    reveal(missing_token);
    reveal(unexpected);
    reveal(rejection);
    reveal(trailing_token);
    reveal_strlit("Expected token");
    reveal_strlit("Expected ");
    reveal_strlit("Unexpected token: ");
    assert(("Expected "@ + what)[0] == 'E');
    assert(expected_message(what, found.value)[0] == 'E');
    assert(("Unexpected token: "@ + crate::parser::grammar::quoted(found.value))[0] == 'U');
    assert(unexpected(crate::parser::grammar::quoted(kind), found).error_message[0] == 'E') by {
        assert(("Expected "@ + crate::parser::grammar::quoted(kind))[0] == 'E');
        assert(expected_message(crate::parser::grammar::quoted(kind), found.value)[0] == 'E');
    }
}

/// The rule [`atom`] consumes tokens where it succeeds and gives a genuine
/// error where it fails.
pub proof fn lemma_atom_sound(tokens: Seq<TokenView>, index: nat)
    ensures
        sound(atom(tokens, index), tokens, index),
    decreases tokens.len() - index, 0nat,
{
    lemma_atom(tokens, index);
    if index < tokens.len() {
        let token = tokens[index as int];
        lemma_genuine_errors(tokens, index, TokenKind::RightParen, "atom"@, token);
        lemma_atom_sound(tokens, index + 1);
        lemma_expr_sound(tokens, index + 1);
        lemma_list_expr_sound(tokens, index + 1);
        lemma_if_expr_sound(tokens, index + 1);
        lemma_func_def_sound(tokens, index + 1);
        match expr(tokens, index + 1) {
            Ok((_, next)) => {
                lemma_genuine_errors(tokens, next, TokenKind::RightParen, "atom"@, token);
            },
            Err(_) => {},
        }
    } else {
        lemma_genuine_errors(tokens, index, TokenKind::RightParen, "atom"@, arbitrary());
    }
}

/// The rule [`call`] consumes tokens where it succeeds and gives a genuine
/// error where it fails.
pub proof fn lemma_call_sound(tokens: Seq<TokenView>, index: nat)
    ensures
        sound(call(tokens, index), tokens, index),
    decreases tokens.len() - index, 1nat,
{
    lemma_call(tokens, index);
    lemma_atom_sound(tokens, index);
    lemma_genuine_errors(tokens, index, TokenKind::RightParen, "atom"@, arbitrary());
    match atom(tokens, index) {
        Ok((_, next)) => {
            if next < tokens.len() {
                lemma_items_sound(tokens, next + 1, TokenKind::RightParen, Seq::empty());
            }
        },
        Err(_) => {},
    }
}

/// The rule [`factor`] consumes tokens where it succeeds and gives a genuine
/// error where it fails.
pub proof fn lemma_factor_sound(tokens: Seq<TokenView>, index: nat)
    ensures
        sound(factor(tokens, index), tokens, index),
    decreases tokens.len() - index, 2nat,
{
    lemma_factor(tokens, index);
    lemma_call_sound(tokens, index);
    match call(tokens, index) {
        Ok((_, next)) => {
            if next < tokens.len() {
                lemma_factor_sound(tokens, next + 1);
            }
        },
        Err(_) => {},
    }
}

/// The rule [`term_rest`] ends inside the tokens where it succeeds and gives
/// a genuine error where it fails.
pub proof fn lemma_term_rest_sound(tokens: Seq<TokenView>, left: NodeView, index: nat)
    requires
        index <= tokens.len(),
    ensures
        steady(term_rest(tokens, left, index), tokens, index),
    decreases tokens.len() - index, 3nat,
{
    lemma_term_rest(tokens, left, index);
    if index < tokens.len() {
        lemma_factor_sound(tokens, index + 1);
        match factor(tokens, index + 1) {
            Ok((right, next)) => {
                lemma_term_rest_sound(
                    tokens,
                    crate::parser::grammar::binary(left, tokens[index as int], right),
                    next,
                );
            },
            Err(_) => {},
        }
    }
}

/// The rule [`term`] consumes tokens where it succeeds and gives a genuine
/// error where it fails.
pub proof fn lemma_term_sound(tokens: Seq<TokenView>, index: nat)
    ensures
        sound(term(tokens, index), tokens, index),
    decreases tokens.len() - index, 4nat,
{
    lemma_term(tokens, index);
    lemma_factor_sound(tokens, index);
    match factor(tokens, index) {
        Ok((left, next)) => {
            lemma_term_rest_sound(tokens, left, next);
        },
        Err(_) => {},
    }
}

/// The rule [`arithmetic_rest`] ends inside the tokens where it succeeds and gives
/// a genuine error where it fails.
pub proof fn lemma_arithmetic_rest_sound(tokens: Seq<TokenView>, left: NodeView, index: nat)
    requires
        index <= tokens.len(),
    ensures
        steady(arithmetic_rest(tokens, left, index), tokens, index),
    decreases tokens.len() - index, 5nat,
{
    lemma_arithmetic_rest(tokens, left, index);
    if index < tokens.len() {
        lemma_term_sound(tokens, index + 1);
        match term(tokens, index + 1) {
            Ok((right, next)) => {
                lemma_arithmetic_rest_sound(
                    tokens,
                    crate::parser::grammar::binary(left, tokens[index as int], right),
                    next,
                );
            },
            Err(_) => {},
        }
    }
}

/// The rule [`arithmetic`] consumes tokens where it succeeds and gives a
/// genuine error where it fails.
pub proof fn lemma_arithmetic_sound(tokens: Seq<TokenView>, index: nat)
    ensures
        sound(arithmetic(tokens, index), tokens, index),
    decreases tokens.len() - index, 6nat,
{
    lemma_arithmetic(tokens, index);
    lemma_term_sound(tokens, index);
    match term(tokens, index) {
        Ok((left, next)) => {
            lemma_arithmetic_rest_sound(tokens, left, next);
        },
        Err(_) => {},
    }
}

/// The rule [`compare_rest`] ends inside the tokens where it succeeds and gives
/// a genuine error where it fails.
pub proof fn lemma_compare_rest_sound(tokens: Seq<TokenView>, left: NodeView, index: nat)
    requires
        index <= tokens.len(),
    ensures
        steady(compare_rest(tokens, left, index), tokens, index),
    decreases tokens.len() - index, 7nat,
{
    lemma_compare_rest(tokens, left, index);
    if index < tokens.len() {
        lemma_arithmetic_sound(tokens, index + 1);
        match arithmetic(tokens, index + 1) {
            Ok((right, next)) => {
                lemma_compare_rest_sound(
                    tokens,
                    crate::parser::grammar::binary(left, tokens[index as int], right),
                    next,
                );
            },
            Err(_) => {},
        }
    }
}

/// The rule [`compare`] consumes tokens where it succeeds and gives a genuine
/// error where it fails.
pub proof fn lemma_compare_sound(tokens: Seq<TokenView>, index: nat)
    ensures
        sound(compare(tokens, index), tokens, index),
    decreases tokens.len() - index, 8nat,
{
    lemma_compare(tokens, index);
    lemma_genuine_errors(tokens, index, TokenKind::RightParen, "atom"@, arbitrary());
    if index < tokens.len() {
        lemma_compare_sound(tokens, index + 1);
        lemma_arithmetic_sound(tokens, index);
        match arithmetic(tokens, index) {
            Ok((left, next)) => {
                lemma_compare_rest_sound(tokens, left, next);
            },
            Err(_) => {},
        }
    }
}

/// The rule [`expr_rest`] ends inside the tokens where it succeeds and gives
/// a genuine error where it fails.
pub proof fn lemma_expr_rest_sound(tokens: Seq<TokenView>, left: NodeView, index: nat)
    requires
        index <= tokens.len(),
    ensures
        steady(expr_rest(tokens, left, index), tokens, index),
    decreases tokens.len() - index, 9nat,
{
    lemma_expr_rest(tokens, left, index);
    if index < tokens.len() {
        lemma_compare_sound(tokens, index + 1);
        match compare(tokens, index + 1) {
            Ok((right, next)) => {
                lemma_expr_rest_sound(
                    tokens,
                    crate::parser::grammar::binary(left, tokens[index as int], right),
                    next,
                );
            },
            Err(_) => {},
        }
    }
}

/// The rule [`expr`] consumes tokens where it succeeds and gives a genuine
/// error where it fails.
pub proof fn lemma_expr_sound(tokens: Seq<TokenView>, index: nat)
    ensures
        sound(expr(tokens, index), tokens, index),
    decreases tokens.len() - index, 10nat,
{
    lemma_expr(tokens, index);
    lemma_genuine_errors(tokens, index, TokenKind::RightParen, "identifier"@, arbitrary());
    if index < tokens.len() {
        lemma_expr_sound(tokens, index + 1);
        if index + 1 < tokens.len() {
            lemma_genuine_errors(
                tokens,
                index,
                TokenKind::RightParen,
                "identifier"@,
                tokens[index as int + 1],
            );
        }
        if index + 2 < tokens.len() {
            lemma_genuine_errors(
                tokens,
                index,
                TokenKind::RightParen,
                "any equals sign"@,
                tokens[index as int + 2],
            );
            lemma_expr_sound(tokens, index + 3);
        }
        lemma_compare_sound(tokens, index);
        match compare(tokens, index) {
            Ok((left, next)) => {
                lemma_expr_rest_sound(tokens, left, next);
            },
            Err(_) => {},
        }
    }
}

/// The rule [`items`] ends inside the tokens where it succeeds and gives a
/// genuine error where it fails.
pub proof fn lemma_items_sound(tokens: Seq<TokenView>, index: nat, close: TokenKind, found: Seq<NodeView>)
    ensures
        steady_list(items(tokens, index, close, found), tokens, index),
        items(tokens, index, close, found) is Ok ==> items(tokens, index, close, found)->Ok_0.1
            < tokens.len(),
    decreases tokens.len() - index, 11nat,
{
    lemma_items(tokens, index, close, found);
    lemma_genuine_errors(tokens, index, TokenKind::RightParen, "atom"@, arbitrary());
    if index < tokens.len() {
        lemma_expr_sound(tokens, index);
        match expr(tokens, index) {
            Ok((item, next)) => {
                if next < tokens.len() {
                    lemma_items_sound(tokens, next + 1, close, found.push(item));
                    lemma_items_sound(tokens, next, close, found.push(item));
                }
            },
            Err(_) => {},
        }
    }
}

/// The rule [`list_expr`] consumes tokens where it succeeds and gives a
/// genuine error where it fails.
pub proof fn lemma_list_expr_sound(tokens: Seq<TokenView>, index: nat)
    ensures
        sound(list_expr(tokens, index), tokens, index),
    decreases tokens.len() - index, 12nat,
{
    lemma_list_expr(tokens, index);
    lemma_items_sound(tokens, index, TokenKind::RightSquare, Seq::empty());
}

/// The rule [`braced`] consumes tokens where it succeeds and gives a genuine
/// error where it fails.
pub proof fn lemma_braced_sound(tokens: Seq<TokenView>, index: nat)
    ensures
        sound(braced(tokens, index), tokens, index),
    decreases tokens.len() - index, 11nat,
{
    lemma_braced(tokens, index);
    lemma_genuine_errors(tokens, index, TokenKind::LeftBrace, "atom"@, arbitrary());
    if index < tokens.len() {
        lemma_expr_sound(tokens, index + 1);
        match expr(tokens, index + 1) {
            Ok((_, next)) => {
                lemma_genuine_errors(tokens, next, TokenKind::RightBrace, "atom"@, arbitrary());
            },
            Err(_) => {},
        }
    }
}

/// The rule [`if_expr`] consumes tokens where it succeeds and gives a genuine
/// error where it fails.
pub proof fn lemma_if_expr_sound(tokens: Seq<TokenView>, index: nat)
    ensures
        sound(if_expr(tokens, index), tokens, index),
    decreases tokens.len() - index, 12nat,
{
    lemma_if_expr(tokens, index);
    lemma_genuine_errors(tokens, index, TokenKind::LeftBrace, "atom"@, arbitrary());
    lemma_expr_sound(tokens, index);
    match expr(tokens, index) {
        Ok((_, next)) => {
            lemma_braced_sound(tokens, next);
            match braced(tokens, next) {
                Ok((_, end)) => {
                    if end + 1 < tokens.len() {
                        lemma_if_expr_sound(tokens, end + 2);
                        lemma_braced_sound(tokens, end + 1);
                    }
                },
                Err(_) => {},
            }
        },
        Err(_) => {},
    }
}

/// The rule [`parameters_rest`] ends inside the tokens where it succeeds and gives
/// a genuine error where it fails.
pub proof fn lemma_parameters_rest_sound(tokens: Seq<TokenView>, index: nat, found: Seq<TokenView>)
    ensures
        match parameters_rest(tokens, index, found) {
            Ok((_, next)) => index <= next < tokens.len(),
            Err(e) => genuine(e),
        },
    decreases tokens.len() - index,
{
    lemma_parameters_rest(tokens, index, found);
    lemma_genuine_errors(tokens, index, TokenKind::LeftBrace, "identifier"@, arbitrary());
    if index + 1 < tokens.len() {
        lemma_genuine_errors(tokens, index, TokenKind::LeftBrace, "identifier"@, tokens[index as int + 1]);
        lemma_parameters_rest_sound(tokens, index + 2, found.push(tokens[index as int + 1]));
    }
}

/// The rule [`func_def`] consumes tokens where it succeeds and gives a
/// genuine error where it fails.
pub proof fn lemma_func_def_sound(tokens: Seq<TokenView>, index: nat)
    ensures
        sound(func_def(tokens, index), tokens, index),
    decreases tokens.len() - index, 0nat,
{
    lemma_func_def(tokens, index);
    lemma_genuine_errors(tokens, index, TokenKind::LeftParen, "identifier"@, arbitrary());
    if index < tokens.len() {
        lemma_genuine_errors(
            tokens,
            index + 1,
            TokenKind::LeftParen,
            "identifier"@,
            tokens[index as int],
        );
        if index + 2 < tokens.len() {
            lemma_parameters_rest_sound(tokens, index + 3, seq![tokens[index as int + 2]]);
            lemma_parameters_rest_sound(tokens, index + 2, Seq::empty());
        }
        match parameters(tokens, index + 2) {
            Ok((_, close)) => {
                lemma_genuine_errors(tokens, close, TokenKind::RightParen, "atom"@, arbitrary());
                lemma_genuine_errors(tokens, close + 1, TokenKind::LeftBrace, "atom"@, arbitrary());
                if close > index && close + 2 < tokens.len() {
                    lemma_statements_sound(tokens, close + 2);
                    match statements(tokens, close + 2) {
                        Ok((_, end)) => {
                            lemma_genuine_errors(
                                tokens,
                                end,
                                TokenKind::RightBrace,
                                "atom"@,
                                arbitrary(),
                            );
                        },
                        Err(_) => {},
                    }
                }
            },
            Err(_) => {},
        }
    }
}

/// The rule [`statement`] consumes tokens where it succeeds and gives a
/// genuine error where it fails.
pub proof fn lemma_statement_sound(tokens: Seq<TokenView>, index: nat)
    ensures
        sound(statement(tokens, index), tokens, index),
    decreases tokens.len() - index, 13nat,
{
    lemma_statement(tokens, index);
    lemma_genuine_errors(tokens, index, TokenKind::Semicolon, "atom"@, arbitrary());
    if index < tokens.len() {
        lemma_genuine_errors(tokens, index + 2, TokenKind::Semicolon, "atom"@, arbitrary());
        lemma_expr_sound(tokens, index + 1);
        match expr(tokens, index + 1) {
            Ok((_, next)) => {
                lemma_genuine_errors(tokens, next, TokenKind::Semicolon, "atom"@, arbitrary());
            },
            Err(_) => {},
        }
        lemma_expr_sound(tokens, index);
        match expr(tokens, index) {
            Ok((_, next)) => {
                lemma_genuine_errors(tokens, next, TokenKind::Semicolon, "atom"@, arbitrary());
            },
            Err(_) => {},
        }
    }
}

/// The rule [`statements_from`] ends inside the tokens where it succeeds and gives
/// a genuine error where it fails.
pub proof fn lemma_statements_from_sound(tokens: Seq<TokenView>, index: nat, found: Seq<NodeView>)
    requires
        index <= tokens.len(),
    ensures
        steady_list(statements_from(tokens, index, found), tokens, index),
    decreases tokens.len() - index, 14nat,
{
    lemma_statements_from(tokens, index, found);
    if index < tokens.len() {
        lemma_statement_sound(tokens, index);
        match statement(tokens, index) {
            Ok((node, next)) => {
                lemma_statements_from_sound(tokens, next, found.push(node));
            },
            Err(_) => {},
        }
    }
}

/// The rule [`statements`] ends inside the tokens where it succeeds and gives
/// a genuine error where it fails.
pub proof fn lemma_statements_sound(tokens: Seq<TokenView>, index: nat)
    requires
        index <= tokens.len(),
    ensures
        steady(statements(tokens, index), tokens, index),
    decreases tokens.len() - index, 15nat,
{
    lemma_statements(tokens, index);
    lemma_statements_from_sound(tokens, index, Seq::empty());
}

/// No parse of a program gives the error that stands for a parse that
/// consumed nothing: every error of the parser is a genuine one.
pub proof fn lemma_program_errors_are_genuine(tokens: Seq<TokenView>, index: nat)
    requires
        index <= tokens.len(),
    ensures
        program_from(tokens, index) is Err ==> genuine(program_from(tokens, index)->Err_0),
        program_from(tokens, index) != Err::<NodeView, ErrorView>(no_progress()),
{
    lemma_statements_sound(tokens, index);
    lemma_no_progress_is_not_genuine();
    lemma_genuine_errors(tokens, index, TokenKind::EOF, "atom"@, arbitrary());
    match statements(tokens, index) {
        Ok((_, next)) => {
            if next < tokens.len() {
                lemma_genuine_errors(tokens, index, TokenKind::EOF, "atom"@, tokens[next as int]);
            }
        },
        Err(_) => {},
    }
}

/// The tree of a program is a sequence of statements.
pub proof fn lemma_program_is_statements(tokens: Seq<TokenView>, index: nat)
    ensures
        program_from(tokens, index) is Ok ==> program_from(tokens, index)->Ok_0 is Statements,
{
    lemma_statements(tokens, index);
}

} // verus!
