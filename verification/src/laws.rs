//! What holds of the lexer and the parser together.
use vstd::prelude::*;
use crate::compiled;
use crate::lexer::tokens::TokenKind;
use crate::lexer::writing::{
    all_lexable, kinds_of, lemma_lexer_round_trip, lemma_source_push, source_text,
};
use crate::lexer::{tokenize, MAX_SOURCE_LENGTH};
use crate::parser::nodes::NodeView;
use crate::parser::printing::{lemma_round_trip, shape, shows, writable, written};

verus! {

/// The round trip of an expression through its source text.
///
/// Take an expression that can be written, made of tokens that the lexer
/// can give. Write it as source text and put a `;` behind it. Lexing and
/// parsing that text gives a program of one statement, and the statement is
/// an expression of the same shape: the same tree, but for the positions of
/// its tokens.
pub proof fn lemma_source_round_trip(node: NodeView)
    requires
        writable(node),
        all_lexable(written(node), 0),
        source_text(written(node), 0).len() + 2 <= MAX_SOURCE_LENGTH,
    ensures
        ({
            let tree = compiled(source_text(written(node), 0) + seq![';', ' ']);
            &&& tree is Ok
            &&& tree->Ok_0 is Statements
            &&& tree->Ok_0->statements.len() == 1
            &&& shape(tree->Ok_0->statements[0]) == shape(node)
        }),
{
    let kinds = written(node).push(TokenKind::Semicolon);
    let text = source_text(written(node), 0) + seq![';', ' '];
    lemma_source_push(written(node), 0, TokenKind::Semicolon);
    reveal_strlit(";");
    assert(source_text(kinds, 0) =~= text);
    assert(all_lexable(kinds, 0)) by {
        assert forall|i: int| 0 <= i < kinds.len() implies crate::lexer::writing::lexable(
            #[trigger] kinds[i],
        ) by {
            if i < written(node).len() {
                assert(kinds[i] == written(node)[i]);
            }
        }
    }
    lemma_lexer_round_trip(kinds);
    let tokens = tokenize(text)->Ok_0;
    assert(kinds_of(tokens) =~= written(node) + seq![TokenKind::Semicolon, TokenKind::EOF]);
    assert(shows(tokens, 0, written(node) + seq![TokenKind::Semicolon, TokenKind::EOF])) by {
        let wanted = written(node) + seq![TokenKind::Semicolon, TokenKind::EOF];
        assert forall|k: int| 0 <= k < wanted.len() implies (#[trigger] tokens[0 + k]).value
            == wanted[k] by {
            assert(kinds_of(tokens)[k] == tokens[k].value);
        }
    }
    lemma_round_trip(node, tokens);
}

} // verus!
