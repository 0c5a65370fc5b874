//! Writing tokens as source text, and the proof that lexing what was
//! written gives the tokens back.
use vstd::prelude::*;

use crate::lexer::tokens::{keyword_of, keyword_text, kind_text, Keyword, TokenKind, TokenView};
use crate::lexer::{
    decimal_value, digits_end, is_digit_char, is_letter_char, is_name_char, is_space_char,
    name_end, quote_index, scan, token_at, tokenize, MAX_SOURCE_LENGTH,
};
use crate::text::decimal;

verus! {

/// A token as it is written in source text: a string between double
/// quotes, every other token as its text.
pub open spec fn token_source(kind: TokenKind) -> Seq<char> {
    match kind {
        TokenKind::String(s) => seq!['"'] + s + seq!['"'],
        _ => kind_text(kind),
    }
}

/// The source text of the tokens from index `from` on: each token as it is
/// written, and a space behind each.
pub open spec fn source_text(kinds: Seq<TokenKind>, from: nat) -> Seq<char>
    decreases kinds.len() - from,
{
    if from >= kinds.len() {
        Seq::empty()
    } else {
        token_source(kinds[from as int]) + seq![' '] + source_text(kinds, from + 1)
    }
}

/// Whether every character of `text` from index `from` on is a digit.
pub open spec fn all_digits(text: Seq<char>, from: int) -> bool {
    forall|i: int| from <= i < text.len() ==> is_digit_char(#[trigger] text[i])
}

/// The tokens that the lexer gives: the marks and the keywords; an
/// integer that is not negative; a float that is written as digits, a
/// decimal point and further digits or none; a string without a double
/// quote; and a name that begins with a letter, goes on with letters, digits
/// and `_`, and is no keyword.
pub open spec fn lexable(kind: TokenKind) -> bool {
    match kind {
        TokenKind::EOF => false,
        TokenKind::Integer(i) => i >= 0,
        TokenKind::Float(s) => exists|point: int|
            0 < point < s.len() && #[trigger] s[point] == '.' && all_digits(s, point + 1)
                && all_digits(s.subrange(0, point), 0),
        TokenKind::String(s) => forall|i: int| 0 <= i < s.len() ==> #[trigger] s[i] != '"',
        TokenKind::Identifier(s) => s.len() > 0 && is_letter_char(s[0]) && (forall|i: int|
            0 <= i < s.len() ==> is_name_char(#[trigger] s[i])) && keyword_of(s) is None,
        _ => true,
    }
}

/// Whether the tokens from index `from` on are ones that the lexer can give.
pub open spec fn all_lexable(kinds: Seq<TokenKind>, from: nat) -> bool {
    forall|i: int| from <= i < kinds.len() ==> lexable(#[trigger] kinds[i])
}

/// The kinds of a sequence of tokens, one for one.
pub open spec fn kinds_of(tokens: Seq<TokenView>) -> Seq<TokenKind> {
    Seq::new(tokens.len(), |i: int| tokens[i].value)
}

/// Whether `piece` stands in `text` at index `pos`.
pub open spec fn stands_at(text: Seq<char>, pos: nat, piece: Seq<char>) -> bool {
    &&& pos + piece.len() <= text.len()
    &&& forall|i: int| 0 <= i < piece.len() ==> #[trigger] text[pos + i] == piece[i]
}

/// A run of digits that ends at `to` is what [`digits_end`] finds.
pub proof fn lemma_digits_run(text: Seq<char>, from: nat, to: nat)
    requires
        from <= to <= text.len(),
        forall|i: int| from <= i < to ==> is_digit_char(#[trigger] text[i]),
        to < text.len() ==> !is_digit_char(text[to as int]),
    ensures
        digits_end(text, from) == to,
    decreases to - from,
{
    if from < to {
        lemma_digits_run(text, from + 1, to);
    }
}

/// A run of name characters that ends at `to` is what [`name_end`] finds.
pub proof fn lemma_name_run(text: Seq<char>, from: nat, to: nat)
    requires
        from <= to <= text.len(),
        forall|i: int| from <= i < to ==> is_name_char(#[trigger] text[i]),
        to < text.len() ==> !is_name_char(text[to as int]),
    ensures
        name_end(text, from) == to,
    decreases to - from,
{
    if from < to {
        lemma_name_run(text, from + 1, to);
    }
}

/// A run without a double quote that ends at `to` is what [`quote_index`]
/// finds.
pub proof fn lemma_quote_run(text: Seq<char>, from: nat, to: nat)
    requires
        from <= to <= text.len(),
        forall|i: int| from <= i < to ==> #[trigger] text[i] != '"',
        to < text.len() ==> text[to as int] == '"',
    ensures
        quote_index(text, from) == to,
    decreases to - from,
{
    if from < to {
        lemma_quote_run(text, from + 1, to);
    }
}

/// The decimal digits of a number are digits, and they write the number.
pub proof fn lemma_decimal(n: nat)
    ensures
        decimal(n).len() > 0,
        forall|i: int| 0 <= i < decimal(n).len() ==> is_digit_char(#[trigger] decimal(n)[i]),
        decimal_value(decimal(n)) == n,
    decreases n,
{
    if n < 10 {
        assert(decimal(n).drop_last() =~= Seq::<char>::empty());
        assert(decimal_value(decimal(n).drop_last()) == 0);
    } else {
        lemma_decimal(n / 10);
        assert(decimal(n).drop_last() =~= decimal(n / 10));
    }
}

/// Whether the token that the lexer finds at index `pos` is of kind `kind`
/// and takes up what writes the kind.
pub open spec fn lexes_to(text: Seq<char>, pos: nat, kind: TokenKind) -> bool {
    &&& pos < text.len()
    &&& !is_space_char(text[pos as int])
    &&& token_source(kind).len() > 0
    &&& token_at(text, pos) is Ok
    &&& token_at(text, pos)->Ok_0.0.value == kind
    &&& token_at(text, pos)->Ok_0.1 == pos + token_source(kind).len()
}

/// A bracket, a comma or a dot that a space follows is lexed as itself.
pub proof fn lemma_brackets_written(text: Seq<char>, pos: nat, kind: TokenKind)
    requires
        kind == TokenKind::LeftParen || kind == TokenKind::RightParen || kind
            == TokenKind::LeftBrace || kind == TokenKind::RightBrace || kind
            == TokenKind::LeftSquare || kind == TokenKind::RightSquare || kind == TokenKind::Comma
            || kind == TokenKind::Dot,
        stands_at(text, pos, token_source(kind) + seq![' ']),
    ensures
        lexes_to(text, pos, kind),
{
    reveal_strlit("(");
    reveal_strlit(")");
    reveal_strlit("{");
    reveal_strlit("}");
    reveal_strlit("[");
    reveal_strlit("]");
    reveal_strlit(",");
    reveal_strlit(".");
    let piece = token_source(kind) + seq![' '];
    assert(text[pos as int + 0] == piece[0]);
    assert(text[pos as int + 1] == piece[1]);
    if token_source(kind).len() > 1 {
        assert(text[pos as int + 2] == piece[2]);
    }
}

/// An arithmetic sign, alone or with `=` behind it, a semicolon, a caret or
/// an underscore that a space follows is lexed as itself.
pub proof fn lemma_signs_written(text: Seq<char>, pos: nat, kind: TokenKind)
    requires
        kind == TokenKind::Minus || kind == TokenKind::Plus || kind == TokenKind::Semicolon || kind
            == TokenKind::Slash || kind == TokenKind::Star || kind == TokenKind::Caret || kind
            == TokenKind::Underscore || kind == TokenKind::MinusEqual || kind == TokenKind::PlusEqual
            || kind == TokenKind::SlashEqual || kind == TokenKind::StarEqual,
        stands_at(text, pos, token_source(kind) + seq![' ']),
    ensures
        lexes_to(text, pos, kind),
{
    reveal_strlit("-");
    reveal_strlit("+");
    reveal_strlit("-=");
    reveal_strlit("+=");
    reveal_strlit("/=");
    reveal_strlit("*=");
    reveal_strlit(";");
    reveal_strlit("/");
    reveal_strlit("*");
    reveal_strlit("^");
    reveal_strlit("_");
    let piece = token_source(kind) + seq![' '];
    assert(text[pos as int + 0] == piece[0]);
    assert(text[pos as int + 1] == piece[1]);
    if token_source(kind).len() > 1 {
        assert(text[pos as int + 2] == piece[2]);
    }
}

/// A relational sign, `=` or `!` that a space follows is lexed as itself.
pub proof fn lemma_relations_written(text: Seq<char>, pos: nat, kind: TokenKind)
    requires
        kind == TokenKind::Bang || kind == TokenKind::BangEqual || kind == TokenKind::Equal || kind
            == TokenKind::EqualEqual || kind == TokenKind::Greater || kind
            == TokenKind::GreaterEqual || kind == TokenKind::Less || kind == TokenKind::LessEqual,
        stands_at(text, pos, token_source(kind) + seq![' ']),
    ensures
        lexes_to(text, pos, kind),
{
    reveal_strlit("!");
    reveal_strlit("!=");
    reveal_strlit("=");
    reveal_strlit("==");
    reveal_strlit(">");
    reveal_strlit(">=");
    reveal_strlit("<");
    reveal_strlit("<=");
    let piece = token_source(kind) + seq![' '];
    assert(text[pos as int + 0] == piece[0]);
    assert(text[pos as int + 1] == piece[1]);
    if token_source(kind).len() > 1 {
        assert(text[pos as int + 2] == piece[2]);
    }
}

/// The word of a keyword spells the keyword, and is made of letters.
pub proof fn lemma_keyword_text(k: Keyword)
    ensures
        keyword_of(keyword_text(k)) == Some(k),
        keyword_text(k).len() > 0,
        forall|i: int| 0 <= i < keyword_text(k).len() ==> is_letter_char(#[trigger] keyword_text(k)[i]),
{
    reveal_strlit("let");
    reveal_strlit("and");
    reveal_strlit("not");
    reveal_strlit("or");
    reveal_strlit("if");
    reveal_strlit("else");
    reveal_strlit("elif");
    reveal_strlit("func");
    reveal_strlit("return");
    reveal_strlit("assert");
    assert("and"@[0] != "let"@[0]);
    assert("not"@[0] != "let"@[0]);
    assert("not"@[0] != "and"@[0]);
    assert("or"@.len() != "let"@.len());
    assert("or"@.len() != "and"@.len());
    assert("or"@.len() != "not"@.len());
    assert("if"@.len() != "let"@.len());
    assert("if"@.len() != "and"@.len());
    assert("if"@.len() != "not"@.len());
    assert("if"@[0] != "or"@[0]);
    assert("else"@.len() != "let"@.len());
    assert("else"@.len() != "and"@.len());
    assert("else"@.len() != "not"@.len());
    assert("else"@.len() != "or"@.len());
    assert("else"@.len() != "if"@.len());
    assert("elif"@.len() != "let"@.len());
    assert("elif"@.len() != "and"@.len());
    assert("elif"@.len() != "not"@.len());
    assert("elif"@.len() != "or"@.len());
    assert("elif"@.len() != "if"@.len());
    assert("elif"@[2] != "else"@[2]);
    assert("func"@.len() != "let"@.len());
    assert("func"@.len() != "and"@.len());
    assert("func"@.len() != "not"@.len());
    assert("func"@.len() != "or"@.len());
    assert("func"@.len() != "if"@.len());
    assert("func"@[0] != "else"@[0]);
    assert("func"@[0] != "elif"@[0]);
    assert("return"@.len() != "let"@.len());
    assert("return"@.len() != "and"@.len());
    assert("return"@.len() != "not"@.len());
    assert("return"@.len() != "or"@.len());
    assert("return"@.len() != "if"@.len());
    assert("return"@.len() != "else"@.len());
    assert("return"@.len() != "elif"@.len());
    assert("return"@.len() != "func"@.len());
    assert("assert"@.len() != "let"@.len());
    assert("assert"@.len() != "and"@.len());
    assert("assert"@.len() != "not"@.len());
    assert("assert"@.len() != "or"@.len());
    assert("assert"@.len() != "if"@.len());
    assert("assert"@.len() != "else"@.len());
    assert("assert"@.len() != "elif"@.len());
    assert("assert"@.len() != "func"@.len());
    assert("assert"@[0] != "return"@[0]);
    let word = keyword_text(k);
    assert(word[0] == word[0]);
    assert(word.len() >= 2);
    assert(word[1] == word[1]);
    if word.len() > 2 {
        assert(word[2] == word[2]);
    }
    assert forall|i: int| 0 <= i < word.len() implies is_letter_char(#[trigger] word[i]) by {
        if i == 0 {
        } else if i == 1 {
        } else if i == 2 {
        } else if i == 3 {
        } else if i == 4 {
        } else if i == 5 {
        }
    }
}

/// A run of name characters that a space follows is lexed as the keyword
/// that it spells, or else as a name.
pub proof fn lemma_word_written(text: Seq<char>, pos: nat, word: Seq<char>)
    requires
        word.len() > 0,
        is_letter_char(word[0]),
        forall|i: int| 0 <= i < word.len() ==> is_name_char(#[trigger] word[i]),
        stands_at(text, pos, word + seq![' ']),
    ensures
        pos < text.len(),
        !is_space_char(text[pos as int]),
        token_at(text, pos) is Ok,
        token_at(text, pos)->Ok_0.0.value == match keyword_of(word) {
            Some(k) => TokenKind::Keyword(k),
            None => TokenKind::Identifier(word),
        },
        token_at(text, pos)->Ok_0.1 == pos + word.len(),
{
    let piece = word + seq![' '];
    let end = pos + word.len();
    assert(text[pos as int + 0] == piece[0]);
    assert(text[pos as int + word.len()] == piece[word.len() as int]);
    assert forall|i: int| pos <= i < end implies is_name_char(#[trigger] text[i]) by {
        assert(text[pos as int + (i - pos)] == piece[i - pos]);
    }
    lemma_name_run(text, pos, end as nat);
    assert(text.subrange(pos as int, end as int) =~= word) by {
        assert forall|i: int| 0 <= i < word.len() implies text.subrange(pos as int, end as int)[i]
            == word[i] by {
            assert(text[pos as int + i] == piece[i]);
        }
    }
}

/// The digits of an integer that a space follows are lexed as the integer.
pub proof fn lemma_integer_written(text: Seq<char>, pos: nat, value: i32)
    requires
        value >= 0,
        stands_at(text, pos, token_source(TokenKind::Integer(value)) + seq![' ']),
    ensures
        lexes_to(text, pos, TokenKind::Integer(value)),
{
    let digits = decimal(value as nat);
    lemma_decimal(value as nat);
    let piece = digits + seq![' '];
    let end = pos + digits.len();
    assert(text[pos as int + 0] == piece[0]);
    assert(is_digit_char(digits[0]));
    assert(text[pos as int + digits.len()] == piece[digits.len() as int]);
    assert forall|i: int| pos <= i < end implies is_digit_char(#[trigger] text[i]) by {
        assert(text[pos as int + (i - pos)] == piece[i - pos]);
        assert(is_digit_char(digits[i - pos]));
    }
    lemma_digits_run(text, pos, end as nat);
    assert(text.subrange(pos as int, end as int) =~= digits) by {
        assert forall|i: int| 0 <= i < digits.len() implies text.subrange(pos as int, end as int)[i]
            == digits[i] by {
            assert(text[pos as int + i] == piece[i]);
        }
    }
}

/// The digits and the decimal point of a float that a space follows are
/// lexed as the float.
pub proof fn lemma_float_written(text: Seq<char>, pos: nat, digits: Seq<char>)
    requires
        lexable(TokenKind::Float(digits)),
        stands_at(text, pos, digits + seq![' ']),
    ensures
        lexes_to(text, pos, TokenKind::Float(digits)),
{
    let point = choose|point: int|
        0 < point < digits.len() && #[trigger] digits[point] == '.' && all_digits(digits, point + 1)
            && all_digits(digits.subrange(0, point), 0);
    let piece = digits + seq![' '];
    let end = pos + digits.len();
    let whole = pos + point;
    assert(text[pos as int + 0] == piece[0]);
    assert(is_digit_char(digits.subrange(0, point)[0]));
    assert(text[pos as int + point] == piece[point]);
    assert(text[pos as int + digits.len()] == piece[digits.len() as int]);
    assert forall|i: int| pos <= i < whole implies is_digit_char(#[trigger] text[i]) by {
        assert(text[pos as int + (i - pos)] == piece[i - pos]);
        assert(is_digit_char(digits.subrange(0, point)[i - pos]));
    }
    lemma_digits_run(text, pos, whole as nat);
    assert forall|i: int| whole + 1 <= i < end implies is_digit_char(#[trigger] text[i]) by {
        assert(text[pos as int + (i - pos)] == piece[i - pos]);
        assert(is_digit_char(digits[i - pos]));
    }
    lemma_digits_run(text, (whole + 1) as nat, end as nat);
    assert(text.subrange(pos as int, end as int) =~= digits) by {
        assert forall|i: int| 0 <= i < digits.len() implies text.subrange(pos as int, end as int)[i]
            == digits[i] by {
            assert(text[pos as int + i] == piece[i]);
        }
    }
}

/// The characters of a string between double quotes are lexed as the
/// string.
pub proof fn lemma_string_written(text: Seq<char>, pos: nat, s: Seq<char>)
    requires
        lexable(TokenKind::String(s)),
        stands_at(text, pos, token_source(TokenKind::String(s)) + seq![' ']),
    ensures
        lexes_to(text, pos, TokenKind::String(s)),
{
    let src = seq!['"'] + s + seq!['"'];
    let piece = src + seq![' '];
    let close = pos + 1 + s.len();
    assert(text[pos as int + 0] == piece[0]);
    assert(text[pos as int + (1 + s.len())] == piece[1 + s.len() as int]);
    assert forall|i: int| pos + 1 <= i < close implies #[trigger] text[i] != '"' by {
        assert(text[pos as int + (i - pos)] == piece[i - pos]);
        assert(piece[i - pos] == s[i - pos - 1]);
    }
    lemma_quote_run(text, pos + 1, close as nat);
    assert(text.subrange(pos as int + 1, close as int) =~= s) by {
        assert forall|i: int| 0 <= i < s.len() implies text.subrange(pos as int + 1, close as int)[i]
            == s[i] by {
            assert(text[pos as int + (i + 1)] == piece[i + 1]);
        }
    }
}

/// What writes a token that the lexer can give, with a space behind it, is
/// lexed as the token.
pub proof fn lemma_token_written(text: Seq<char>, pos: nat, kind: TokenKind)
    requires
        lexable(kind),
        stands_at(text, pos, token_source(kind) + seq![' ']),
    ensures
        lexes_to(text, pos, kind),
{
    match kind {
        TokenKind::LeftParen => lemma_brackets_written(text, pos, kind),
        TokenKind::RightParen => lemma_brackets_written(text, pos, kind),
        TokenKind::LeftBrace => lemma_brackets_written(text, pos, kind),
        TokenKind::RightBrace => lemma_brackets_written(text, pos, kind),
        TokenKind::LeftSquare => lemma_brackets_written(text, pos, kind),
        TokenKind::RightSquare => lemma_brackets_written(text, pos, kind),
        TokenKind::Comma => lemma_brackets_written(text, pos, kind),
        TokenKind::Dot => lemma_brackets_written(text, pos, kind),
        TokenKind::Minus => lemma_signs_written(text, pos, kind),
        TokenKind::Plus => lemma_signs_written(text, pos, kind),
        TokenKind::Semicolon => lemma_signs_written(text, pos, kind),
        TokenKind::Slash => lemma_signs_written(text, pos, kind),
        TokenKind::Star => lemma_signs_written(text, pos, kind),
        TokenKind::Caret => lemma_signs_written(text, pos, kind),
        TokenKind::Underscore => lemma_signs_written(text, pos, kind),
        TokenKind::MinusEqual => lemma_signs_written(text, pos, kind),
        TokenKind::PlusEqual => lemma_signs_written(text, pos, kind),
        TokenKind::SlashEqual => lemma_signs_written(text, pos, kind),
        TokenKind::StarEqual => lemma_signs_written(text, pos, kind),
        TokenKind::Bang => lemma_relations_written(text, pos, kind),
        TokenKind::BangEqual => lemma_relations_written(text, pos, kind),
        TokenKind::Equal => lemma_relations_written(text, pos, kind),
        TokenKind::EqualEqual => lemma_relations_written(text, pos, kind),
        TokenKind::Greater => lemma_relations_written(text, pos, kind),
        TokenKind::GreaterEqual => lemma_relations_written(text, pos, kind),
        TokenKind::Less => lemma_relations_written(text, pos, kind),
        TokenKind::LessEqual => lemma_relations_written(text, pos, kind),
        TokenKind::Integer(value) => lemma_integer_written(text, pos, value),
        TokenKind::Float(digits) => lemma_float_written(text, pos, digits),
        TokenKind::String(s) => lemma_string_written(text, pos, s),
        TokenKind::Identifier(name) => lemma_word_written(text, pos, name),
        TokenKind::Keyword(k) => {
            lemma_keyword_text(k);
            lemma_word_written(text, pos, keyword_text(k));
        },
        _ => {},
    }
}

/// Lexing the source text of tokens from the place of one of them on.
pub proof fn lemma_source_scans(
    kinds: Seq<TokenKind>,
    from: nat,
    text: Seq<char>,
    pos: nat,
    found: Seq<TokenView>,
)
    requires
        from <= kinds.len(),
        all_lexable(kinds, from),
        pos <= text.len(),
        text.skip(pos as int) == source_text(kinds, from),
    ensures
        scan(text, pos, found) is Ok,
        kinds_of(scan(text, pos, found)->Ok_0) == kinds_of(found) + kinds.skip(from as int) + seq![
            TokenKind::EOF,
        ],
    decreases kinds.len() - from,
{
    if from >= kinds.len() {
        assert(text.skip(pos as int).len() == 0);
        assert(pos == text.len());
        let end = scan(text, pos, found)->Ok_0;
        assert(kinds_of(end) =~= kinds_of(found) + kinds.skip(from as int) + seq![TokenKind::EOF]);
    } else {
        let kind = kinds[from as int];
        let src = token_source(kind);
        let rest = source_text(kinds, from + 1);
        let piece = src + seq![' '];
        assert(text.skip(pos as int) == piece + rest);
        assert(stands_at(text, pos, piece)) by {
            assert(text.skip(pos as int).len() == piece.len() + rest.len());
            assert forall|i: int| 0 <= i < piece.len() implies #[trigger] text[pos + i]
                == piece[i] by {
                assert(text.skip(pos as int)[i] == (piece + rest)[i]);
            }
        }
        lemma_token_written(text, pos, kind);
        let token = token_at(text, pos)->Ok_0.0;
        let next = pos + src.len();
        assert(text[pos as int + src.len()] == piece[src.len() as int]);
        assert(is_space_char(text[next as int]));
        assert(text.skip(next as int + 1) =~= rest) by {
            assert forall|i: int| 0 <= i < rest.len() implies text.skip(next as int + 1)[i] == rest[i] by {
                assert(text.skip(pos as int)[piece.len() + i] == (piece + rest)[piece.len() + i]);
            }
            assert(text.skip(pos as int).len() == piece.len() + rest.len());
        }
        lemma_source_scans(kinds, from + 1, text, (next + 1) as nat, found.push(token));
        assert(scan(text, pos, found) == scan(text, next as nat, found.push(token)));
        assert(scan(text, next as nat, found.push(token)) == scan(
            text,
            (next + 1) as nat,
            found.push(token),
        ));
        assert(kinds_of(found.push(token)) + kinds.skip(from as int + 1) + seq![TokenKind::EOF]
            =~= kinds_of(found) + kinds.skip(from as int) + seq![TokenKind::EOF]);
    }
}

/// The round trip of tokens through their source text.
///
/// Where every token is one that the lexer can give, lexing the text that
/// writes the tokens gives tokens of the same kinds, and the end marker
/// behind them.
pub proof fn lemma_lexer_round_trip(kinds: Seq<TokenKind>)
    requires
        all_lexable(kinds, 0),
        source_text(kinds, 0).len() <= MAX_SOURCE_LENGTH,
    ensures
        tokenize(source_text(kinds, 0)) is Ok,
        kinds_of(tokenize(source_text(kinds, 0))->Ok_0) == kinds.push(TokenKind::EOF),
{
    let text = source_text(kinds, 0);
    assert(text.skip(0) =~= text);
    lemma_source_scans(kinds, 0, text, 0, Seq::empty());
    assert(kinds_of(Seq::<TokenView>::empty()) + kinds.skip(0) + seq![TokenKind::EOF]
        =~= kinds.push(TokenKind::EOF));
}

/// The source text of tokens with one more token behind them.
pub proof fn lemma_source_push(kinds: Seq<TokenKind>, from: nat, last: TokenKind)
    requires
        from <= kinds.len(),
    ensures
        source_text(kinds.push(last), from) == source_text(kinds, from) + token_source(last) + seq![
            ' ',
        ],
    decreases kinds.len() - from,
{
    let more = kinds.push(last);
    if from < kinds.len() {
        lemma_source_push(kinds, from + 1, last);
        assert(more[from as int] == kinds[from as int]);
        assert(source_text(more, from) =~= source_text(kinds, from) + token_source(last) + seq![' ']);
    } else {
        assert(more[from as int] == last);
        assert(source_text(more, from + 1) =~= Seq::<char>::empty());
        assert(source_text(more, from) =~= source_text(kinds, from) + token_source(last) + seq![' ']);
    }
}

/// Whether the tokens are closed by the end marker and hold no other.
pub open spec fn ends_with_marker(tokens: Seq<TokenView>) -> bool {
    &&& tokens.len() > 0
    &&& tokens.last().value == TokenKind::EOF
    &&& forall|i: int| 0 <= i < tokens.len() - 1 ==> (#[trigger] tokens[i]).value != TokenKind::EOF
}

/// No token of a text is the end marker.
pub proof fn lemma_token_is_no_marker(text: Seq<char>, pos: nat)
    requires
        pos < text.len(),
    ensures
        token_at(text, pos) is Ok ==> token_at(text, pos)->Ok_0.0.value != TokenKind::EOF,
{
}

/// What a scan adds to the tokens that were found is closed by the end
/// marker and holds no other.
pub proof fn lemma_scan_ends_with_marker(text: Seq<char>, pos: nat, found: Seq<TokenView>)
    requires
        forall|i: int| 0 <= i < found.len() ==> (#[trigger] found[i]).value != TokenKind::EOF,
    ensures
        scan(text, pos, found) is Ok ==> ends_with_marker(scan(text, pos, found)->Ok_0),
    decreases text.len() - pos,
{
    if pos >= text.len() {
        let tokens = scan(text, pos, found)->Ok_0;
        assert forall|i: int| 0 <= i < tokens.len() - 1 implies (#[trigger] tokens[i]).value
            != TokenKind::EOF by {
            assert(tokens[i] == found[i]);
        }
    } else if is_space_char(text[pos as int]) {
        lemma_scan_ends_with_marker(text, pos + 1, found);
    } else {
        lemma_token_is_no_marker(text, pos);
        crate::lexer::lemma_token_progress(text, pos);
        match token_at(text, pos) {
            Ok((token, next)) => {
                let more = found.push(token);
                assert forall|i: int| 0 <= i < more.len() implies (#[trigger] more[i]).value
                    != TokenKind::EOF by {
                    if i < found.len() {
                        assert(more[i] == found[i]);
                    }
                }
                lemma_scan_ends_with_marker(text, next, more);
            },
            Err(_) => {},
        }
    }
}

/// The tokens of a text are closed by the end marker, and no token before
/// it is the end marker.
pub proof fn lemma_tokens_end_with_marker(text: Seq<char>)
    ensures
        tokenize(text) is Ok ==> ends_with_marker(tokenize(text)->Ok_0),
{
    lemma_scan_ends_with_marker(text, 0, Seq::empty());
}

} // verus!
