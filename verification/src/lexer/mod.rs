//! Turns source text into a sequence of tokens.
//!
//! What the lexer produces is stated by [`tokenize_from`], a function of the
//! characters of the text alone. Every token carries the line and column of
//! its first character, counted from 1 ([`lemma_tokens_are_placed`]); the
//! end marker carries those of the end of the text.
pub mod tokens;
pub mod writing;

use vstd::prelude::*;
use vstd::string::StringExecFns;
use crate::errors::{Error, ErrorType, ErrorView};
use crate::lexer::tokens::{
    keyword_of, token_views, Keyword, Token, TokenKind, TokenPosition, TokenType, TokenView,
};

verus! {

/// The longest source text, in characters, that the lexer takes: lines and
/// columns are counted in 32 bits.
pub const MAX_SOURCE_LENGTH: usize = 0x7fff_fff0;

/// The character of `text` at index `i`, if there is one.
pub open spec fn char_at(text: Seq<char>, i: int) -> Option<char> {
    if 0 <= i < text.len() {
        Some(text[i])
    } else {
        None
    }
}

/// The digits `0` to `9`.
pub open spec fn is_digit_char(c: char) -> bool {
    '0' <= c && c <= '9'
}

/// The letters `a` to `z` and `A` to `Z`.
pub open spec fn is_letter_char(c: char) -> bool {
    ('a' <= c && c <= 'z') || ('A' <= c && c <= 'Z')
}

/// The characters that may continue a name: letters, digits and `_`.
pub open spec fn is_name_char(c: char) -> bool {
    is_letter_char(c) || c == '_' || is_digit_char(c)
}

/// The characters with the Unicode property `White_Space`.
pub open spec fn is_space_char(c: char) -> bool {
    c == ' ' || ('\u{9}' <= c && c <= '\u{d}') || c == '\u{85}' || c == '\u{a0}' || c
        == '\u{1680}' || ('\u{2000}' <= c && c <= '\u{200a}') || c == '\u{2028}' || c
        == '\u{2029}' || c == '\u{202f}' || c == '\u{205f}' || c == '\u{3000}'
}

/// The line of the character at index `pos`, counted from 1: one more than
/// the number of line feeds up to and with index `pos`. A line feed so
/// counts as standing before the first character of the line that it opens,
/// and so does the end of the text behind a line feed.
pub open spec fn line_at(text: Seq<char>, pos: nat) -> nat
    decreases pos,
{
    if pos == 0 {
        if char_at(text, 0) == Some('\n') {
            2
        } else {
            1
        }
    } else if char_at(text, pos as int) == Some('\n') {
        line_at(text, (pos - 1) as nat) + 1
    } else {
        line_at(text, (pos - 1) as nat)
    }
}

/// The column of the character at index `pos`: the first character of a
/// line is in column 1, and every further one a column behind the character
/// before it. A line feed, which stands before the first character of the
/// line that it opens, is in column 0.
pub open spec fn column_at(text: Seq<char>, pos: nat) -> nat
    decreases pos,
{
    if pos == 0 {
        if char_at(text, 0) == Some('\n') {
            0
        } else {
            1
        }
    } else if char_at(text, pos as int) == Some('\n') {
        0
    } else {
        column_at(text, (pos - 1) as nat) + 1
    }
}

/// The line and column of index `pos` as a token position.
pub open spec fn place(text: Seq<char>, pos: nat) -> TokenPosition {
    TokenPosition { line: line_at(text, pos) as u32, column: column_at(text, pos) as u32 }
}

/// The first index from `from` on that holds no digit.
pub open spec fn digits_end(text: Seq<char>, from: nat) -> nat
    decreases text.len() - from,
{
    if from < text.len() && is_digit_char(text[from as int]) {
        digits_end(text, from + 1)
    } else {
        from
    }
}

/// The first index from `from` on that holds no character of a name.
pub open spec fn name_end(text: Seq<char>, from: nat) -> nat
    decreases text.len() - from,
{
    if from < text.len() && is_name_char(text[from as int]) {
        name_end(text, from + 1)
    } else {
        from
    }
}

/// The first index from `from` on that holds a double quote, or the length
/// of the text where none follows.
pub open spec fn quote_index(text: Seq<char>, from: nat) -> nat
    decreases text.len() - from,
{
    if from < text.len() && text[from as int] != '"' {
        quote_index(text, from + 1)
    } else {
        from
    }
}

/// The number that a digit stands for.
pub open spec fn digit_value(c: char) -> nat {
    (c as nat - '0' as nat) as nat
}

/// The number that a sequence of digits writes in base ten.
pub open spec fn decimal_value(digits: Seq<char>) -> nat
    decreases digits.len(),
{
    if digits.len() == 0 {
        0
    } else {
        decimal_value(digits.drop_last()) * 10 + digit_value(digits.last())
    }
}

/// An error of the lexer at the line and column of index `pos`.
pub open spec fn lexer_error(kind: ErrorType, message: Seq<char>, text: Seq<char>, pos: nat) -> ErrorView {
    ErrorView { error_type: kind, error_message: message, position: place(text, pos) }
}

/// A mark of one character: it is placed where it stands.
pub open spec fn single_at(text: Seq<char>, pos: nat, kind: TokenKind) -> Result<(TokenView, nat), ErrorView> {
    Ok((TokenView { value: kind, position: place(text, pos) }, pos + 1))
}

/// A mark that an `=` behind it turns into another: `=` into `==`, `<` into
/// `<=`, `+` into `+=`, and so on.
pub open spec fn pair_at(text: Seq<char>, pos: nat, alone: TokenKind, with_equal: TokenKind) -> Result<(TokenView, nat), ErrorView> {
    if char_at(text, pos as int + 1) == Some('=') {
        Ok((TokenView { value: with_equal, position: place(text, pos) }, pos + 2))
    } else {
        Ok((TokenView { value: alone, position: place(text, pos) }, pos + 1))
    }
}

/// A string: the characters between the quote at `pos` and the next quote.
/// There are no escapes. Without a closing quote the text is refused.
pub open spec fn string_at(text: Seq<char>, pos: nat) -> Result<(TokenView, nat), ErrorView> {
    let close = quote_index(text, pos + 1);
    if close < text.len() {
        Ok(
            (
                TokenView {
                    value: TokenKind::String(text.subrange(pos as int + 1, close as int)),
                    position: place(text, pos),
                },
                close + 1,
            ),
        )
    } else {
        Err(lexer_error(ErrorType::InvalidToken, "Unterminated string"@, text, text.len()))
    }
}

/// A name or a keyword: the longest run of name characters from `pos`.
pub open spec fn word_at(text: Seq<char>, pos: nat) -> Result<(TokenView, nat), ErrorView> {
    let end = name_end(text, pos);
    let word = text.subrange(pos as int, end as int);
    let kind = match keyword_of(word) {
        Some(k) => TokenKind::Keyword(k),
        None => TokenKind::Identifier(word),
    };
    Ok((TokenView { value: kind, position: place(text, pos) }, end))
}

/// A number: digits, and at most one decimal point among or behind them. A
/// number without a point is an integer and must fit in 32 bits; one with a
/// point is a float and keeps its digits as written.
pub open spec fn number_at(text: Seq<char>, pos: nat) -> Result<(TokenView, nat), ErrorView> {
    let whole = digits_end(text, pos);
    if char_at(text, whole as int) != Some('.') {
        let value = decimal_value(text.subrange(pos as int, whole as int));
        if value <= i32::MAX {
            Ok((TokenView { value: TokenKind::Integer(value as i32), position: place(text, pos) }, whole))
        } else {
            Err(lexer_error(ErrorType::InvalidToken, "Integer literal is too large"@, text, pos))
        }
    } else {
        let end = digits_end(text, whole + 1);
        if char_at(text, end as int) == Some('.') {
            Err(
                lexer_error(
                    ErrorType::SyntaxError,
                    "Number cannot have more than one decimal point"@,
                    text,
                    end,
                ),
            )
        } else {
            Ok(
                (
                    TokenView {
                        value: TokenKind::Float(text.subrange(pos as int, end as int)),
                        position: place(text, pos),
                    },
                    end,
                ),
            )
        }
    }
}

/// The message of the error for a character that begins no token.
pub open spec fn unexpected_character(c: char) -> Seq<char> {
    "Unexpected character: '"@ + seq![c] + "'"@
}

/// The token that starts at index `pos`, and the index behind it; or the
/// error that the text is refused with.
pub open spec fn token_at(text: Seq<char>, pos: nat) -> Result<(TokenView, nat), ErrorView>
    recommends
        pos < text.len(),
{
    let c = text[pos as int];
    if c == '(' {
        single_at(text, pos, TokenKind::LeftParen)
    } else if c == ')' {
        single_at(text, pos, TokenKind::RightParen)
    } else if c == '{' {
        single_at(text, pos, TokenKind::LeftBrace)
    } else if c == '}' {
        single_at(text, pos, TokenKind::RightBrace)
    } else if c == ',' {
        single_at(text, pos, TokenKind::Comma)
    } else if c == '.' {
        single_at(text, pos, TokenKind::Dot)
    } else if c == '-' {
        pair_at(text, pos, TokenKind::Minus, TokenKind::MinusEqual)
    } else if c == '+' {
        pair_at(text, pos, TokenKind::Plus, TokenKind::PlusEqual)
    } else if c == ';' {
        single_at(text, pos, TokenKind::Semicolon)
    } else if c == '*' {
        pair_at(text, pos, TokenKind::Star, TokenKind::StarEqual)
    } else if c == '/' {
        pair_at(text, pos, TokenKind::Slash, TokenKind::SlashEqual)
    } else if c == '=' {
        pair_at(text, pos, TokenKind::Equal, TokenKind::EqualEqual)
    } else if c == '!' {
        pair_at(text, pos, TokenKind::Bang, TokenKind::BangEqual)
    } else if c == '>' {
        pair_at(text, pos, TokenKind::Greater, TokenKind::GreaterEqual)
    } else if c == '<' {
        pair_at(text, pos, TokenKind::Less, TokenKind::LessEqual)
    } else if c == '^' {
        single_at(text, pos, TokenKind::Caret)
    } else if c == '"' {
        string_at(text, pos)
    } else if c == '[' {
        single_at(text, pos, TokenKind::LeftSquare)
    } else if c == ']' {
        single_at(text, pos, TokenKind::RightSquare)
    } else if c == '_' {
        single_at(text, pos, TokenKind::Underscore)
    } else if is_digit_char(c) {
        number_at(text, pos)
    } else if is_letter_char(c) {
        word_at(text, pos)
    } else {
        Err(lexer_error(ErrorType::InvalidToken, unexpected_character(c), text, pos))
    }
}

/// The tokens of `text` from index `pos` on, behind the tokens `found`:
/// white space is skipped, and the end marker closes the sequence. A token
/// takes at least one character and ends inside the text
/// ([`lemma_token_progress`]); the test that says so shows that the scan
/// ends.
pub open spec fn scan(text: Seq<char>, pos: nat, found: Seq<TokenView>) -> Result<Seq<TokenView>, ErrorView>
    decreases text.len() - pos,
{
    if pos >= text.len() {
        Ok(found.push(TokenView { value: TokenKind::EOF, position: place(text, pos) }))
    } else if is_space_char(text[pos as int]) {
        scan(text, pos + 1, found)
    } else {
        match token_at(text, pos) {
            Ok((token, next)) => if pos < next <= text.len() {
                scan(text, next, found.push(token))
            } else {
                Ok(found)
            },
            Err(e) => Err(e),
        }
    }
}

/// The error for a text that is longer than the lexer takes: it is reported
/// at the beginning of the text.
pub open spec fn too_long() -> ErrorView {
    ErrorView {
        error_type: ErrorType::SyntaxError,
        error_message: "Source text is too long"@,
        position: TokenPosition { line: 1, column: 1 },
    }
}

/// What the lexer makes of `text` when it starts at index `pos`.
pub open spec fn tokenize_from(text: Seq<char>, pos: nat) -> Result<Seq<TokenView>, ErrorView> {
    if text.len() > MAX_SOURCE_LENGTH {
        Err(too_long())
    } else {
        scan(text, pos, Seq::empty())
    }
}

/// What the lexer makes of a whole text.
pub open spec fn tokenize(text: Seq<char>) -> Result<Seq<TokenView>, ErrorView> {
    tokenize_from(text, 0)
}

/// The view of what [`Lexer::make_tokens`] returns.
pub open spec fn tokens_result(r: Result<Vec<Token>, Error>) -> Result<Seq<TokenView>, ErrorView> {
    match r {
        Ok(tokens) => Ok(token_views(tokens@)),
        Err(e) => Err(e@),
    }
}

/// Whether a lexing step that ended at index `end` with `r` did what
/// `expected` says.
pub open spec fn scanned(r: Result<Token, Error>, end: nat, expected: Result<(TokenView, nat), ErrorView>) -> bool {
    match expected {
        Ok((token, next)) => r is Ok && r->Ok_0@ == token && end == next,
        Err(e) => r is Err && r->Err_0@ == e,
    }
}

/// Lines and columns do not grow faster than the index: the first line is 1,
/// the line is at most two more than the index and the column at most one
/// more.
pub proof fn lemma_place_bounds(text: Seq<char>, pos: nat)
    ensures
        1 <= line_at(text, pos) <= pos + 2,
        column_at(text, pos) <= pos + 1,
    decreases pos,
{
    if pos > 0 {
        lemma_place_bounds(text, (pos - 1) as nat);
    }
}

/// A run of digits ends inside the text, and no digit stands at its end.
pub proof fn lemma_digits_end_bounds(text: Seq<char>, from: nat)
    requires
        from <= text.len(),
    ensures
        from <= digits_end(text, from) <= text.len(),
        char_at(text, digits_end(text, from) as int) is Some ==> !is_digit_char(
            text[digits_end(text, from) as int],
        ),
    decreases text.len() - from,
{
    if from < text.len() && is_digit_char(text[from as int]) {
        lemma_digits_end_bounds(text, from + 1);
    }
}

/// A run of name characters ends inside the text.
pub proof fn lemma_name_end_bounds(text: Seq<char>, from: nat)
    requires
        from <= text.len(),
    ensures
        from <= name_end(text, from) <= text.len(),
    decreases text.len() - from,
{
    if from < text.len() && is_name_char(text[from as int]) {
        lemma_name_end_bounds(text, from + 1);
    }
}

/// The next double quote, or the end of the text, does not lie before the
/// index from which it is looked for.
pub proof fn lemma_quote_index_bounds(text: Seq<char>, from: nat)
    requires
        from <= text.len(),
    ensures
        from <= quote_index(text, from) <= text.len(),
    decreases text.len() - from,
{
    if from < text.len() && text[from as int] != '"' {
        lemma_quote_index_bounds(text, from + 1);
    }
}

/// Every token takes at least one character and ends inside the text.
pub proof fn lemma_token_progress(text: Seq<char>, pos: nat)
    requires
        pos < text.len(),
    ensures
        token_at(text, pos) is Ok ==> pos < token_at(text, pos)->Ok_0.1 <= text.len(),
{
    lemma_quote_index_bounds(text, pos + 1);
    lemma_name_end_bounds(text, pos + 1);
    lemma_digits_end_bounds(text, pos + 1);
    let whole = digits_end(text, pos);
    if is_digit_char(text[pos as int]) {
        assert(whole == digits_end(text, pos + 1));
        if whole < text.len() {
            lemma_digits_end_bounds(text, whole + 1);
        }
    }
}

/// The number of line feeds before index `pos`.
pub open spec fn feeds_before(text: Seq<char>, pos: nat) -> nat
    decreases pos,
{
    if pos == 0 {
        0
    } else if char_at(text, pos - 1) == Some('\n') {
        feeds_before(text, (pos - 1) as nat) + 1
    } else {
        feeds_before(text, (pos - 1) as nat)
    }
}

/// The index at which the line of index `pos` begins: that behind the last
/// line feed before `pos`, or 0.
pub open spec fn line_begin(text: Seq<char>, pos: nat) -> nat
    decreases pos,
{
    if pos == 0 {
        0
    } else if char_at(text, pos - 1) == Some('\n') {
        pos
    } else {
        line_begin(text, (pos - 1) as nat)
    }
}

/// Lines and columns are the usual ones: a character that is no line feed,
/// and the end of the text, is on the line that is one more than the number
/// of line feeds before it, and in the column that is one more than its
/// distance from the beginning of its line.
pub proof fn lemma_place_is_usual(text: Seq<char>, pos: nat)
    requires
        pos <= text.len(),
    ensures
        line_begin(text, pos) <= pos,
        char_at(text, pos as int) != Some('\n') ==> line_at(text, pos) == 1 + feeds_before(text, pos)
            && column_at(text, pos) == pos - line_begin(text, pos) + 1,
        char_at(text, pos as int) == Some('\n') ==> line_at(text, pos) == 2 + feeds_before(text, pos)
            && column_at(text, pos) == 0,
    decreases pos,
{
    if pos > 0 {
        lemma_place_is_usual(text, (pos - 1) as nat);
    }
}

/// Whether a position is one of a source text: line and column are counted
/// from 1.
pub open spec fn placed(position: TokenPosition) -> bool {
    position.line >= 1 && position.column >= 1
}

/// Every character but a line feed, and the end of the text, stands in
/// line 1 or behind it and in column 1 or behind it.
pub proof fn lemma_place_from_one(text: Seq<char>, pos: nat)
    requires
        pos <= text.len() <= MAX_SOURCE_LENGTH,
        char_at(text, pos as int) != Some('\n'),
    ensures
        placed(place(text, pos)),
{
    lemma_place_bounds(text, pos);
    if pos > 0 {
        lemma_place_bounds(text, (pos - 1) as nat);
    }
}

/// Every token is placed at its first character.
pub proof fn lemma_token_place(text: Seq<char>, pos: nat)
    requires
        pos < text.len(),
    ensures
        token_at(text, pos) is Ok ==> token_at(text, pos)->Ok_0.0.position == place(text, pos),
{
}

/// What a scan adds to tokens that are placed is placed.
pub proof fn lemma_scan_is_placed(text: Seq<char>, pos: nat, found: Seq<TokenView>)
    requires
        pos <= text.len() <= MAX_SOURCE_LENGTH,
        forall|i: int| 0 <= i < found.len() ==> placed((#[trigger] found[i]).position),
    ensures
        scan(text, pos, found) is Ok ==> forall|i: int|
            0 <= i < scan(text, pos, found)->Ok_0.len() ==> placed(
                (#[trigger] scan(text, pos, found)->Ok_0[i]).position,
            ),
    decreases text.len() - pos,
{
    if pos >= text.len() {
        lemma_place_from_one(text, pos);
        let tokens = scan(text, pos, found)->Ok_0;
        assert forall|i: int| 0 <= i < tokens.len() implies placed((#[trigger] tokens[i]).position) by {
            if i < found.len() {
                assert(tokens[i] == found[i]);
            }
        }
    } else if is_space_char(text[pos as int]) {
        lemma_scan_is_placed(text, pos + 1, found);
    } else {
        lemma_token_place(text, pos);
        lemma_token_progress(text, pos);
        lemma_place_from_one(text, pos);
        match token_at(text, pos) {
            Ok((token, next)) => {
                let more = found.push(token);
                assert forall|i: int| 0 <= i < more.len() implies placed((#[trigger] more[i]).position) by {
                    if i < found.len() {
                        assert(more[i] == found[i]);
                    }
                }
                lemma_scan_is_placed(text, next, more);
            },
            Err(_) => {},
        }
    }
}

/// The error for what begins no token, or begins one that is not closed or
/// not well made, is placed.
pub proof fn lemma_token_error_place(text: Seq<char>, pos: nat)
    requires
        pos < text.len() <= MAX_SOURCE_LENGTH,
        !is_space_char(text[pos as int]),
    ensures
        token_at(text, pos) is Err ==> placed(token_at(text, pos)->Err_0.position),
{
    lemma_place_from_one(text, pos);
    lemma_place_from_one(text, text.len());
    lemma_digits_end_bounds(text, pos);
    let whole = digits_end(text, pos);
    if whole < text.len() {
        lemma_digits_end_bounds(text, whole + 1);
        let end = digits_end(text, whole + 1);
        if char_at(text, end as int) == Some('.') {
            lemma_place_from_one(text, end);
        }
    }
}

/// The error of a scan is placed.
pub proof fn lemma_scan_error_is_placed(text: Seq<char>, pos: nat, found: Seq<TokenView>)
    requires
        pos <= text.len() <= MAX_SOURCE_LENGTH,
    ensures
        scan(text, pos, found) is Err ==> placed(scan(text, pos, found)->Err_0.position),
    decreases text.len() - pos,
{
    if pos >= text.len() {
    } else if is_space_char(text[pos as int]) {
        lemma_scan_error_is_placed(text, pos + 1, found);
    } else {
        lemma_token_error_place(text, pos);
        lemma_token_progress(text, pos);
        match token_at(text, pos) {
            Ok((token, next)) => {
                lemma_scan_error_is_placed(text, next, found.push(token));
            },
            Err(_) => {},
        }
    }
}

/// Every error of the lexer carries a line and a column that are counted
/// from 1.
pub proof fn lemma_lexer_errors_are_placed(text: Seq<char>, pos: nat)
    requires
        pos <= text.len(),
    ensures
        tokenize_from(text, pos) is Err ==> placed(tokenize_from(text, pos)->Err_0.position),
{
    if text.len() <= MAX_SOURCE_LENGTH {
        lemma_scan_error_is_placed(text, pos, Seq::empty());
    }
}

/// Every token of a text that is lexed, the end marker too, carries a line
/// and a column that are counted from 1: none has the position that is kept
/// for values that no source text produced.
pub proof fn lemma_tokens_are_placed(text: Seq<char>, pos: nat)
    requires
        pos <= text.len(),
    ensures
        tokenize_from(text, pos) is Ok ==> forall|i: int|
            0 <= i < tokenize_from(text, pos)->Ok_0.len() ==> placed(
                (#[trigger] tokenize_from(text, pos)->Ok_0[i]).position,
            ),
{
    if text.len() <= MAX_SOURCE_LENGTH {
        lemma_scan_is_placed(text, pos, Seq::empty());
    }
}

/// A place in a source text: the index of the current character, the
/// character itself, and its line and column.
#[derive(Debug, Clone)]
pub struct LexerPosition {
    pub line: u32,
    pub column: u32,
    pub pos: usize,
    pub current_char: Option<char>,
    pub text: Vec<char>,
}

impl LexerPosition {
    /// The characters of the text that this position points into.
    pub open spec fn source(&self) -> Seq<char> {
        self.text@
    }

    /// The current character is the one that the index points at.
    pub open spec fn wf(&self) -> bool {
        self.current_char == char_at(self.source(), self.pos as int)
    }

    /// The position is well formed, and its line and column are those of its
    /// index.
    pub open spec fn tracks(&self) -> bool {
        &&& self.wf()
        &&& self.line == line_at(self.source(), self.pos as nat)
        &&& self.column == column_at(self.source(), self.pos as nat)
    }

    /// The position of the first character of `text`: line 1, column 1.
    pub fn new(text: &String) -> (r: LexerPosition)
        ensures
            r.source() == text@,
            r.pos == 0,
            r.line == 1,
            r.column == 1,
            r.wf(),
            char_at(text@, 0) != Some('\n') ==> r.tracks(),
    {
        let mut chars: Vec<char> = Vec::new();
        for c in it: text.as_str().chars()
            invariant
                it.seq() == text@,
                chars@ == it.seq().take(it.index()),
        {
            chars.push(c);
            assert(chars@ =~= it.seq().take(it.index() + 1));
        }
        assert(chars@ =~= text@);
        let current_char = if chars.len() > 0 {
            Some(chars[0])
        } else {
            None
        };
        LexerPosition { line: 1, column: 1, pos: 0, current_char, text: chars }
    }

    /// A position with the line and column of a token, in an empty text.
    pub fn from(token_pos: TokenPosition) -> (r: LexerPosition)
        ensures
            r.line == token_pos.line,
            r.column == token_pos.column,
            r.pos == 0,
            r.current_char is None,
            r.source() == Seq::<char>::empty(),
            r.wf(),
    {
        LexerPosition {
            line: token_pos.line,
            column: token_pos.column,
            pos: 0,
            current_char: None,
            text: Vec::new(),
        }
    }

    /// Moves to the next character. A line feed opens a new line and stands
    /// in its column 0; any other character, and the end of the text, stands
    /// one column further.
    pub fn advance(&mut self)
        requires
            old(self).pos < usize::MAX,
            old(self).line < u32::MAX,
            old(self).column < u32::MAX,
        ensures
            final(self).text == old(self).text,
            final(self).pos == old(self).pos + 1,
            final(self).wf(),
            final(self).line == if final(self).current_char == Some('\n') {
                old(self).line + 1
            } else {
                old(self).line as int
            },
            final(self).column == if final(self).current_char == Some('\n') {
                0
            } else {
                old(self).column + 1
            },
            old(self).tracks() ==> final(self).tracks(),
    {
        self.pos += 1;
        self.current_char = if self.pos < self.text.len() {
            Some(self.text[self.pos])
        } else {
            None
        };
        if self.current_char == Some('\n') {
            self.line += 1;
            self.column = 0;
        } else {
            self.column += 1;
        }
    }
}

/// Whether `c` has the Unicode property `White_Space`.
pub fn is_whitespace(c: char) -> (r: bool)
    ensures
        r == is_space_char(c),
{
    c == ' ' || ('\u{9}' <= c && c <= '\u{d}') || c == '\u{85}' || c == '\u{a0}' || c
        == '\u{1680}' || ('\u{2000}' <= c && c <= '\u{200a}') || c == '\u{2028}' || c
        == '\u{2029}' || c == '\u{202f}' || c == '\u{205f}' || c == '\u{3000}'
}

/// The lexer: a source text and a position in it.
#[derive(Debug)]
pub struct Lexer {
    text: String,
    position: LexerPosition,
}

impl Lexer {
    /// The characters of the text that is being lexed.
    pub closed spec fn source(&self) -> Seq<char> {
        self.text@
    }

    /// The index of the character at which the lexer stands.
    pub closed spec fn offset(&self) -> nat {
        self.position.pos as nat
    }

    /// The lexer stands inside its text or at its end, and its line and
    /// column are those of its index.
    pub closed spec fn wf(&self) -> bool {
        &&& self.position.text@ == self.text@
        &&& self.position.tracks()
        &&& self.position.pos <= self.text@.len()
    }

    /// The line and column at which the lexer stands.
    pub closed spec fn here(&self) -> TokenPosition {
        TokenPosition::spec_from(&self.position)
    }

    spec fn ready(&self) -> bool {
        self.wf() && self.text@.len() <= MAX_SOURCE_LENGTH
    }

    proof fn lemma_here(&self)
        requires
            self.ready(),
        ensures
            self.here() == place(self.source(), self.offset()),
            self.position.line < u32::MAX,
            self.position.column < u32::MAX,
            self.position.pos < usize::MAX,
    {
        lemma_place_bounds(self.text@, self.position.pos as nat);
    }

    /// A lexer at the start of `text`. A line feed there stands, as every
    /// line feed does, before the line that it opens: the second.
    pub fn new(text: String) -> (r: Lexer)
        ensures
            r.source() == text@,
            r.offset() == 0,
            r.wf(),
    {
        let mut position = LexerPosition::new(&text);
        if position.current_char == Some('\n') {
            position.line = 2;
            position.column = 0;
        }
        Lexer { text, position }
    }

    /// Lexes the text from the current position to its end.
    pub fn make_tokens(&mut self) -> (r: Result<Vec<Token>, Error>)
        requires
            old(self).wf(),
        ensures
            tokens_result(r) == tokenize_from(old(self).source(), old(self).offset()),
            final(self).source() == old(self).source(),
            final(self).wf(),
            r is Ok ==> final(self).offset() == old(self).source().len(),
            r is Ok ==> r->Ok_0.len() > 0,
            r is Ok ==> forall|i: int|
                0 <= i < r->Ok_0.len() ==> placed((#[trigger] r->Ok_0[i]).position),
            r is Err ==> placed(r->Err_0.position),
    {
        if self.position.text.len() > MAX_SOURCE_LENGTH {
            return Err(
                Error {
                    error_type: ErrorType::SyntaxError,
                    error_message: String::from_str("Source text is too long"),
                    position: TokenPosition { line: 1, column: 1 },
                },
            );
        }
        let mut tokens: Vec<Token> = Vec::new();
        let ghost text = self.text@;
        let ghost start = self.position.pos as nat;
        assert(token_views(tokens@) =~= Seq::<TokenView>::empty());
        while self.position.current_char.is_some()
            invariant
                self.ready(),
                self.text@ == text,
                text == old(self).source(),
                start == old(self).offset(),
                scan(text, start, Seq::empty()) == scan(text, self.offset(), token_views(tokens@)),
            decreases text.len() - self.position.pos,
        {
            let current_char = self.position.current_char.unwrap();
            let ghost pos = self.position.pos as nat;
            let ghost before = token_views(tokens@);
            proof {
                self.lemma_here();
                lemma_token_progress(text, pos);
            }
            if is_whitespace(current_char) {
                self.position.advance();
            } else {
                let made = if current_char == '(' {
                    self.make_single(TokenType::LeftParen)
                } else if current_char == ')' {
                    self.make_single(TokenType::RightParen)
                } else if current_char == '{' {
                    self.make_single(TokenType::LeftBrace)
                } else if current_char == '}' {
                    self.make_single(TokenType::RightBrace)
                } else if current_char == ',' {
                    self.make_single(TokenType::Comma)
                } else if current_char == '.' {
                    self.make_single(TokenType::Dot)
                } else if current_char == '-' {
                    self.make_pair(TokenType::Minus, TokenType::MinusEqual)
                } else if current_char == '+' {
                    self.make_pair(TokenType::Plus, TokenType::PlusEqual)
                } else if current_char == ';' {
                    self.make_single(TokenType::Semicolon)
                } else if current_char == '*' {
                    self.make_pair(TokenType::Star, TokenType::StarEqual)
                } else if current_char == '/' {
                    self.make_pair(TokenType::Slash, TokenType::SlashEqual)
                } else if current_char == '=' {
                    self.make_equals()
                } else if current_char == '!' {
                    self.make_not_equals()
                } else if current_char == '>' {
                    self.make_greater_than()
                } else if current_char == '<' {
                    self.make_less_than()
                } else if current_char == '^' {
                    self.make_single(TokenType::Caret)
                } else if current_char == '"' {
                    self.make_string()
                } else if current_char == '[' {
                    self.make_single(TokenType::LeftSquare)
                } else if current_char == ']' {
                    self.make_single(TokenType::RightSquare)
                } else if current_char == '_' {
                    self.make_single(TokenType::Underscore)
                } else if self.is_digit(current_char) {
                    self.make_number()
                } else if self.is_letter(current_char) {
                    self.make_identifier()
                } else {
                    let mut message = String::from_str("Unexpected character: '");
                    message.push(current_char);
                    message.append("'");
                    assert(message@ =~= unexpected_character(current_char));
                    Err(Error::new_lexer(ErrorType::InvalidToken, message, &self.position))
                };
                assert(scanned(made, self.offset(), token_at(text, pos)));
                match made {
                    Ok(token) => {
                        tokens.push(token);
                        assert(token_views(tokens@) =~= before.push(token@));
                    },
                    Err(e) => {
                        proof {
                            lemma_lexer_errors_are_placed(text, start);
                        }
                        return Err(e);
                    },
                }
            }
        }
        proof {
            self.lemma_here();
        }
        let ghost before = token_views(tokens@);
        let end = Token::new(TokenType::EOF, &self.position);
        tokens.push(end);
        assert(token_views(tokens@) =~= before.push(end@));
        proof {
            lemma_tokens_are_placed(text, start);
            assert forall|i: int| 0 <= i < tokens.len() implies placed(
                (#[trigger] tokens[i]).position,
            ) by {
                assert(token_views(tokens@)[i].position == tokens[i].position);
            }
        }
        Ok(tokens)
    }

    /// The current character, or an error with the message `error` at the
    /// end of the text.
    fn get_current_char(&self, error: &str) -> (r: Result<char, Error>)
        ensures
            match self.position.current_char {
                Some(c) => r == Ok::<char, Error>(c),
                None => r is Err && r->Err_0@ == (ErrorView {
                    error_type: ErrorType::InvalidToken,
                    error_message: error@,
                    position: self.here(),
                }),
            },
    {
        match self.position.current_char {
            Some(c) => Ok(c),
            None => Err(
                Error::new_lexer(ErrorType::InvalidToken, String::from_str(error), &self.position),
            ),
        }
    }

    /// Succeeds where the current character is `expected`.
    fn expect(&self, expected: char) -> (r: Result<(), Error>)
        ensures
            r is Ok <==> self.position.current_char == Some(expected),
            r is Err ==> r->Err_0@.error_type == ErrorType::InvalidToken && r->Err_0@.position
                == self.here(),
            r is Err && self.position.current_char is None ==> r->Err_0@.error_message
                == "Expected '"@ + seq![expected] + "'"@,
            r is Err && self.position.current_char is Some ==> r->Err_0@.error_message
                == "Expected '"@ + seq![expected] + "', got "@ + seq![
                self.position.current_char->Some_0,
            ],
    {
        let mut message = String::from_str("Expected '");
        message.push(expected);
        message.append("'");
        assert(message@ =~= "Expected '"@ + seq![expected] + "'"@);
        match self.get_current_char(message.as_str()) {
            Ok(c) => {
                if c == expected {
                    Ok(())
                } else {
                    let mut message = String::from_str("Expected '");
                    message.push(expected);
                    message.append("', got ");
                    message.push(c);
                    assert(message@ =~= "Expected '"@ + seq![expected] + "', got "@ + seq![c]);
                    Err(Error::new_lexer(ErrorType::InvalidToken, message, &self.position))
                }
            },
            Err(e) => Err(e),
        }
    }

    /// A token of one character at the current position.
    fn make_single(&mut self, kind: TokenType) -> (r: Result<Token, Error>)
        requires
            old(self).ready(),
            old(self).offset() < old(self).source().len(),
        ensures
            final(self).source() == old(self).source(),
            final(self).ready(),
            scanned(r, final(self).offset(), single_at(old(self).source(), old(self).offset(), kind@)),
    {
        proof {
            self.lemma_here();
        }
        let token = Token::new(kind, &self.position);
        self.position.advance();
        Ok(token)
    }

    /// A string, from its opening quote to its closing quote.
    fn make_string(&mut self) -> (r: Result<Token, Error>)
        requires
            old(self).ready(),
            old(self).offset() < old(self).source().len(),
            old(self).source()[old(self).offset() as int] == '"',
        ensures
            final(self).source() == old(self).source(),
            final(self).ready(),
            scanned(r, final(self).offset(), string_at(old(self).source(), old(self).offset())),
    {
        let ghost text = self.text@;
        let ghost start = self.position.pos as nat;
        let mut string = String::new();
        proof {
            self.lemma_here();
        }
        let first = TokenPosition::from(&self.position);
        match self.expect('"') {
            Ok(_) => {},
            Err(e) => {
                return Err(e);
            },
        }
        proof {
            self.lemma_here();
        }
        self.position.advance();
        let mut open = true;
        assert(string@ =~= text.subrange(start as int + 1, self.position.pos as int));
        while open
            invariant
                self.ready(),
                self.text@ == text,
                first == place(text, start),
                text == old(self).source(),
                start == old(self).offset(),
                start < self.position.pos <= text.len(),
                quote_index(text, start + 1) == quote_index(text, self.position.pos as nat),
                string@ == text.subrange(start as int + 1, self.position.pos as int),
                !open ==> self.position.current_char == Some('"'),
            decreases text.len() - self.position.pos + (if open { 1nat } else { 0nat }),
        {
            proof {
                self.lemma_here();
            }
            let c = match self.get_current_char("Unterminated string") {
                Ok(c) => c,
                Err(e) => {
                    return Err(e);
                },
            };
            if c == '"' {
                open = false;
            } else {
                let ghost before = string@;
                string.push(c);
                self.position.advance();
                assert(string@ =~= text.subrange(start as int + 1, self.position.pos as int));
            }
        }
        match self.expect('"') {
            Ok(_) => {},
            Err(e) => {
                return Err(e);
            },
        }
        proof {
            self.lemma_here();
        }
        self.position.advance();
        proof {
            self.lemma_here();
        }
        Ok(Token { value: TokenType::String(string), position: first })
    }

    /// The character behind the current one, if there is one.
    fn peek_char(&self) -> (r: Option<char>)
        requires
            self.ready(),
        ensures
            r == char_at(self.source(), self.offset() as int + 1),
    {
        if self.position.pos + 1 < self.position.text.len() {
            Some(self.position.text[self.position.pos + 1])
        } else {
            None
        }
    }

    /// The mark `with_equal` where an `=` follows the current character, the
    /// mark `alone` where none does.
    fn make_pair(&mut self, alone: TokenType, with_equal: TokenType) -> (r: Result<Token, Error>)
        requires
            old(self).ready(),
            old(self).offset() < old(self).source().len(),
        ensures
            final(self).source() == old(self).source(),
            final(self).ready(),
            scanned(
                r,
                final(self).offset(),
                pair_at(old(self).source(), old(self).offset(), alone@, with_equal@),
            ),
    {
        proof {
            self.lemma_here();
        }
        let token = if self.peek_char() == Some('=') {
            let token = Token::new(with_equal, &self.position);
            self.position.advance();
            token
        } else {
            Token::new(alone, &self.position)
        };
        proof {
            self.lemma_here();
        }
        self.position.advance();
        Ok(token)
    }

    /// `<=` or `<`.
    fn make_less_than(&mut self) -> (r: Result<Token, Error>)
        requires
            old(self).ready(),
            old(self).offset() < old(self).source().len(),
        ensures
            final(self).source() == old(self).source(),
            final(self).ready(),
            scanned(
                r,
                final(self).offset(),
                pair_at(old(self).source(), old(self).offset(), TokenKind::Less, TokenKind::LessEqual),
            ),
    {
        self.make_pair(TokenType::Less, TokenType::LessEqual)
    }

    /// `>=` or `>`.
    fn make_greater_than(&mut self) -> (r: Result<Token, Error>)
        requires
            old(self).ready(),
            old(self).offset() < old(self).source().len(),
        ensures
            final(self).source() == old(self).source(),
            final(self).ready(),
            scanned(
                r,
                final(self).offset(),
                pair_at(
                    old(self).source(),
                    old(self).offset(),
                    TokenKind::Greater,
                    TokenKind::GreaterEqual,
                ),
            ),
    {
        self.make_pair(TokenType::Greater, TokenType::GreaterEqual)
    }

    /// `!=` or `!`.
    fn make_not_equals(&mut self) -> (r: Result<Token, Error>)
        requires
            old(self).ready(),
            old(self).offset() < old(self).source().len(),
        ensures
            final(self).source() == old(self).source(),
            final(self).ready(),
            scanned(
                r,
                final(self).offset(),
                pair_at(old(self).source(), old(self).offset(), TokenKind::Bang, TokenKind::BangEqual),
            ),
    {
        self.make_pair(TokenType::Bang, TokenType::BangEqual)
    }

    /// `==` or `=`.
    fn make_equals(&mut self) -> (r: Result<Token, Error>)
        requires
            old(self).ready(),
            old(self).offset() < old(self).source().len(),
        ensures
            final(self).source() == old(self).source(),
            final(self).ready(),
            scanned(
                r,
                final(self).offset(),
                pair_at(old(self).source(), old(self).offset(), TokenKind::Equal, TokenKind::EqualEqual),
            ),
    {
        self.make_pair(TokenType::Equal, TokenType::EqualEqual)
    }

    /// A name or a keyword, from the letter at the current position.
    fn make_identifier(&mut self) -> (r: Result<Token, Error>)
        requires
            old(self).ready(),
            old(self).offset() < old(self).source().len(),
        ensures
            final(self).source() == old(self).source(),
            final(self).ready(),
            scanned(r, final(self).offset(), word_at(old(self).source(), old(self).offset())),
    {
        let ghost text = self.text@;
        let ghost start = self.position.pos as nat;
        proof {
            self.lemma_here();
        }
        let first = TokenPosition::from(&self.position);
        let mut identifier = String::new();
        let mut inside = true;
        assert(identifier@ =~= text.subrange(start as int, self.position.pos as int));
        while inside
            invariant
                self.ready(),
                self.text@ == text,
                first == place(text, start),
                text == old(self).source(),
                start == old(self).offset(),
                start <= self.position.pos <= text.len(),
                name_end(text, start) == name_end(text, self.position.pos as nat),
                identifier@ == text.subrange(start as int, self.position.pos as int),
                !inside ==> name_end(text, start) == self.position.pos,
            decreases text.len() - self.position.pos + (if inside { 1nat } else { 0nat }),
        {
            proof {
                self.lemma_here();
            }
            match self.position.current_char {
                Some(current_char) => {
                    if self.is_letter(current_char) || current_char == '_' || self.is_digit(
                        current_char,
                    ) {
                        identifier.push(current_char);
                        self.position.advance();
                        assert(identifier@ =~= text.subrange(start as int, self.position.pos as int));
                    } else {
                        inside = false;
                    }
                },
                None => {
                    inside = false;
                },
            }
        }
        proof {
            self.lemma_here();
        }
        match Keyword::from(identifier.as_str()) {
            Some(keyword) => Ok(Token { value: TokenType::Keyword(keyword), position: first }),
            None => Ok(Token { value: TokenType::Identifier(identifier), position: first }),
        }
    }

    /// A number, from the digit at the current position.
    fn make_number(&mut self) -> (r: Result<Token, Error>)
        requires
            old(self).ready(),
            old(self).offset() < old(self).source().len(),
            is_digit_char(old(self).source()[old(self).offset() as int]),
        ensures
            final(self).source() == old(self).source(),
            final(self).ready(),
            scanned(r, final(self).offset(), number_at(old(self).source(), old(self).offset())),
    {
        let ghost text = self.text@;
        let ghost start = self.position.pos as nat;
        let ghost whole: nat = 0;
        proof {
            self.lemma_here();
        }
        let first = TokenPosition::from(&self.position);
        let mut number = String::new();
        let mut dot_count: u32 = 0;
        let mut value: u64 = 0;
        let mut too_large = false;
        let mut inside = true;
        assert(number@ =~= text.subrange(start as int, self.position.pos as int));
        while inside
            invariant
                self.ready(),
                self.text@ == text,
                first == place(text, start),
                text == old(self).source(),
                start == old(self).offset(),
                start <= self.position.pos <= text.len(),
                number@ == text.subrange(start as int, self.position.pos as int),
                dot_count <= 1,
                dot_count == 0 ==> {
                    &&& digits_end(text, start) == digits_end(text, self.position.pos as nat)
                    &&& !too_large ==> value == decimal_value(number@) && value <= i32::MAX
                    &&& too_large ==> decimal_value(number@) > i32::MAX
                },
                dot_count == 1 ==> {
                    &&& start <= whole < self.position.pos
                    &&& digits_end(text, start) == whole
                    &&& text[whole as int] == '.'
                    &&& digits_end(text, whole + 1) == digits_end(text, self.position.pos as nat)
                    &&& !too_large ==> value == decimal_value(text.subrange(start as int, whole as int))
                        && value <= i32::MAX
                    &&& too_large ==> decimal_value(text.subrange(start as int, whole as int))
                        > i32::MAX
                },
                !inside ==> digits_end(text, self.position.pos as nat) == self.position.pos
                    && char_at(text, self.position.pos as int) != Some('.'),
            decreases text.len() - self.position.pos + (if inside { 1nat } else { 0nat }),
        {
            proof {
                self.lemma_here();
            }
            match self.position.current_char {
                Some(current_char) => {
                    if self.is_digit(current_char) {
                        let ghost before = number@;
                        number.push(current_char);
                        if dot_count == 0 {
                            assert(number@.drop_last() =~= before);
                            let digit = (current_char as u32 - '0' as u32) as u64;
                            if too_large || value * 10 + digit > i32::MAX as u64 {
                                too_large = true;
                            } else {
                                value = value * 10 + digit;
                            }
                        }
                        self.position.advance();
                        assert(number@ =~= text.subrange(start as int, self.position.pos as int));
                    } else if current_char == '.' {
                        if dot_count > 0 {
                            return Err(
                                Error::new_lexer(
                                    ErrorType::SyntaxError,
                                    String::from_str(
                                        "Number cannot have more than one decimal point",
                                    ),
                                    &self.position,
                                ),
                            );
                        }
                        proof {
                            whole = self.position.pos as nat;
                        }
                        dot_count += 1;
                        number.push(current_char);
                        self.position.advance();
                        assert(number@ =~= text.subrange(start as int, self.position.pos as int));
                    } else {
                        inside = false;
                    }
                },
                None => {
                    inside = false;
                },
            }
        }
        proof {
            self.lemma_here();
        }
        if dot_count == 0 {
            if too_large {
                Err(
                    Error {
                        error_type: ErrorType::InvalidToken,
                        error_message: String::from_str("Integer literal is too large"),
                        position: first,
                    },
                )
            } else {
                Ok(Token { value: TokenType::Integer(value as i32), position: first })
            }
        } else {
            Ok(Token { value: TokenType::Float(number), position: first })
        }
    }

    /// Whether `c` is one of the digits `0` to `9`.
    fn is_digit(&self, c: char) -> (r: bool)
        ensures
            r == is_digit_char(c),
    {
        '0' <= c && c <= '9'
    }

    /// Whether `c` is one of the letters `a` to `z` and `A` to `Z`.
    fn is_letter(&self, c: char) -> (r: bool)
        ensures
            r == is_letter_char(c),
    {
        ('a' <= c && c <= 'z') || ('A' <= c && c <= 'Z')
    }
}

} // verus!
