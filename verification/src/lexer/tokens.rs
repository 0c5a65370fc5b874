//! The tokens that the lexer produces and the parser consumes.
use vstd::prelude::*;
use vstd::string::StringExecFns;
use crate::lexer::LexerPosition;
use crate::text::{int_text, push_int};

verus! {

/// Where a token stands in the source text. Line 0, column 0 is kept for
/// values that no source text produced.
#[derive(Copy, Clone, Debug, PartialEq, Eq, Structural)]
pub struct TokenPosition {
    pub line: u32,
    pub column: u32,
}

/// The keywords of the language.
#[derive(Copy, Clone, Debug, PartialEq, Eq, Structural)]
pub enum Keyword {
    Let,
    And,
    Not,
    Or,
    If,
    Else,
    Elif,
    Func,
    Return,
    Assert,
}

/// The kinds of token, with the payload of the kinds that carry one.
///
/// A float literal carries its digits as written (`12.5`): the library holds
/// no floating-point numbers and leaves the conversion to the host.
#[derive(Debug, PartialEq)]
pub enum TokenType {
    LeftParen,
    RightParen,
    LeftBrace,
    RightBrace,
    LeftSquare,
    RightSquare,
    Comma,
    Dot,
    Minus,
    Plus,
    Semicolon,
    Slash,
    Star,
    Caret,
    Underscore,
    Bang,
    BangEqual,
    Equal,
    EqualEqual,
    Greater,
    GreaterEqual,
    Less,
    LessEqual,
    PlusEqual,
    MinusEqual,
    StarEqual,
    SlashEqual,
    Integer(i32),
    Float(String),
    String(String),
    Identifier(String),
    Keyword(Keyword),
    EOF,
}

/// The mathematical value of a [`TokenType`]: text payloads are sequences of
/// characters.
pub enum TokenKind {
    LeftParen,
    RightParen,
    LeftBrace,
    RightBrace,
    LeftSquare,
    RightSquare,
    Comma,
    Dot,
    Minus,
    Plus,
    Semicolon,
    Slash,
    Star,
    Caret,
    Underscore,
    Bang,
    BangEqual,
    Equal,
    EqualEqual,
    Greater,
    GreaterEqual,
    Less,
    LessEqual,
    PlusEqual,
    MinusEqual,
    StarEqual,
    SlashEqual,
    Integer(i32),
    Float(Seq<char>),
    String(Seq<char>),
    Identifier(Seq<char>),
    Keyword(Keyword),
    EOF,
}

/// A token: its kind and where it stands.
#[derive(Debug, PartialEq)]
pub struct Token {
    pub value: TokenType,
    pub position: TokenPosition,
}

/// The mathematical value of a [`Token`].
pub struct TokenView {
    pub value: TokenKind,
    pub position: TokenPosition,
}

impl View for TokenType {
    type V = TokenKind;

    open spec fn view(&self) -> TokenKind {
        match self {
            TokenType::LeftParen => TokenKind::LeftParen,
            TokenType::RightParen => TokenKind::RightParen,
            TokenType::LeftBrace => TokenKind::LeftBrace,
            TokenType::RightBrace => TokenKind::RightBrace,
            TokenType::LeftSquare => TokenKind::LeftSquare,
            TokenType::RightSquare => TokenKind::RightSquare,
            TokenType::Comma => TokenKind::Comma,
            TokenType::Dot => TokenKind::Dot,
            TokenType::Minus => TokenKind::Minus,
            TokenType::Plus => TokenKind::Plus,
            TokenType::Semicolon => TokenKind::Semicolon,
            TokenType::Slash => TokenKind::Slash,
            TokenType::Star => TokenKind::Star,
            TokenType::Caret => TokenKind::Caret,
            TokenType::Underscore => TokenKind::Underscore,
            TokenType::Bang => TokenKind::Bang,
            TokenType::BangEqual => TokenKind::BangEqual,
            TokenType::Equal => TokenKind::Equal,
            TokenType::EqualEqual => TokenKind::EqualEqual,
            TokenType::Greater => TokenKind::Greater,
            TokenType::GreaterEqual => TokenKind::GreaterEqual,
            TokenType::Less => TokenKind::Less,
            TokenType::LessEqual => TokenKind::LessEqual,
            TokenType::PlusEqual => TokenKind::PlusEqual,
            TokenType::MinusEqual => TokenKind::MinusEqual,
            TokenType::StarEqual => TokenKind::StarEqual,
            TokenType::SlashEqual => TokenKind::SlashEqual,
            TokenType::Integer(i) => TokenKind::Integer(*i),
            TokenType::Float(s) => TokenKind::Float(s@),
            TokenType::String(s) => TokenKind::String(s@),
            TokenType::Identifier(s) => TokenKind::Identifier(s@),
            TokenType::Keyword(k) => TokenKind::Keyword(*k),
            TokenType::EOF => TokenKind::EOF,
        }
    }
}

impl View for Token {
    type V = TokenView;

    open spec fn view(&self) -> TokenView {
        TokenView { value: self.value@, position: self.position }
    }
}

/// The views of a sequence of tokens, one for one.
pub open spec fn token_views(tokens: Seq<Token>) -> Seq<TokenView> {
    Seq::new(tokens.len(), |i: int| tokens[i]@)
}

/// The views of a sequence of texts, one for one.
pub open spec fn text_views(texts: Seq<String>) -> Seq<Seq<char>> {
    Seq::new(texts.len(), |i: int| texts[i]@)
}

/// The keyword that the word `s` spells, if it spells one.
pub open spec fn keyword_of(s: Seq<char>) -> Option<Keyword> {
    if s == "let"@ {
        Some(Keyword::Let)
    } else if s == "and"@ {
        Some(Keyword::And)
    } else if s == "not"@ {
        Some(Keyword::Not)
    } else if s == "or"@ {
        Some(Keyword::Or)
    } else if s == "if"@ {
        Some(Keyword::If)
    } else if s == "else"@ {
        Some(Keyword::Else)
    } else if s == "elif"@ {
        Some(Keyword::Elif)
    } else if s == "func"@ {
        Some(Keyword::Func)
    } else if s == "return"@ {
        Some(Keyword::Return)
    } else if s == "assert"@ {
        Some(Keyword::Assert)
    } else {
        None
    }
}

/// The word that spells the keyword `k`.
pub open spec fn keyword_text(k: Keyword) -> Seq<char> {
    match k {
        Keyword::Let => "let"@,
        Keyword::And => "and"@,
        Keyword::Not => "not"@,
        Keyword::Or => "or"@,
        Keyword::If => "if"@,
        Keyword::Else => "else"@,
        Keyword::Elif => "elif"@,
        Keyword::Func => "func"@,
        Keyword::Return => "return"@,
        Keyword::Assert => "assert"@,
    }
}

/// The text of a token as it is written in source: the mark itself, the
/// digits of a number, the characters of a string or a name, the keyword's
/// word, and `EOF` for the end marker.
pub open spec fn kind_text(kind: TokenKind) -> Seq<char> {
    match kind {
        TokenKind::LeftParen => "("@,
        TokenKind::RightParen => ")"@,
        TokenKind::LeftBrace => "{"@,
        TokenKind::RightBrace => "}"@,
        TokenKind::LeftSquare => "["@,
        TokenKind::RightSquare => "]"@,
        TokenKind::Comma => ","@,
        TokenKind::Dot => "."@,
        TokenKind::Minus => "-"@,
        TokenKind::Plus => "+"@,
        TokenKind::Semicolon => ";"@,
        TokenKind::Slash => "/"@,
        TokenKind::Star => "*"@,
        TokenKind::Caret => "^"@,
        TokenKind::Underscore => "_"@,
        TokenKind::Bang => "!"@,
        TokenKind::BangEqual => "!="@,
        TokenKind::Equal => "="@,
        TokenKind::EqualEqual => "=="@,
        TokenKind::Greater => ">"@,
        TokenKind::GreaterEqual => ">="@,
        TokenKind::Less => "<"@,
        TokenKind::LessEqual => "<="@,
        TokenKind::PlusEqual => "+="@,
        TokenKind::MinusEqual => "-="@,
        TokenKind::StarEqual => "*="@,
        TokenKind::SlashEqual => "/="@,
        TokenKind::Integer(i) => int_text(i as int),
        TokenKind::Float(s) => s,
        TokenKind::String(s) => s,
        TokenKind::Identifier(s) => s,
        TokenKind::Keyword(k) => keyword_text(k),
        TokenKind::EOF => "EOF"@,
    }
}

impl Keyword {
    /// The keyword that `s` spells, or `None` where `s` is no keyword.
    pub fn from(s: &str) -> (r: Option<Keyword>)
        ensures
            r == keyword_of(s@),
    {
        let word = s.to_owned();
        if word == String::from_str("let") {
            Some(Keyword::Let)
        } else if word == String::from_str("and") {
            Some(Keyword::And)
        } else if word == String::from_str("not") {
            Some(Keyword::Not)
        } else if word == String::from_str("or") {
            Some(Keyword::Or)
        } else if word == String::from_str("if") {
            Some(Keyword::If)
        } else if word == String::from_str("else") {
            Some(Keyword::Else)
        } else if word == String::from_str("elif") {
            Some(Keyword::Elif)
        } else if word == String::from_str("func") {
            Some(Keyword::Func)
        } else if word == String::from_str("return") {
            Some(Keyword::Return)
        } else if word == String::from_str("assert") {
            Some(Keyword::Assert)
        } else {
            None
        }
    }

    /// The word that spells this keyword.
    pub fn to_string(&self) -> (r: String)
        ensures
            r@ == keyword_text(*self),
    {
        match self {
            Keyword::Let => String::from_str("let"),
            Keyword::And => String::from_str("and"),
            Keyword::Not => String::from_str("not"),
            Keyword::Or => String::from_str("or"),
            Keyword::If => String::from_str("if"),
            Keyword::Else => String::from_str("else"),
            Keyword::Elif => String::from_str("elif"),
            Keyword::Func => String::from_str("func"),
            Keyword::Return => String::from_str("return"),
            Keyword::Assert => String::from_str("assert"),
        }
    }
}

impl Clone for TokenType {
    fn clone(&self) -> (r: TokenType)
        ensures
            r == *self,
    {
        match self {
            TokenType::LeftParen => TokenType::LeftParen,
            TokenType::RightParen => TokenType::RightParen,
            TokenType::LeftBrace => TokenType::LeftBrace,
            TokenType::RightBrace => TokenType::RightBrace,
            TokenType::LeftSquare => TokenType::LeftSquare,
            TokenType::RightSquare => TokenType::RightSquare,
            TokenType::Comma => TokenType::Comma,
            TokenType::Dot => TokenType::Dot,
            TokenType::Minus => TokenType::Minus,
            TokenType::Plus => TokenType::Plus,
            TokenType::Semicolon => TokenType::Semicolon,
            TokenType::Slash => TokenType::Slash,
            TokenType::Star => TokenType::Star,
            TokenType::Caret => TokenType::Caret,
            TokenType::Underscore => TokenType::Underscore,
            TokenType::Bang => TokenType::Bang,
            TokenType::BangEqual => TokenType::BangEqual,
            TokenType::Equal => TokenType::Equal,
            TokenType::EqualEqual => TokenType::EqualEqual,
            TokenType::Greater => TokenType::Greater,
            TokenType::GreaterEqual => TokenType::GreaterEqual,
            TokenType::Less => TokenType::Less,
            TokenType::LessEqual => TokenType::LessEqual,
            TokenType::PlusEqual => TokenType::PlusEqual,
            TokenType::MinusEqual => TokenType::MinusEqual,
            TokenType::StarEqual => TokenType::StarEqual,
            TokenType::SlashEqual => TokenType::SlashEqual,
            TokenType::Integer(i) => TokenType::Integer(*i),
            TokenType::Float(s) => TokenType::Float(s.clone()),
            TokenType::String(s) => TokenType::String(s.clone()),
            TokenType::Identifier(s) => TokenType::Identifier(s.clone()),
            TokenType::Keyword(k) => TokenType::Keyword(*k),
            TokenType::EOF => TokenType::EOF,
        }
    }
}

impl TokenType {
    /// Whether two token kinds are the same kind with the same payload.
    pub fn same(&self, other: &TokenType) -> (r: bool)
        ensures
            r == (self@ == other@),
    {
        match (self, other) {
            (TokenType::LeftParen, TokenType::LeftParen) => true,
            (TokenType::RightParen, TokenType::RightParen) => true,
            (TokenType::LeftBrace, TokenType::LeftBrace) => true,
            (TokenType::RightBrace, TokenType::RightBrace) => true,
            (TokenType::LeftSquare, TokenType::LeftSquare) => true,
            (TokenType::RightSquare, TokenType::RightSquare) => true,
            (TokenType::Comma, TokenType::Comma) => true,
            (TokenType::Dot, TokenType::Dot) => true,
            (TokenType::Minus, TokenType::Minus) => true,
            (TokenType::Plus, TokenType::Plus) => true,
            (TokenType::Semicolon, TokenType::Semicolon) => true,
            (TokenType::Slash, TokenType::Slash) => true,
            (TokenType::Star, TokenType::Star) => true,
            (TokenType::Caret, TokenType::Caret) => true,
            (TokenType::Underscore, TokenType::Underscore) => true,
            (TokenType::Bang, TokenType::Bang) => true,
            (TokenType::BangEqual, TokenType::BangEqual) => true,
            (TokenType::Equal, TokenType::Equal) => true,
            (TokenType::EqualEqual, TokenType::EqualEqual) => true,
            (TokenType::Greater, TokenType::Greater) => true,
            (TokenType::GreaterEqual, TokenType::GreaterEqual) => true,
            (TokenType::Less, TokenType::Less) => true,
            (TokenType::LessEqual, TokenType::LessEqual) => true,
            (TokenType::PlusEqual, TokenType::PlusEqual) => true,
            (TokenType::MinusEqual, TokenType::MinusEqual) => true,
            (TokenType::StarEqual, TokenType::StarEqual) => true,
            (TokenType::SlashEqual, TokenType::SlashEqual) => true,
            (TokenType::Integer(a), TokenType::Integer(b)) => *a == *b,
            (TokenType::Float(a), TokenType::Float(b)) => *a == *b,
            (TokenType::String(a), TokenType::String(b)) => *a == *b,
            (TokenType::Identifier(a), TokenType::Identifier(b)) => *a == *b,
            (TokenType::Keyword(a), TokenType::Keyword(b)) => *a == *b,
            (TokenType::EOF, TokenType::EOF) => true,
            _ => false,
        }
    }

    /// The text of the token as it is written in source.
    pub fn to_string(&self) -> (r: String)
        ensures
            r@ == kind_text(self@),
    {
        match self {
            TokenType::LeftParen => String::from_str("("),
            TokenType::RightParen => String::from_str(")"),
            TokenType::LeftBrace => String::from_str("{"),
            TokenType::RightBrace => String::from_str("}"),
            TokenType::LeftSquare => String::from_str("["),
            TokenType::RightSquare => String::from_str("]"),
            TokenType::Comma => String::from_str(","),
            TokenType::Dot => String::from_str("."),
            TokenType::Minus => String::from_str("-"),
            TokenType::Plus => String::from_str("+"),
            TokenType::Semicolon => String::from_str(";"),
            TokenType::Slash => String::from_str("/"),
            TokenType::Star => String::from_str("*"),
            TokenType::Caret => String::from_str("^"),
            TokenType::Underscore => String::from_str("_"),
            TokenType::Bang => String::from_str("!"),
            TokenType::BangEqual => String::from_str("!="),
            TokenType::Equal => String::from_str("="),
            TokenType::EqualEqual => String::from_str("=="),
            TokenType::Greater => String::from_str(">"),
            TokenType::GreaterEqual => String::from_str(">="),
            TokenType::Less => String::from_str("<"),
            TokenType::LessEqual => String::from_str("<="),
            TokenType::PlusEqual => String::from_str("+="),
            TokenType::MinusEqual => String::from_str("-="),
            TokenType::StarEqual => String::from_str("*="),
            TokenType::SlashEqual => String::from_str("/="),
            TokenType::Integer(i) => {
                let mut out = String::new();
                push_int(&mut out, *i as i64);
                assert(out@ =~= int_text(*i as int));
                out
            },
            TokenType::Float(s) => s.clone(),
            TokenType::String(s) => s.clone(),
            TokenType::Identifier(s) => s.clone(),
            TokenType::Keyword(k) => k.to_string(),
            TokenType::EOF => String::from_str("EOF"),
        }
    }
}

impl Clone for Token {
    fn clone(&self) -> (r: Token)
        ensures
            r == *self,
    {
        Token { value: self.value.clone(), position: self.position }
    }
}

impl Token {
    /// A token of kind `value` at the lexer's current line and column.
    pub fn new(value: TokenType, position: &LexerPosition) -> (r: Token)
        ensures
            r.value == value,
            r.position == TokenPosition::spec_from(position),
    {
        Token { value, position: TokenPosition::from(position) }
    }

    /// The text of the token as it is written in source.
    pub fn to_string(&self) -> (r: String)
        ensures
            r@ == kind_text(self@.value),
    {
        self.value.to_string()
    }
}

impl TokenPosition {
    /// The line and column of a lexer position.
    pub open spec fn spec_from(position: &LexerPosition) -> TokenPosition {
        TokenPosition { line: position.line, column: position.column }
    }

    /// The line and column at which the lexer stands.
    #[verifier::when_used_as_spec(spec_from)]
    pub fn from(position: &LexerPosition) -> (r: TokenPosition)
        ensures
            r == TokenPosition::spec_from(position),
    {
        TokenPosition { line: position.line, column: position.column }
    }

    /// The position kept for values that no source text produced.
    pub open spec fn spec_internal() -> TokenPosition {
        TokenPosition { line: 0, column: 0 }
    }

    /// The position of a value that no source text produced.
    #[verifier::when_used_as_spec(spec_internal)]
    pub fn internal() -> (r: TokenPosition)
        ensures
            r == TokenPosition::spec_internal(),
    {
        TokenPosition { line: 0, column: 0 }
    }

    /// Whether this is the position kept for values that no source text
    /// produced.
    pub open spec fn spec_is_internal(&self) -> bool {
        self.line == 0 && self.column == 0
    }

    /// Whether this is the position kept for values that no source text
    /// produced.
    #[verifier::when_used_as_spec(spec_is_internal)]
    pub fn is_internal(&self) -> (r: bool)
        ensures
            r == self.spec_is_internal(),
    {
        self.line == 0 && self.column == 0
    }
}

} // verus!
