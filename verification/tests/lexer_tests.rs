use scriptlang::lexer::tokens::{Keyword, Token, TokenPosition, TokenType};
use scriptlang::lexer::{Lexer, LexerPosition};

fn kinds(source: &str) -> Vec<TokenType> {
    let mut lexer = Lexer::new(source.to_string());
    let tokens: Vec<Token> = lexer.make_tokens().expect("the source lexes");
    tokens.into_iter().map(|t| t.value).collect()
}

#[test]
fn lexes_marks_and_numbers() {
    assert_eq!(
        kinds("3 * 3 * 5"),
        vec![
            TokenType::Integer(3),
            TokenType::Star,
            TokenType::Integer(3),
            TokenType::Star,
            TokenType::Integer(5),
            TokenType::EOF
        ]
    );
}

#[test]
fn lexes_keywords_and_names() {
    assert_eq!(
        kinds("let x_1 = 2.5;"),
        vec![
            TokenType::Keyword(Keyword::Let),
            TokenType::Identifier("x_1".to_string()),
            TokenType::Equal,
            TokenType::Float("2.5".to_string()),
            TokenType::Semicolon,
            TokenType::EOF
        ]
    );
}

#[test]
fn tokens_carry_the_place_of_their_first_character() {
    let mut lexer = Lexer::new("a\nb".to_string());
    let tokens = lexer.make_tokens().expect("the source lexes");
    assert_eq!(tokens[0].position, TokenPosition { line: 1, column: 1 });
    assert_eq!(tokens[1].position, TokenPosition { line: 2, column: 1 });
    assert_eq!(tokens[2].position, TokenPosition { line: 2, column: 2 });
}

#[test]
fn a_token_before_a_line_feed_stays_on_its_line() {
    let mut lexer = Lexer::new("1\n".to_string());
    let tokens = lexer.make_tokens().expect("the source lexes");
    assert_eq!(tokens[0].value, TokenType::Integer(1));
    assert_eq!(tokens[0].position, TokenPosition { line: 1, column: 1 });
    let mut lexer = Lexer::new("\n\n  name\n\"text\"\n12.5\n<=\n".to_string());
    let tokens = lexer.make_tokens().expect("the source lexes");
    assert_eq!(tokens[0].position, TokenPosition { line: 3, column: 3 });
    assert_eq!(tokens[1].position, TokenPosition { line: 4, column: 1 });
    assert_eq!(tokens[2].position, TokenPosition { line: 5, column: 1 });
    assert_eq!(tokens[3].position, TokenPosition { line: 6, column: 1 });
    assert_eq!(tokens[4].position, TokenPosition { line: 7, column: 1 });
    for token in &tokens {
        assert!(token.position.line >= 1 && token.position.column >= 1);
    }
    let mut lexer = Lexer::new("\na".to_string());
    let tokens = lexer.make_tokens().expect("the source lexes");
    assert_eq!(tokens[0].position, TokenPosition { line: 2, column: 1 });
    assert_eq!(tokens[1].position, TokenPosition { line: 2, column: 2 });
    let start = LexerPosition::new(&"\na".to_string());
    assert_eq!((start.line, start.column, start.pos, start.current_char), (1, 1, 0, Some('\n')));
}

fn lex_error(source: &str) -> scriptlang::errors::Error {
    let mut lexer = Lexer::new(source.to_string());
    lexer.make_tokens().expect_err("the source is refused")
}

#[test]
fn lexes_every_mark() {
    assert_eq!(
        kinds("( ) { } [ ] , . - + ; / * ^ _ ! != = == > >= < <="),
        vec![
            TokenType::LeftParen,
            TokenType::RightParen,
            TokenType::LeftBrace,
            TokenType::RightBrace,
            TokenType::LeftSquare,
            TokenType::RightSquare,
            TokenType::Comma,
            TokenType::Dot,
            TokenType::Minus,
            TokenType::Plus,
            TokenType::Semicolon,
            TokenType::Slash,
            TokenType::Star,
            TokenType::Caret,
            TokenType::Underscore,
            TokenType::Bang,
            TokenType::BangEqual,
            TokenType::Equal,
            TokenType::EqualEqual,
            TokenType::Greater,
            TokenType::GreaterEqual,
            TokenType::Less,
            TokenType::LessEqual,
            TokenType::EOF
        ]
    );
}

#[test]
fn lexes_every_keyword() {
    assert_eq!(
        kinds("let and not or if else elif func return assert lets"),
        vec![
            TokenType::Keyword(Keyword::Let),
            TokenType::Keyword(Keyword::And),
            TokenType::Keyword(Keyword::Not),
            TokenType::Keyword(Keyword::Or),
            TokenType::Keyword(Keyword::If),
            TokenType::Keyword(Keyword::Else),
            TokenType::Keyword(Keyword::Elif),
            TokenType::Keyword(Keyword::Func),
            TokenType::Keyword(Keyword::Return),
            TokenType::Keyword(Keyword::Assert),
            TokenType::Identifier("lets".to_string()),
            TokenType::EOF
        ]
    );
}

#[test]
fn lexes_strings_without_escapes() {
    assert_eq!(
        kinds("\"a b\\n\" \"\""),
        vec![
            TokenType::String("a b\\n".to_string()),
            TokenType::String(String::new()),
            TokenType::EOF
        ]
    );
}

#[test]
fn lexes_numbers() {
    assert_eq!(
        kinds("0 007 2147483647 1. 3.25"),
        vec![
            TokenType::Integer(0),
            TokenType::Integer(7),
            TokenType::Integer(2147483647),
            TokenType::Float("1.".to_string()),
            TokenType::Float("3.25".to_string()),
            TokenType::EOF
        ]
    );
}

#[test]
fn an_empty_text_is_the_end_marker_alone() {
    let mut lexer = Lexer::new(String::new());
    let tokens = lexer.make_tokens().expect("the source lexes");
    assert_eq!(
        tokens,
        vec![Token { value: TokenType::EOF, position: TokenPosition { line: 1, column: 1 } }]
    );
}

#[test]
fn every_kind_of_token_stands_at_its_first_character() {
    let mut lexer = Lexer::new("(ab == 12".to_string());
    let tokens = lexer.make_tokens().expect("the source lexes");
    assert_eq!(tokens[0].position, TokenPosition { line: 1, column: 1 });
    assert_eq!(tokens[1].position, TokenPosition { line: 1, column: 2 });
    assert_eq!(tokens[2].position, TokenPosition { line: 1, column: 5 });
    assert_eq!(tokens[3].position, TokenPosition { line: 1, column: 8 });
    assert_eq!(tokens[4].position, TokenPosition { line: 1, column: 10 });
}

#[test]
fn unterminated_string_is_an_invalid_token() {
    let e = lex_error("\"abc");
    assert_eq!(e.error_type, scriptlang::errors::ErrorType::InvalidToken);
    assert_eq!(e.error_message, "Unterminated string");
    assert_eq!(e.position, TokenPosition { line: 1, column: 5 });
}

#[test]
fn an_unknown_character_is_an_invalid_token() {
    let e = lex_error("1 # 2");
    assert_eq!(e.error_type, scriptlang::errors::ErrorType::InvalidToken);
    assert_eq!(e.error_message, "Unexpected character: '#'");
    assert_eq!(e.position, TokenPosition { line: 1, column: 3 });
}

#[test]
fn a_second_decimal_point_is_a_syntax_error() {
    let e = lex_error("1.2.3");
    assert_eq!(e.error_type, scriptlang::errors::ErrorType::SyntaxError);
    assert_eq!(e.error_message, "Number cannot have more than one decimal point");
    assert_eq!(e.position, TokenPosition { line: 1, column: 4 });
}

#[test]
fn an_integer_beyond_32_bits_is_refused() {
    let e = lex_error("2147483648");
    assert_eq!(e.error_type, scriptlang::errors::ErrorType::InvalidToken);
    assert_eq!(e.error_message, "Integer literal is too large");
    let e = lex_error("99999999999999999999999999");
    assert_eq!(e.error_type, scriptlang::errors::ErrorType::InvalidToken);
}

#[test]
fn lexing_twice_gives_the_end_marker_the_second_time() {
    let mut lexer = Lexer::new("1 + 2".to_string());
    assert_eq!(lexer.make_tokens().expect("the source lexes").len(), 4);
    assert_eq!(lexer.make_tokens().expect("the source lexes").len(), 1);
}

#[test]
fn keyword_from_knows_the_ten_keywords() {
    assert_eq!(Keyword::from("let"), Some(Keyword::Let));
    assert_eq!(Keyword::from("assert"), Some(Keyword::Assert));
    assert_eq!(Keyword::from("elif"), Some(Keyword::Elif));
    assert_eq!(Keyword::from("Let"), None);
    assert_eq!(Keyword::from(""), None);
    assert_eq!(Keyword::Return.to_string(), "return");
}

#[test]
fn token_text_is_the_source_text() {
    assert_eq!(TokenType::LeftParen.to_string(), "(");
    assert_eq!(TokenType::RightSquare.to_string(), "]");
    assert_eq!(TokenType::Integer(-12).to_string(), "-12");
    assert_eq!(TokenType::Integer(i32::MIN).to_string(), "-2147483648");
    assert_eq!(TokenType::Float("2.5".to_string()).to_string(), "2.5");
    assert_eq!(TokenType::Keyword(Keyword::Func).to_string(), "func");
    assert_eq!(TokenType::EOF.to_string(), "EOF");
    assert!(TokenType::Identifier("a".to_string()).same(&TokenType::Identifier("a".to_string())));
    assert!(!TokenType::Identifier("a".to_string()).same(&TokenType::String("a".to_string())));
}

#[test]
fn positions_convert_both_ways() {
    let start = LexerPosition::new(&"ab\ncd".to_string());
    assert_eq!((start.line, start.column, start.pos, start.current_char), (1, 1, 0, Some('a')));
    let mut position = start.clone();
    position.advance();
    position.advance();
    assert_eq!((position.line, position.column, position.current_char), (2, 0, Some('\n')));
    position.advance();
    assert_eq!((position.line, position.column, position.current_char), (2, 1, Some('c')));
    position.advance();
    position.advance();
    assert_eq!((position.line, position.column, position.current_char), (2, 3, None));
    let token_position = TokenPosition::from(&position);
    assert_eq!(token_position, TokenPosition { line: 2, column: 3 });
    let back = LexerPosition::from(token_position);
    assert_eq!((back.line, back.column, back.pos, back.current_char), (2, 3, 0, None));
    assert!(TokenPosition::internal().is_internal());
    assert!(!token_position.is_internal());
    let token = Token::new(TokenType::Comma, &position);
    assert_eq!(token.position, token_position);
}

#[test]
fn what_is_written_lexes_to_the_same_tokens() {
    let written = vec![
        TokenType::Keyword(Keyword::Let),
        TokenType::Identifier("x_1".to_string()),
        TokenType::Equal,
        TokenType::LeftParen,
        TokenType::Integer(12),
        TokenType::LessEqual,
        TokenType::Float("3.5".to_string()),
        TokenType::RightParen,
        TokenType::Keyword(Keyword::And),
        TokenType::String("a b".to_string()),
        TokenType::BangEqual,
        TokenType::Bang,
        TokenType::Underscore,
        TokenType::Semicolon,
    ];
    let text = scriptlang::parser::writer::tokens_to_string(&written);
    assert_eq!(text, "let x_1 = ( 12 <= 3.5 ) and \"a b\" != ! _ ; ");
    let mut expected = written;
    expected.push(TokenType::EOF);
    assert_eq!(kinds(&text), expected);
}

#[test]
fn lexes_compound_assignment_marks() {
    assert_eq!(
        kinds("x += 1 -= *= /= + = -1"),
        vec![
            TokenType::Identifier("x".to_string()),
            TokenType::PlusEqual,
            TokenType::Integer(1),
            TokenType::MinusEqual,
            TokenType::StarEqual,
            TokenType::SlashEqual,
            TokenType::Plus,
            TokenType::Equal,
            TokenType::Minus,
            TokenType::Integer(1),
            TokenType::EOF
        ]
    );
    let written = vec![TokenType::PlusEqual, TokenType::MinusEqual, TokenType::StarEqual, TokenType::SlashEqual];
    let text = scriptlang::parser::writer::tokens_to_string(&written);
    assert_eq!(text, "+= -= *= /= ");
    let mut expected = written;
    expected.push(TokenType::EOF);
    assert_eq!(kinds(&text), expected);
}
