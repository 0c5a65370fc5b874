use scriptlang::compile;
use scriptlang::errors::ErrorType;
use scriptlang::lexer::tokens::{Keyword, Token, TokenPosition, TokenType};
use scriptlang::lexer::Lexer;
use scriptlang::parser::nodes::Node;
use scriptlang::parser::Parser;

fn statements(source: &str) -> Vec<Node> {
    match compile(source.to_string()).expect("the source parses") {
        Node::StatementsNode(node) => node.statements,
        other => panic!("not a sequence of statements: {:?}", other),
    }
}

fn first(source: &str) -> Node {
    statements(source).into_iter().next().expect("one statement")
}

fn integer(node: &Node) -> i32 {
    match node {
        Node::NumberNode(n) => match n.token.value {
            TokenType::Integer(i) => i,
            _ => panic!("not an integer"),
        },
        other => panic!("not a number: {:?}", other),
    }
}

fn parse_error(source: &str) -> (ErrorType, String, TokenPosition) {
    let e = compile(source.to_string()).expect_err("the source is refused");
    (e.error_type, e.error_message, e.position)
}

#[test]
fn product_groups_to_the_left() {
    match first("3 * 3 * 5;") {
        Node::BinOpNode(outer) => {
            assert_eq!(outer.op_token.value, TokenType::Star);
            assert_eq!(integer(&outer.right_node), 5);
            match &outer.left_node {
                Node::BinOpNode(inner) => {
                    assert_eq!(inner.op_token.value, TokenType::Star);
                    assert_eq!(integer(&inner.left_node), 3);
                    assert_eq!(integer(&inner.right_node), 3);
                }
                other => panic!("left operand is {:?}", other),
            }
        }
        other => panic!("parsed {:?}", other),
    }
}

#[test]
fn power_groups_to_the_right() {
    match first("2 ^ 3 ^ 2;") {
        Node::BinOpNode(outer) => {
            assert_eq!(outer.op_token.value, TokenType::Caret);
            assert_eq!(integer(&outer.left_node), 2);
            match &outer.right_node {
                Node::BinOpNode(inner) => {
                    assert_eq!(integer(&inner.left_node), 3);
                    assert_eq!(integer(&inner.right_node), 2);
                }
                other => panic!("right operand is {:?}", other),
            }
        }
        other => panic!("parsed {:?}", other),
    }
}

#[test]
fn product_binds_tighter_than_sum() {
    match first("1 + 2 * 3;") {
        Node::BinOpNode(outer) => {
            assert_eq!(outer.op_token.value, TokenType::Plus);
            assert_eq!(integer(&outer.left_node), 1);
            assert!(matches!(outer.right_node, Node::BinOpNode(_)));
        }
        other => panic!("parsed {:?}", other),
    }
}

#[test]
fn parentheses_give_the_inner_expression() {
    match first("(1 + 2) * 3;") {
        Node::BinOpNode(outer) => {
            assert_eq!(outer.op_token.value, TokenType::Star);
            assert!(matches!(outer.left_node, Node::BinOpNode(_)));
            assert_eq!(integer(&outer.right_node), 3);
        }
        other => panic!("parsed {:?}", other),
    }
}

#[test]
fn parses_let_and_compound_assignment() {
    match first("let x = 1;") {
        Node::VarAssignmentNode(n) => {
            assert_eq!(n.identifier.value, TokenType::Identifier("x".to_string()));
            assert_eq!(integer(&n.value), 1);
        }
        other => panic!("parsed {:?}", other),
    }
    let position = TokenPosition { line: 1, column: 1 };
    let tokens = vec![
        Token { value: TokenType::Keyword(Keyword::Let), position },
        Token { value: TokenType::Identifier("x".to_string()), position },
        Token { value: TokenType::MinusEqual, position },
        Token { value: TokenType::Integer(2), position },
        Token { value: TokenType::Semicolon, position },
        Token { value: TokenType::EOF, position },
    ];
    let mut parser = Parser::new(tokens);
    match parser.parse().expect("the tokens parse") {
        Node::StatementsNode(node) => match &node.statements[0] {
            Node::VarArithmeticAssignmentNode(n) => {
                assert_eq!(n.op_token.value, TokenType::MinusEqual);
                assert_eq!(integer(&n.value), 2);
            }
            other => panic!("parsed {:?}", other),
        },
        other => panic!("parsed {:?}", other),
    }
}

#[test]
fn parses_not_unary_and_assert() {
    match first("not 1;") {
        Node::UnaryOpNode(n) => {
            assert_eq!(n.token.value, TokenType::Keyword(Keyword::Not));
            assert_eq!(integer(&n.right), 1);
        }
        other => panic!("parsed {:?}", other),
    }
    match first("- 4;") {
        Node::UnaryOpNode(n) => {
            assert_eq!(n.token.value, TokenType::Minus);
            assert_eq!(integer(&n.right), 4);
        }
        other => panic!("parsed {:?}", other),
    }
    match first("assert 1;") {
        Node::AssertNode(n) => assert_eq!(integer(&n.condition), 1),
        other => panic!("parsed {:?}", other),
    }
}

#[test]
fn parses_if_with_else_and_with_a_chain() {
    match first("if 1 { 2 };") {
        Node::IfExprNode(n) => {
            assert_eq!(integer(&n.condition), 1);
            assert_eq!(integer(&n.if_true), 2);
            assert!(n.if_false.is_none());
        }
        other => panic!("parsed {:?}", other),
    }
    match first("if 1 { 2 } else { 3 };") {
        Node::IfExprNode(n) => assert_eq!(integer(n.if_false.as_ref().expect("an else")), 3),
        other => panic!("parsed {:?}", other),
    }
    match first("if 0 { 2 } else if 1 { 3 } else { 4 };") {
        Node::IfExprNode(n) => match n.if_false.as_ref().expect("an else") {
            Node::IfExprNode(inner) => {
                assert_eq!(integer(&inner.condition), 1);
                assert_eq!(integer(&inner.if_true), 3);
                assert_eq!(integer(inner.if_false.as_ref().expect("an else")), 4);
            }
            other => panic!("else is {:?}", other),
        },
        other => panic!("parsed {:?}", other),
    }
}

#[test]
fn parses_function_definitions() {
    match first("func f() {};") {
        Node::FuncDefNode(n) => {
            assert_eq!(n.identifier.value, TokenType::Identifier("f".to_string()));
            assert!(n.parameters.is_empty());
            assert!(n.body.is_none());
        }
        other => panic!("parsed {:?}", other),
    }
    match first("func add(a, b) { return a + b; };") {
        Node::FuncDefNode(n) => {
            assert_eq!(n.parameters.len(), 2);
            assert_eq!(n.parameters[1].value, TokenType::Identifier("b".to_string()));
            match n.body.as_ref().expect("a body") {
                Node::StatementsNode(body) => {
                    assert_eq!(body.statements.len(), 1);
                    assert!(matches!(body.statements[0], Node::ReturnNode(_)));
                }
                other => panic!("body is {:?}", other),
            }
        }
        other => panic!("parsed {:?}", other),
    }
}

#[test]
fn parses_calls_and_lists() {
    match first("f(1, 2 + 3);") {
        Node::FuncCallNode(n) => {
            assert!(matches!(n.func_node, Node::VarAccessNode(_)));
            assert_eq!(n.args.len(), 2);
            assert_eq!(integer(&n.args[0]), 1);
        }
        other => panic!("parsed {:?}", other),
    }
    match first("f();") {
        Node::FuncCallNode(n) => assert!(n.args.is_empty()),
        other => panic!("parsed {:?}", other),
    }
    match first("[1, 2, 3];") {
        Node::ListExprNode(n) => assert_eq!(n.elements.len(), 3),
        other => panic!("parsed {:?}", other),
    }
    match first("[];") {
        Node::ListExprNode(n) => assert!(n.elements.is_empty()),
        other => panic!("parsed {:?}", other),
    }
}

#[test]
fn a_bare_return_ends_with_its_semicolon() {
    match first("return;") {
        Node::ReturnNode(n) => assert!(n.value.is_none()),
        other => panic!("parsed {:?}", other),
    }
    match first("return 1;") {
        Node::ReturnNode(n) => assert_eq!(integer(n.value.as_ref().expect("a value")), 1),
        other => panic!("parsed {:?}", other),
    }
    let both = statements("return; 1;");
    assert_eq!(both.len(), 2);
    assert!(matches!(both[0], Node::ReturnNode(_)));
    assert_eq!(integer(&both[1]), 1);
    match first("func f() { return; };") {
        Node::FuncDefNode(n) => match n.body.as_ref().expect("a body") {
            Node::StatementsNode(body) => assert_eq!(body.statements.len(), 1),
            other => panic!("body is {:?}", other),
        },
        other => panic!("parsed {:?}", other),
    }
    let (kind, message, _) = parse_error("return;;");
    assert_eq!(kind, ErrorType::ParserError);
    assert_eq!(message, "Expected atom, found ';'");
    let (kind, message, _) = parse_error("return 1");
    assert_eq!(kind, ErrorType::ParserError);
    assert_eq!(message, "Expected ';', found 'EOF'");
}

#[test]
fn an_empty_program_is_an_empty_sequence() {
    assert!(statements("").is_empty());
    assert!(statements("   \n ").is_empty());
}

#[test]
fn a_missing_semicolon_is_reported_at_the_offending_token() {
    let (kind, message, position) = parse_error("1 2;");
    assert_eq!(kind, ErrorType::ParserError);
    assert_eq!(message, "Expected ';', found '2'");
    assert_eq!(position, TokenPosition { line: 1, column: 3 });
}

#[test]
fn the_first_error_ends_the_parse() {
    let (kind, message, position) = parse_error("1 + ;");
    assert_eq!(kind, ErrorType::ParserError);
    assert_eq!(message, "Expected atom, found ';'");
    assert_eq!(position, TokenPosition { line: 1, column: 5 });
}

#[test]
fn a_closing_mark_without_its_opening_is_refused() {
    let (kind, message, _) = parse_error("1; }");
    assert_eq!(kind, ErrorType::ParserError);
    assert_eq!(message, "Unexpected token: '}', expected EOF");
}

#[test]
fn let_wants_a_name_and_an_equals_sign() {
    let (_, message, _) = parse_error("let 1 = 2;");
    assert_eq!(message, "Expected identifier, found '1'");
    let (_, message, _) = parse_error("let x 2;");
    assert_eq!(message, "Expected any equals sign, found '2'");
}

#[test]
fn unclosed_constructs_are_refused() {
    let (_, message, _) = parse_error("(1 + 2;");
    assert_eq!(message, "Expected ')', found ';'");
    let (_, message, _) = parse_error("if 1 { 2 ;");
    assert_eq!(message, "Expected '}', found ';'");
    let (_, message, _) = parse_error("func f( { };");
    assert_eq!(message, "Expected ')', found '{'");
    let (_, message, _) = parse_error("func f(a, 1) { };");
    assert_eq!(message, "Expected identifier, found '1'");
    let (_, message, _) = parse_error("func 1() { };");
    assert_eq!(message, "Expected identifier, found '1'");
}

#[test]
fn tokens_without_an_end_marker_report_the_last_token() {
    let tokens = vec![
        Token { value: TokenType::Integer(1), position: TokenPosition { line: 1, column: 2 } },
        Token { value: TokenType::Plus, position: TokenPosition { line: 1, column: 3 } },
    ];
    let mut parser = Parser::new(tokens);
    let e = parser.parse().expect_err("the tokens are refused");
    assert_eq!(e.error_type, ErrorType::ParserError);
    assert_eq!(e.error_message, "Expected token");
    assert_eq!(e.position, TokenPosition { line: 1, column: 3 });
}

#[test]
fn the_parser_takes_what_the_lexer_gives() {
    let mut lexer = Lexer::new("let x = (1 + 2) * 3;".to_string());
    let tokens = lexer.make_tokens().expect("the source lexes");
    let mut parser = Parser::new(tokens);
    let ast = parser.parse().expect("the tokens parse");
    assert_eq!(ast, compile("let x = (1 + 2) * 3;".to_string()).expect("the source parses"));
}

fn round_trip(source: &str) {
    let node = first(source);
    let text = node.to_string();
    let again = first(&(text.clone() + ";"));
    assert_eq!(again.to_tokens(), node.to_tokens(), "{} was written as {}", source, text);
    assert_eq!(again.to_string(), text);
}

#[test]
fn an_expression_is_written_with_its_parentheses() {
    assert_eq!(first("1 + 2 * 3;").to_string(), "( 1 + ( 2 * 3 ) ) ");
    assert_eq!(first("not x;").to_string(), "( not x ) ");
    assert_eq!(first("- x;").to_string(), "- x ");
    assert_eq!(first("f(1, \"a b\");").to_string(), "( f ( 1 , \"a b\" ) ) ");
    assert_eq!(first("let x = [1, 2.5];").to_string(), "( let x = [ 1 , 2.5 ] ) ");
    assert_eq!(
        first("if a { 1 } else if b { 2 };").to_string(),
        "( if a { 1 } else { ( if b { 2 } ) } ) "
    );
    assert_eq!(
        first("func f(a, b) { return a; return; };").to_string(),
        "func f ( a , b ) { return a ; return ; } "
    );
    assert_eq!(
        first("1 + 2;").to_tokens(),
        vec![
            TokenType::LeftParen,
            TokenType::Integer(1),
            TokenType::Plus,
            TokenType::Integer(2),
            TokenType::RightParen
        ]
    );
}

#[test]
fn what_is_written_parses_to_the_same_tree() {
    for source in [
        "1;",
        "x;",
        "\"text\";",
        "2.5;",
        "1 + 2 * 3 - 4 / 5;",
        "2 ^ 3 ^ 2;",
        "(2 ^ 3) ^ 2;",
        "1 < 2 == 3 >= 4;",
        "a and b or not c;",
        "- - 1;",
        "+ x * - y;",
        "not not 1;",
        "let x = 1 + 2;",
        "let x = let y = 2;",
        "assert 1 == 1;",
        "if 1 { 2 };",
        "if a < b { a } else { b };",
        "if a { 1 } else if b { 2 } else { 3 };",
        "f();",
        "f(1);",
        "f(1, 2 + 3, g(4));",
        "[];",
        "[1, [2, 3], x];",
        "(f(1))(2);",
        "f(if a { 1 } else { 2 }, not b);",
        "func f(a, b) { let c = a + b; return c; };",
        "func f() { return; };",
        "func f() {};",
        "let x += 1;",
        "let x -= y * 2;",
        "let x *= (let y /= 2);",
    ] {
        round_trip(source);
    }
}

#[test]
fn parses_compound_assignment_from_source() {
    match first("let total *= 2 + 1;") {
        Node::VarArithmeticAssignmentNode(n) => {
            assert_eq!(n.identifier.value, TokenType::Identifier("total".to_string()));
            assert_eq!(n.op_token.value, TokenType::StarEqual);
            assert!(matches!(n.value, Node::BinOpNode(_)));
        }
        other => panic!("parsed {:?}", other),
    }
}
