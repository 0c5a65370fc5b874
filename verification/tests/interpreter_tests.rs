use scriptlang::compile;
use scriptlang::errors::{Error, ErrorType};
use scriptlang::interpreter::builtin::{
    evaluate_args, format_string, print_text, same_size, trim_newline,
};
use scriptlang::interpreter::host::{ArithmeticOp, CompareOp, Host};
use scriptlang::interpreter::operations::bool_to_int;
use scriptlang::interpreter::symbol_table::{SymbolTable, PRINT_HANDLE};
use scriptlang::interpreter::visits::NodeVisit;
use scriptlang::interpreter::symbols::{FunctionSymbol, Symbol, SymbolType};
use scriptlang::interpreter::{Interpreter, DEFAULT_MAX_DEPTH};
use scriptlang::lexer::tokens::{Token, TokenPosition, TokenType};
use scriptlang::parser::nodes::{
    ExecuteBuiltinNode, ListExprNode, Node, NumberNode, ReturnNode, StatementsNode, VarAccessNode,
    VarArithmeticAssignmentNode,
};

struct TestHost {
    printed: Vec<String>,
    asked: usize,
}

impl TestHost {
    fn new() -> TestHost {
        TestHost { printed: Vec::new(), asked: 0 }
    }
}

fn text_of(symbol: &Symbol) -> String {
    match symbol.value {
        SymbolType::Float(bits) => f32::from_bits(bits).to_string(),
        _ => symbol.to_string(),
    }
}

impl Host for TestHost {
    fn float_from_literal(&mut self, digits: &String) -> u32 {
        self.asked += 1;
        digits.parse::<f32>().expect("digits of a float").to_bits()
    }

    fn float_from_int(&mut self, value: i32) -> u32 {
        self.asked += 1;
        (value as f32).to_bits()
    }

    fn float_arithmetic(&mut self, op: ArithmeticOp, left: u32, right: u32) -> u32 {
        self.asked += 1;
        let a = f32::from_bits(left);
        let b = f32::from_bits(right);
        let r = match op {
            ArithmeticOp::Add => a + b,
            ArithmeticOp::Subtract => a - b,
            ArithmeticOp::Multiply => a * b,
            ArithmeticOp::Divide => a / b,
            ArithmeticOp::Power => a.powf(b),
        };
        r.to_bits()
    }

    fn float_compare(&mut self, op: CompareOp, left: u32, right: u32) -> bool {
        self.asked += 1;
        let a = f32::from_bits(left);
        let b = f32::from_bits(right);
        match op {
            CompareOp::Less => a < b,
            CompareOp::LessEqual => a <= b,
            CompareOp::Greater => a > b,
            CompareOp::GreaterEqual => a >= b,
            CompareOp::Equal => a == b,
            CompareOp::NotEqual => a != b,
        }
    }

    fn call_native<'a>(
        &mut self,
        handle: u32,
        table: &mut SymbolTable<'a>,
        args: &Vec<Node>,
        depth: u32,
    ) -> Result<Symbol, Error> {
        self.asked += 1;
        if handle != PRINT_HANDLE {
            return Err(Error::new_runtime(
                ErrorType::ArgumentError,
                format!("Unknown host function {}", handle),
                &TokenPosition::internal(),
            ));
        }
        let values = evaluate_args(table, args, self, depth)?;
        let rest: Vec<String> = values[1..].iter().map(text_of).collect();
        let line = print_text(&values[0], rest)?;
        self.printed.push(line);
        Ok(Symbol::new(SymbolType::Nothing, TokenPosition::internal()))
    }
}

fn evaluate(source: &str) -> Result<Symbol, Error> {
    let ast = compile(source.to_string()).expect("the source parses");
    let statements = match ast {
        Node::StatementsNode(node) => node.statements,
        other => panic!("not a sequence of statements: {:?}", other),
    };
    let mut table = SymbolTable::new_global();
    let mut host = TestHost::new();
    let mut last = Ok(Symbol::new(SymbolType::Nothing, TokenPosition::internal()));
    for statement in &statements {
        last = statement.visit(&mut table, &mut host, 64);
        if last.is_err() {
            break;
        }
    }
    last
}

fn value(source: &str) -> SymbolType {
    evaluate(source).expect("the source evaluates").value
}

fn failure(source: &str) -> Error {
    evaluate(source).expect_err("the source fails")
}

fn float(value: f32) -> SymbolType {
    SymbolType::Float(value.to_bits())
}

fn token(value: TokenType) -> Token {
    Token { value, position: TokenPosition { line: 3, column: 4 } }
}

#[test]
fn product_of_three_is_45() {
    assert_eq!(value("3 * 3 * 5;"), SymbolType::Integer(45));
}

#[test]
fn power_of_powers_is_512() {
    assert_eq!(value("2 ^ 3 ^ 2;"), SymbolType::Integer(512));
    assert_eq!(value("(2 ^ 3) ^ 2;"), SymbolType::Integer(64));
}

#[test]
fn mixed_arithmetic_gives_a_float() {
    assert_eq!(value("1 + 2.5;"), float(3.5));
    assert_eq!(value("2.5 + 1;"), float(3.5));
    assert_eq!(value("1.5 * 2.0;"), float(3.0));
    assert_eq!(value("7 / 2.0;"), float(3.5));
    assert_eq!(value("2.0 ^ 3;"), float(8.0));
    assert_eq!(value("1 - 0.5;"), float(0.5));
}

#[test]
fn integer_division_rounds_towards_zero() {
    assert_eq!(value("4 / 2;"), SymbolType::Integer(2));
    assert_eq!(value("7 / 2;"), SymbolType::Integer(3));
    assert_eq!(value("(0 - 7) / 2;"), SymbolType::Integer(-3));
    assert_eq!(value("7 / (0 - 2);"), SymbolType::Integer(-3));
    assert_eq!(value("(0 - 7) / (0 - 2);"), SymbolType::Integer(3));
}

#[test]
fn integer_arithmetic_is_exact() {
    assert_eq!(value("1 + 2 * 3 - 4;"), SymbolType::Integer(3));
    assert_eq!(value("2147483647 + 0;"), SymbolType::Integer(2147483647));
    assert_eq!(value("0 - 2147483647 - 1;"), SymbolType::Integer(i32::MIN));
    assert_eq!(value("0 ^ 0;"), SymbolType::Integer(1));
    assert_eq!(value("(0 - 2) ^ 31;"), SymbolType::Integer(i32::MIN));
    assert_eq!(value("(0 - 1) ^ 1001;"), SymbolType::Integer(-1));
}

#[test]
fn integer_overflow_is_an_error() {
    for source in [
        "2147483647 + 1;",
        "0 - 2147483647 - 2;",
        "65536 * 65536;",
        "2 ^ 31;",
        "10 ^ 10;",
        "(0 - 2147483647 - 1) / (0 - 1);",
        "- (0 - 2147483647 - 1);",
    ] {
        let e = failure(source);
        assert_eq!(e.error_type, ErrorType::Exception, "{}", source);
        assert_eq!(e.error_message, "Integer overflow", "{}", source);
    }
}

#[test]
fn division_by_zero_and_negative_exponents_are_errors() {
    let e = failure("1 / 0;");
    assert_eq!((e.error_type, e.error_message.as_str()), (ErrorType::Exception, "Division by zero"));
    let e = failure("2 ^ (0 - 1);");
    assert_eq!((e.error_type, e.error_message.as_str()), (ErrorType::Exception, "Negative exponent"));
}

#[test]
fn comparisons_give_one_or_zero() {
    assert_eq!(value("1 < 2;"), SymbolType::Integer(1));
    assert_eq!(value("2 < 1;"), SymbolType::Integer(0));
    assert_eq!(value("2 <= 2;"), SymbolType::Integer(1));
    assert_eq!(value("2 > 2;"), SymbolType::Integer(0));
    assert_eq!(value("2 >= 2;"), SymbolType::Integer(1));
    assert_eq!(value("2 == 2;"), SymbolType::Integer(1));
    assert_eq!(value("2 != 2;"), SymbolType::Integer(0));
    assert_eq!(value("1.5 < 2;"), SymbolType::Integer(1));
    assert_eq!(value("2 < 1.5;"), SymbolType::Integer(0));
    assert_eq!(value("2.5 == 2.5;"), SymbolType::Integer(1));
}

#[test]
fn and_and_or_take_every_integer_but_zero_for_true() {
    assert_eq!(value("1 and 1;"), SymbolType::Integer(1));
    assert_eq!(value("2 and 3;"), SymbolType::Integer(1));
    assert_eq!(value("1 and 0;"), SymbolType::Integer(0));
    assert_eq!(value("0 or 0;"), SymbolType::Integer(0));
    assert_eq!(value("0 or 5;"), SymbolType::Integer(1));
    assert_eq!(value("not 0;"), SymbolType::Integer(1));
    assert_eq!(value("not 7;"), SymbolType::Integer(0));
    let e = failure("1 and \"a\";");
    assert_eq!(e.error_type, ErrorType::TypeError);
    assert_eq!(e.error_message, "Cannot combine with and '1' and 'a'");
    let e = failure("not \"a\";");
    assert_eq!(e.error_type, ErrorType::TypeError);
    assert_eq!(e.error_message, "Cannot apply not to 'a'");
}

#[test]
fn both_operands_are_evaluated_before_or_is_applied() {
    let e = failure("1 or missing;");
    assert_eq!(e.error_type, ErrorType::UndefinedVariable);
}

#[test]
fn unary_minus_and_plus() {
    assert_eq!(value("- 5;"), SymbolType::Integer(-5));
    assert_eq!(value("+ 5;"), SymbolType::Integer(5));
    assert_eq!(value("- 2.5;"), float(-2.5));
    assert_eq!(value("- - 2.5;"), float(2.5));
    let e = failure("- \"a\";");
    assert_eq!(e.error_type, ErrorType::TypeError);
    assert_eq!(e.error_message, "Cannot apply neg to 'a'");
}

#[test]
fn operands_of_other_kinds_are_a_type_error_that_names_both() {
    let e = failure("1 + \"a\";");
    assert_eq!(e.error_type, ErrorType::TypeError);
    assert_eq!(e.error_message, "Cannot add '1' and 'a'");
    assert_eq!(e.position, TokenPosition { line: 1, column: 1 });
    let e = failure("\"a\" * 2;");
    assert_eq!(e.error_message, "Cannot multiply 'a' and '2'");
    let e = failure("\"a\" < \"b\";");
    assert_eq!(e.error_message, "Cannot compare 'a' and 'b'");
    let e = failure("\"a\" == \"a\";");
    assert_eq!(e.error_type, ErrorType::TypeError);
}

#[test]
fn undefined_variable_is_reported_at_the_identifier() {
    let e = failure("1 + missing;");
    assert_eq!(e.error_type, ErrorType::UndefinedVariable);
    assert_eq!(e.error_message, "Undefined variable 'missing'");
    assert_eq!(e.position, TokenPosition { line: 1, column: 5 });
}

#[test]
fn let_binds_and_gives_no_value() {
    assert_eq!(value("let x = 5;"), SymbolType::Nothing);
    assert_eq!(value("let x = 5; x * 2;"), SymbolType::Integer(10));
    assert_eq!(value("let x = 5; let x = x + 1; x;"), SymbolType::Integer(6));
    assert_eq!(value("let s = \"text\"; s;"), SymbolType::String("text".to_string()));
}

fn compound(op: TokenType, start: i32, by: i32) -> Result<Symbol, Error> {
    let mut table = SymbolTable::new_global();
    let mut host = TestHost::new();
    table.set(
        "x".to_string(),
        Symbol::new(SymbolType::Integer(start), TokenPosition { line: 1, column: 1 }),
    );
    let node = Node::VarArithmeticAssignmentNode(Box::new(VarArithmeticAssignmentNode::new(
        token(TokenType::Identifier("x".to_string())),
        token(op),
        Node::NumberNode(Box::new(NumberNode::new(token(TokenType::Integer(by))))),
    )));
    node.visit(&mut table, &mut host, 8)?;
    Ok(table.get(&"x".to_string()).expect("x is bound"))
}

#[test]
fn compound_assignment_applies_its_operator() {
    assert_eq!(compound(TokenType::PlusEqual, 10, 3).unwrap().value, SymbolType::Integer(13));
    assert_eq!(compound(TokenType::MinusEqual, 10, 3).unwrap().value, SymbolType::Integer(7));
    assert_eq!(compound(TokenType::StarEqual, 10, 3).unwrap().value, SymbolType::Integer(30));
    assert_eq!(compound(TokenType::SlashEqual, 10, 3).unwrap().value, SymbolType::Integer(3));
    let e = compound(TokenType::Equal, 10, 3).expect_err("no compound operator");
    assert_eq!(e.error_type, ErrorType::InvalidOperation);
    assert_eq!(e.error_message, "Invalid operation: '='");
}

#[test]
fn compound_assignment_of_an_unbound_name_fails_before_the_right_side() {
    let mut table = SymbolTable::new_global();
    let mut host = TestHost::new();
    let node = Node::VarArithmeticAssignmentNode(Box::new(VarArithmeticAssignmentNode::new(
        token(TokenType::Identifier("x".to_string())),
        token(TokenType::PlusEqual),
        Node::NumberNode(Box::new(NumberNode::new(token(TokenType::Float("1.5".to_string()))))),
    )));
    let e = node.visit(&mut table, &mut host, 8).expect_err("x is not bound");
    assert_eq!(e.error_type, ErrorType::UndefinedVariable);
    assert_eq!(e.position, TokenPosition { line: 3, column: 4 });
    assert_eq!(host.asked, 0);
}

#[test]
fn if_takes_the_branch_of_its_condition() {
    assert_eq!(value("if 1 { 10 } else { 20 };"), SymbolType::Integer(10));
    assert_eq!(value("if 0 { 10 } else { 20 };"), SymbolType::Integer(20));
    assert_eq!(value("if 5 { 10 };"), SymbolType::Integer(10));
    assert_eq!(value("if 0 { 10 };"), SymbolType::Nothing);
    assert_eq!(value("if 0 { 1 } else if 0 { 2 } else { 3 };"), SymbolType::Integer(3));
    assert_eq!(value("if 0 { 1 } else if 1 { 2 } else { 3 };"), SymbolType::Integer(2));
    let e = failure("if \"a\" { 1 };");
    assert_eq!(e.error_type, ErrorType::TypeError);
    assert_eq!(e.error_message, "If statement condition must be an integer");
}

#[test]
fn only_the_branch_that_is_taken_is_evaluated() {
    assert_eq!(value("if 1 { 10 } else { missing };"), SymbolType::Integer(10));
}

#[test]
fn functions_are_called_with_their_arguments() {
    assert_eq!(
        value("func add(a, b) { return a + b; }; add(2, 3);"),
        SymbolType::Integer(5)
    );
    assert_eq!(value("func f() { 1; 2; }; f();"), SymbolType::Nothing);
    assert_eq!(value("func f() {}; f();"), SymbolType::Nothing);
    assert_eq!(value("func f() { return; 1; }; f();"), SymbolType::Nothing);
    assert_eq!(
        value("func f(a) { return a * 2; return 0; }; f(f(3));"),
        SymbolType::Integer(12)
    );
}

#[test]
fn recursion_reaches_its_result() {
    assert_eq!(
        value(
            "func fact(n) { return if n <= 1 { 1 } else { n * fact(n - 1) }; }; fact(10);"
        ),
        SymbolType::Integer(3628800)
    );
}

#[test]
fn an_assignment_in_a_branch_is_made_in_the_table_of_the_call() {
    assert_eq!(
        value("func f() { let x = 1; if 1 { let x = 2 }; return x; }; f();"),
        SymbolType::Integer(2)
    );
}

#[test]
fn a_function_does_not_change_the_names_of_its_caller() {
    assert_eq!(
        value("let x = 1; func f() { let x = 2; return x; }; f(); x;"),
        SymbolType::Integer(1)
    );
    assert_eq!(
        value("let x = 1; func f() { let x = 2; return x; }; f();"),
        SymbolType::Integer(2)
    );
}

#[test]
fn a_free_name_is_looked_up_where_the_call_is_made() {
    assert_eq!(
        value(
            "func g() { return y; }; func f() { let y = 7; return g(); }; let y = 1; f();"
        ),
        SymbolType::Integer(7)
    );
}

#[test]
fn arguments_are_evaluated_in_the_table_of_the_caller() {
    assert_eq!(
        value("func f(a) { return a; }; f(let z = 4); z;"),
        SymbolType::Integer(4)
    );
}

#[test]
fn a_call_with_the_wrong_number_of_arguments_is_a_type_error() {
    let e = failure("func f(a, b) { return a; }; f(1);");
    assert_eq!(e.error_type, ErrorType::TypeError);
    assert_eq!(e.error_message, "Wrong number of arguments: expected 2, got 1");
    assert!(e.error_message.contains("expected 2, got 1"));
    assert_eq!(e.position, TokenPosition { line: 1, column: 29 });
}

#[test]
fn only_a_name_that_is_bound_to_a_function_can_be_called() {
    let e = failure("let x = 1; x(2);");
    assert_eq!(e.error_type, ErrorType::TypeError);
    assert_eq!(e.error_message, "Cannot call non-function");
    let e = failure("(1)(2);");
    assert_eq!(e.error_type, ErrorType::TypeError);
    let e = failure("f(2);");
    assert_eq!(e.error_type, ErrorType::UndefinedVariable);
    assert_eq!(e.error_message, "Function f not found");
}

#[test]
fn a_function_is_not_known_before_its_definition() {
    let e = failure("f(); func f() { return 1; };");
    assert_eq!(e.error_type, ErrorType::UndefinedVariable);
}

#[test]
fn endless_recursion_ends_in_an_error() {
    let e = failure("func f() { return f(); }; f();");
    assert_eq!(e.error_type, ErrorType::Exception);
    assert_eq!(e.error_message, "Maximum recursion depth exceeded");
}

#[test]
fn the_depth_counts_nested_calls() {
    let ast = compile("func f(n) { return if n <= 0 { 0 } else { f(n - 1) }; }; f(3);".to_string())
        .expect("the source parses");
    let statements = match ast {
        Node::StatementsNode(node) => node.statements,
        other => panic!("not a sequence of statements: {:?}", other),
    };
    for (depth, passes) in [(4u32, true), (3u32, false), (0u32, false)] {
        let mut table = SymbolTable::new_global();
        let mut host = TestHost::new();
        statements[0].visit(&mut table, &mut host, depth).expect("the definition");
        let r = statements[1].visit(&mut table, &mut host, depth);
        assert_eq!(r.is_ok(), passes, "depth {}", depth);
    }
}

#[test]
fn assert_passes_on_every_integer_but_zero() {
    assert_eq!(value("assert 1;"), SymbolType::Integer(1));
    assert_eq!(value("assert 5 - 2;"), SymbolType::Integer(3));
    let e = failure("assert 0;");
    assert_eq!(e.error_type, ErrorType::AssertError);
    assert_eq!(e.error_message, "Assertion failed");
    assert_eq!(e.position, TokenPosition { line: 1, column: 8 });
    let e = failure("assert \"a\";");
    assert_eq!(e.error_type, ErrorType::AssertError);
    let e = failure("assert 1 == 2;");
    assert_eq!(e.error_type, ErrorType::AssertError);
    assert_eq!(e.position, TokenPosition { line: 1, column: 10 });
}

#[test]
fn lists_are_not_supported() {
    let e = failure("[1, 2];");
    assert_eq!(e.error_type, ErrorType::TypeError);
    assert_eq!(e.error_message, "List expressions are not supported");
    assert_eq!(e.position, TokenPosition { line: 1, column: 2 });
    let mut table = SymbolTable::new_global();
    let mut host = TestHost::new();
    let empty = Node::ListExprNode(Box::new(ListExprNode::new(Vec::new())));
    assert!(empty.get_position().is_internal());
    assert!(empty.visit(&mut table, &mut host, 1).is_err());
}

#[test]
fn nodes_without_a_token_have_the_internal_position() {
    let bare = Node::ReturnNode(Box::new(ReturnNode::new(None)));
    assert!(bare.get_position().is_internal());
    let mut table = SymbolTable::new_global();
    let mut host = TestHost::new();
    let r = bare.visit(&mut table, &mut host, 1).expect("a bare return");
    assert_eq!(r.value, SymbolType::Nothing);
    let sequence = Node::StatementsNode(Box::new(StatementsNode::new(Vec::new())));
    assert!(sequence.get_position().is_internal());
    let e = sequence.visit(&mut table, &mut host, 1).expect_err("no expression");
    assert_eq!(e.error_type, ErrorType::TypeError);
}

#[test]
fn tokens_of_the_wrong_kind_are_type_errors() {
    let mut table = SymbolTable::new_global();
    let mut host = TestHost::new();
    let number = Node::NumberNode(Box::new(NumberNode::new(token(TokenType::Comma))));
    let e = number.visit(&mut table, &mut host, 1).expect_err("no number");
    assert_eq!((e.error_type, e.error_message.as_str()), (ErrorType::TypeError, "Expected number"));
    let access = Node::VarAccessNode(Box::new(VarAccessNode::new(token(TokenType::Integer(1)))));
    let e = access.visit(&mut table, &mut host, 1).expect_err("no name");
    assert_eq!(
        (e.error_type, e.error_message.as_str()),
        (ErrorType::TypeError, "Expected identifier")
    );
}

#[test]
fn print_is_a_function_of_the_host() {
    let ast = compile("let who = \"world\"; print(\"Hello, {}!\", who); print(\"{} = {}\", 1 + 1);".to_string())
        .expect("the source parses");
    let mut interpreter = Interpreter::new();
    assert_eq!(interpreter.max_depth, DEFAULT_MAX_DEPTH);
    let mut host = TestHost::new();
    let e = interpreter.run(ast, &mut host).expect_err("one argument too few");
    assert_eq!(host.printed, vec!["Hello, world!".to_string()]);
    assert_eq!(e.error_type, ErrorType::TypeError);
    assert_eq!(
        e.error_message,
        "Number of format arguments does not match number of format specifiers in string"
    );
}

#[test]
fn a_program_runs_to_its_end_or_to_its_first_error() {
    let mut host = TestHost::new();
    let ast = compile("let x = 1; let y = x + 1; assert y == 2;".to_string()).expect("it parses");
    assert_eq!(scriptlang::run(ast, &mut host), Ok(()));
    let ast = compile("let x = 1; assert x == 2; let y = 3;".to_string()).expect("it parses");
    let mut interpreter = Interpreter::new();
    let e = interpreter.run(ast, &mut host).expect_err("the assertion fails");
    assert_eq!(e.error_type, ErrorType::AssertError);
    assert!(interpreter.symbol_table.get(&"x".to_string()).is_some());
    assert!(interpreter.symbol_table.get(&"y".to_string()).is_none());
    let not_a_program = Node::ReturnNode(Box::new(ReturnNode::new(None)));
    let e = interpreter.run(not_a_program, &mut host).expect_err("no program");
    assert_eq!(e.error_type, ErrorType::TypeError);
}

#[test]
fn a_return_at_the_top_of_a_program_does_not_end_it() {
    let mut host = TestHost::new();
    let ast = compile("return 1; assert 0;".to_string()).expect("it parses");
    let e = scriptlang::run(ast, &mut host).expect_err("the assertion is reached");
    assert_eq!(e.error_type, ErrorType::AssertError);
}

#[test]
fn a_host_function_can_be_registered_under_a_handle() {
    let mut table = SymbolTable::new_global();
    table.add_function("shout", vec!["text".to_string()], 7);
    let mut host = TestHost::new();
    let ast = compile("shout(\"a\");".to_string()).expect("it parses");
    let statements = match ast {
        Node::StatementsNode(node) => node.statements,
        other => panic!("not a sequence of statements: {:?}", other),
    };
    let e = statements[0].visit(&mut table, &mut host, 4).expect_err("the host knows no 7");
    assert_eq!(e.error_type, ErrorType::ArgumentError);
    assert_eq!(e.error_message, "Unknown host function 7");
    let unbound = Node::ExecuteBuiltinNode(Box::new(ExecuteBuiltinNode::new(PRINT_HANDLE, None)));
    let e = unbound.visit(&mut table, &mut host, 4).expect_err("no arguments");
    assert_eq!(e.error_type, ErrorType::ArgumentError);
    assert_eq!(e.error_message, "Arguments are not defined");
}

#[test]
fn tables_look_names_up_outwards_and_bind_them_inside() {
    let position = TokenPosition { line: 1, column: 1 };
    let mut outer = SymbolTable::new_global();
    outer.set("x".to_string(), Symbol::new(SymbolType::Integer(1), position));
    outer.set("y".to_string(), Symbol::new(SymbolType::Integer(2), position));
    let mut inner = SymbolTable::new(Box::new(&outer));
    assert_eq!(inner.get(&"x".to_string()).unwrap().value, SymbolType::Integer(1));
    inner.set("x".to_string(), Symbol::new(SymbolType::Integer(10), position));
    inner.set("x".to_string(), Symbol::new(SymbolType::Integer(11), position));
    assert_eq!(inner.get(&"x".to_string()).unwrap().value, SymbolType::Integer(11));
    assert_eq!(inner.get(&"y".to_string()).unwrap().value, SymbolType::Integer(2));
    assert!(inner.get(&"z".to_string()).is_none());
    inner.set_args(
        &vec!["a".to_string(), "b".to_string(), "c".to_string()],
        vec![
            Symbol::new(SymbolType::Integer(7), position),
            Symbol::new(SymbolType::Integer(8), position),
        ],
    );
    assert_eq!(inner.get(&"b".to_string()).unwrap().value, SymbolType::Integer(8));
    assert!(inner.get(&"c".to_string()).is_none());
    assert_eq!(inner.symbols.len(), 3);
    assert_eq!(outer.get(&"x".to_string()).unwrap().value, SymbolType::Integer(1));
    assert!(matches!(outer.get(&"print".to_string()).unwrap().value, SymbolType::Function(_)));
}

#[test]
fn operators_on_values() {
    let position = TokenPosition { line: 2, column: 3 };
    let other = TokenPosition { line: 9, column: 9 };
    let mut host = TestHost::new();
    let two = Symbol::new(SymbolType::Integer(2), position);
    let three = Symbol::new(SymbolType::Integer(3), other);
    let half = Symbol::new(float(0.5), other);
    assert_eq!(two.add(&three, &mut host).unwrap(), Symbol::new(SymbolType::Integer(5), position));
    assert_eq!(two.sub(&three, &mut host).unwrap().value, SymbolType::Integer(-1));
    assert_eq!(two.mul(&three, &mut host).unwrap().value, SymbolType::Integer(6));
    assert_eq!(two.div(&three, &mut host).unwrap().value, SymbolType::Integer(0));
    assert_eq!(two.power(&three, &mut host).unwrap().value, SymbolType::Integer(8));
    assert_eq!(two.lt(&three, &mut host).unwrap().value, SymbolType::Integer(1));
    assert_eq!(two.le(&three, &mut host).unwrap().value, SymbolType::Integer(1));
    assert_eq!(two.gt(&three, &mut host).unwrap().value, SymbolType::Integer(0));
    assert_eq!(two.ge(&three, &mut host).unwrap().value, SymbolType::Integer(0));
    assert_eq!(two.eq(&three, &mut host).unwrap().value, SymbolType::Integer(0));
    assert_eq!(two.ne(&three, &mut host).unwrap().value, SymbolType::Integer(1));
    assert_eq!(host.asked, 0);
    assert_eq!(two.add(&half, &mut host).unwrap(), Symbol::new(float(2.5), position));
    assert_eq!(host.asked, 2);
    assert_eq!(half.mul(&half, &mut host).unwrap().value, float(0.25));
    assert_eq!(host.asked, 3);
    assert_eq!(two.and(&three).unwrap().value, SymbolType::Integer(1));
    assert_eq!(two.or(&three).unwrap().value, SymbolType::Integer(1));
    assert_eq!(two.not().unwrap().value, SymbolType::Integer(0));
    assert_eq!(two.neg().unwrap().value, SymbolType::Integer(-2));
    assert_eq!(half.neg().unwrap().value, float(-0.5));
    assert_eq!(bool_to_int(true), 1);
    assert_eq!(bool_to_int(false), 0);
}

#[test]
fn values_have_a_text() {
    let position = TokenPosition::internal();
    assert_eq!(Symbol::new(SymbolType::Integer(-3), position).to_string(), "-3");
    assert_eq!(Symbol::new(SymbolType::String("a".to_string()), position).to_string(), "a");
    assert_eq!(Symbol::new(SymbolType::Nothing, position).to_string(), "None");
    assert_eq!(Symbol::new(SymbolType::Float(1), position).to_string(), "Float(bits=1)");
    let function = FunctionSymbol::new(
        "f".to_string(),
        Vec::new(),
        Node::StatementsNode(Box::new(StatementsNode::new(Vec::new()))),
    );
    assert_eq!(function.to_string(), "FunctionSymbol: f");
    assert_eq!(
        Symbol::new(SymbolType::Function(function.clone()), position).clone().value,
        SymbolType::Function(function)
    );
}

#[test]
fn errors_have_a_line_for_the_user() {
    let e = Error::new_runtime(
        ErrorType::TypeError,
        "Expected number".to_string(),
        &TokenPosition { line: 3, column: 14 },
    );
    assert_eq!(e.to_string(), "TypeError: Expected number at line 3, column 14");
    let e = Error::new_parser("Expected token".to_string(), &TokenPosition::internal());
    assert_eq!(e.error_type, ErrorType::ParserError);
    assert_eq!(e.to_string(), "[Internal error] ParserError: Expected token");
    assert_eq!(e.clone(), e);
    let position = scriptlang::lexer::LexerPosition::from(TokenPosition { line: 2, column: 5 });
    let e = Error::new_lexer(ErrorType::InvalidToken, "Unterminated string".to_string(), &position);
    assert_eq!(e.to_string(), "InvalidToken: Unterminated string at line 2, column 5");
    assert_eq!(ErrorType::IOError.name(), "IOError");
}

#[test]
fn format_puts_the_arguments_in_the_places_of_the_markers() {
    assert_eq!(
        format_string("{}, {}!".to_string(), vec!["Hello".to_string(), "world".to_string()]),
        Ok("Hello, world!".to_string())
    );
    assert_eq!(
        format_string("a{}b{}".to_string(), vec!["1".to_string(), "2".to_string()]),
        Ok("a1b2".to_string())
    );
    assert_eq!(
        format_string("Hello, {}!".to_string(), vec!["world".to_string()]),
        Ok("Hello, world!".to_string())
    );
    assert_eq!(format_string("plain".to_string(), Vec::new()), Ok("plain".to_string()));
    assert_eq!(format_string("{".to_string(), Vec::new()), Ok("{".to_string()));
    assert_eq!(format_string("{{}}".to_string(), vec!["x".to_string()]), Ok("{x}".to_string()));
    assert!(format_string("{}".to_string(), Vec::new()).is_err());
    assert!(format_string("x".to_string(), vec!["1".to_string()]).is_err());
    assert!(same_size(&"{}{}".to_string(), &vec!["a".to_string(), "b".to_string()]));
    assert!(same_size(&"{{}}".to_string(), &vec!["a".to_string()]));
    assert!(!same_size(&"{}".to_string(), &Vec::new()));
}

#[test]
fn trim_takes_one_line_end_off() {
    for (line, trimmed) in [
        ("abc\n", "abc"),
        ("abc\r\n", "abc"),
        ("abc", "abc"),
        ("abc\r", "abc\r"),
        ("abc\n\n", "abc\n"),
        ("\n", ""),
        ("\r\n", ""),
        ("", ""),
    ] {
        let mut s = line.to_string();
        trim_newline(&mut s);
        assert_eq!(s, trimmed);
    }
}

#[test]
fn endless_recursion_in_a_program_ends_in_an_error() {
    let mut host = TestHost::new();
    let ast = compile(
        "func f(n) { return 1 + (2 * (3 + f(n + 1))); }; f(0);".to_string(),
    )
    .expect("it parses");
    let e = scriptlang::run(ast, &mut host).expect_err("the recursion has no end");
    assert_eq!(e.error_type, ErrorType::Exception);
    assert_eq!(e.error_message, "Maximum recursion depth exceeded");
}

#[test]
fn recursion_within_the_depth_reaches_its_result() {
    let mut host = TestHost::new();
    let ast = compile(
        "func sum(n) { return if n <= 0 { 0 } else { n + sum(n - 1) }; }; assert sum(100) == 5050;"
            .to_string(),
    )
    .expect("it parses");
    assert_eq!(scriptlang::run(ast, &mut host), Ok(()));
}

#[test]
fn nodes_of_one_kind_are_evaluated_as_nodes_are() {
    let mut table = SymbolTable::new_global();
    let mut host = TestHost::new();
    let number = NumberNode::new(token(TokenType::Integer(7)));
    assert_eq!(number.get_position(), TokenPosition { line: 3, column: 4 });
    assert_eq!(number.visit(&mut table, &mut host, 1).unwrap().value, SymbolType::Integer(7));
    let access = VarAccessNode::new(token(TokenType::Identifier("x".to_string())));
    let e = access.visit(&mut table, &mut host, 1).expect_err("x is not bound");
    assert_eq!(e.error_type, ErrorType::UndefinedVariable);
    let list = ListExprNode::new(vec![Node::NumberNode(Box::new(number))]);
    assert_eq!(list.get_position(), TokenPosition { line: 3, column: 4 });
    assert!(list.visit(&mut table, &mut host, 1).is_err());
    let bare = ReturnNode::new(None);
    assert!(bare.get_position().is_internal());
    assert_eq!(bare.visit(&mut table, &mut host, 1).unwrap().value, SymbolType::Nothing);
}

#[test]
fn print_wants_a_string_first() {
    let position = TokenPosition { line: 2, column: 7 };
    let text = Symbol::new(SymbolType::String("{} and {}".to_string()), position);
    assert_eq!(
        print_text(&text, vec!["a".to_string(), "b".to_string()]),
        Ok("a and b".to_string())
    );
    let e = print_text(&text, vec!["a".to_string()]).expect_err("one text too few");
    assert_eq!(e.error_type, ErrorType::TypeError);
    assert_eq!(e.position, position);
    let number = Symbol::new(SymbolType::Integer(5), position);
    let e = print_text(&number, Vec::new()).expect_err("no string");
    assert_eq!(e.error_type, ErrorType::TypeError);
    assert_eq!(e.error_message, "Cannot print non-string '5'");
    assert_eq!(e.position, position);
}

fn visited<N: NodeVisit>(node: &N, table: &mut SymbolTable, host: &mut TestHost) -> Result<Symbol, Error> {
    let position = NodeVisit::get_position(node);
    let result = NodeVisit::visit(node, table, host, 4);
    if let Ok(symbol) = &result {
        assert_eq!(symbol.position, position);
    }
    result
}

#[test]
fn every_kind_of_node_can_be_visited_through_the_trait() {
    let mut table = SymbolTable::new_global();
    let mut host = TestHost::new();
    let number = NumberNode::new(token(TokenType::Integer(7)));
    assert_eq!(visited(&number, &mut table, &mut host).unwrap().value, SymbolType::Integer(7));
    let node = Node::NumberNode(Box::new(NumberNode::new(token(TokenType::Integer(8)))));
    assert_eq!(visited(&node, &mut table, &mut host).unwrap().value, SymbolType::Integer(8));
    let access = VarAccessNode::new(token(TokenType::Identifier("x".to_string())));
    assert!(visited(&access, &mut table, &mut host).is_err());
}

#[test]
fn compound_assignment_from_source() {
    assert_eq!(value("let x = 10; let x += 3; x;"), SymbolType::Integer(13));
    assert_eq!(value("let x = 10; let x -= 3; x;"), SymbolType::Integer(7));
    assert_eq!(value("let x = 10; let x *= 3; x;"), SymbolType::Integer(30));
    assert_eq!(value("let x = 10; let x /= 3; x;"), SymbolType::Integer(3));
    assert_eq!(value("let x = 1; let x += 1.5; x;"), float(2.5));
    let e = failure("let y += 1;");
    assert_eq!(e.error_type, ErrorType::UndefinedVariable);
    assert_eq!(e.position, TokenPosition { line: 1, column: 5 });
}
