use monkey::ast::{Expression, Indexed, Program, Statement};
use monkey::builtin::BuiltinFunction;
use monkey::env::Environment;
use monkey::evaluator::Evaluator;
use monkey::lexer::Lexer;
use monkey::object::Object;
use monkey::parser::Parser;
use monkey::token::Token;

fn run(input: &str) -> Object {
    let mut parser = Parser::new(Lexer::new(input));
    let program = parser.parse_program();
    assert_eq!(parser.errors().len(), 0, "{:?}", parser.errors());
    Evaluator::new().eval(program)
}

fn render(input: &str) -> String {
    let mut parser = Parser::new(Lexer::new(input));
    let program = parser.parse_program();
    assert_eq!(parser.errors().len(), 0, "{:?}", parser.errors());
    program.to_string()
}

fn error_of(input: &str) -> String {
    match run(input) {
        Object::ERROR(e) => e,
        other => panic!("expected an error, got {:?}", other),
    }
}

#[test]
fn precedence_renders_fully_parenthesised() {
    assert_eq!(render("-a * b"), "((-a) * b);");
    assert_eq!(render("a + b * c + d / e - f"), "(((a + (b * c)) + (d / e)) - f);");
}

#[test]
fn evaluation_literal_cases() {
    assert_eq!(run("5 + 5 + 5 + 5 - 10"), Object::INTEGER(10));
    assert_eq!(run("if (1 > 2) { 10 } else { 20 }"), Object::INTEGER(20));
    assert_eq!(run("let a = 5; let b = a; let c = a + b + 5; c;"), Object::INTEGER(15));
    assert_eq!(
        run("let newAdder = fn(x) { fn(y) { x + y }; }; let addTwo = newAdder(2); addTwo(2);"),
        Object::INTEGER(4)
    );
    assert_eq!(error_of("5 + true;"), "type mismatch: INTEGER + BOOLEAN");
    assert_eq!(error_of("foobar"), "identifier not found: foobar");
}

#[test]
fn bang_follows_truthiness() {
    assert_eq!(run("!false"), Object::BOOLEAN(true));
    assert_eq!(run("!if (false) { 1 }"), Object::BOOLEAN(true));
    assert_eq!(run("!0"), Object::BOOLEAN(true));
    assert_eq!(run("!true"), Object::BOOLEAN(false));
    assert_eq!(run("!7"), Object::BOOLEAN(false));
    assert_eq!(run("!-1"), Object::BOOLEAN(false));
    assert_eq!(run("!\"\""), Object::BOOLEAN(false));
    assert_eq!(run("![]"), Object::BOOLEAN(false));
    assert_eq!(run("!fn(x) { x }"), Object::BOOLEAN(false));
    let ev = Evaluator::new();
    assert_eq!(ev.eval_bang_expression(Object::NULL), Object::BOOLEAN(true));
    assert_eq!(ev.eval_bang_expression(Object::STRING(String::new())), Object::BOOLEAN(false));
}

#[test]
fn if_uses_truthiness() {
    assert_eq!(run("if (0) { 1 } else { 2 }"), Object::INTEGER(2));
    assert_eq!(run("if (\"\") { 1 } else { 2 }"), Object::INTEGER(1));
    assert_eq!(run("if ([]) { 1 } else { 2 }"), Object::INTEGER(1));
}

fn index_program(elements: &str, index: Expression) -> Program {
    let mut parser = Parser::new(Lexer::new(elements));
    let mut parsed = parser.parse_program();
    let array = match parsed.statements.pop() {
        Some(Statement::ExpressionStatement(e)) => e,
        other => panic!("expected an expression, got {:?}", other),
    };
    let mut program = Program::new();
    program.push(Statement::ExpressionStatement(Expression::Indexed(Indexed {
        left_expr: Box::new(array),
        index: Box::new(index),
    })));
    program
}

#[test]
fn array_index_out_of_range_is_null() {
    let cases = vec![
        (Expression::Integer(0), Object::INTEGER(1)),
        (Expression::Integer(2), Object::INTEGER(3)),
        (Expression::Integer(3), Object::NULL),
        (Expression::Integer(100), Object::NULL),
    ];
    for (index, expected) in cases {
        assert_eq!(Evaluator::new().eval(index_program("[1, 2, 3]", index)), expected);
    }
    let minus_one = {
        let mut parser = Parser::new(Lexer::new("-1"));
        match parser.parse_program().statements.pop() {
            Some(Statement::ExpressionStatement(e)) => e,
            other => panic!("expected an expression, got {:?}", other),
        }
    };
    assert_eq!(Evaluator::new().eval(index_program("[1, 2, 3]", minus_one)), Object::NULL);
    assert_eq!(
        Evaluator::new().eval(index_program("[]", Expression::Integer(0))),
        Object::NULL
    );
    let ev = Evaluator::new();
    assert_eq!(ev.eval_array_index_expression(vec![Object::INTEGER(7)], -1), Object::NULL);
    assert_eq!(ev.eval_array_index_expression(vec![Object::INTEGER(7)], 0), Object::INTEGER(7));
    assert_eq!(
        ev.eval_index_expression(Object::INTEGER(1), Object::INTEGER(0)),
        Object::ERROR("index operator not supported for 1.".to_string())
    );
}

#[test]
fn malformed_lets_recover() {
    let mut parser = Parser::new(Lexer::new("let = 5;\nlet x 5;\nlet x = ;\n"));
    let program = parser.parse_program();
    assert_eq!(parser.errors().len(), 3);
    assert_eq!(program.statements.len(), 0);
    assert_eq!(parser.errors()[0], "expected token: \nreceived token: =");
    assert_eq!(parser.errors()[1], "expected token: =\nreceived token: 5");
    assert_eq!(parser.errors()[2], "No prefix parse function found for ;.");
}

#[test]
fn recovery_keeps_the_statements_around_errors() {
    let mut parser = Parser::new(Lexer::new("let a = 1; let = 2; let b = 3;"));
    let program = parser.parse_program();
    assert_eq!(parser.errors().len(), 1);
    assert_eq!(program.to_string(), "let a = 1;let b = 3;");
}

#[test]
fn missing_tokens_at_end_of_input_do_not_hang() {
    let mut parser = Parser::new(Lexer::new("let x"));
    let program = parser.parse_program();
    assert_eq!(parser.errors().len(), 1);
    assert_eq!(program.statements.len(), 0);
    let mut parser = Parser::new(Lexer::new("(1 + 2"));
    parser.parse_program();
    assert_eq!(parser.errors().len(), 1);
}

#[test]
fn illegal_character_is_a_diagnostic() {
    let mut parser = Parser::new(Lexer::new("@"));
    parser.parse_program();
    assert_eq!(
        parser.errors(),
        vec!["No prefix parse function found for ILLEGAL : @.".to_string()]
    );
}

#[test]
fn integer_literal_out_of_range_is_a_diagnostic() {
    let mut parser = Parser::new(Lexer::new("2147483648"));
    let program = parser.parse_program();
    assert_eq!(
        parser.errors(),
        vec!["could not parse 2147483648 as integer".to_string()]
    );
    assert_eq!(program.statements.len(), 0);
    assert_eq!(run("2147483647"), Object::INTEGER(2147483647));
}

#[test]
fn builtin_argument_count_checked_first() {
    assert_eq!(
        error_of("len()"),
        "Wrong number of arguments. Expected: 1 | Got: 0"
    );
    assert_eq!(
        error_of("len(1, 2)"),
        "Wrong number of arguments. Expected: 1 | Got: 2"
    );
    assert_eq!(
        error_of("push([1])"),
        "Wrong number of arguments. Expected: 2 | Got: 1"
    );
    assert_eq!(error_of("len(1)"), "Argument type not supported by `len`.");
    assert_eq!(
        BuiltinFunction::LEN.call(vec![]),
        Object::ERROR("Wrong number of arguments. Expected: 1 | Got: 0".to_string())
    );
}

#[test]
fn builtins_on_arrays_and_strings() {
    assert_eq!(run("len(\"hello\")"), Object::INTEGER(5));
    assert_eq!(run("len(\"\")"), Object::INTEGER(0));
    assert_eq!(run("len(\"h\u{e9}llo\")"), Object::INTEGER(6));
    assert_eq!(run("len([1, 2, 3])"), Object::INTEGER(3));
    assert_eq!(run("first([4, 5, 6])"), Object::INTEGER(4));
    assert_eq!(run("last([4, 5, 6])"), Object::INTEGER(6));
    assert_eq!(run("first([])"), Object::NULL);
    assert_eq!(run("last([])"), Object::NULL);
    assert_eq!(
        run("tail([4, 5, 6])"),
        Object::ARRAY(vec![Object::INTEGER(5), Object::INTEGER(6)])
    );
    assert_eq!(run("rest([4])"), Object::ARRAY(vec![]));
    assert_eq!(run("tail([])"), Object::NULL);
    assert_eq!(
        run("let a = [1]; let b = push(a, 2); [a, b]"),
        Object::ARRAY(vec![
            Object::ARRAY(vec![Object::INTEGER(1)]),
            Object::ARRAY(vec![Object::INTEGER(1), Object::INTEGER(2)]),
        ])
    );
    assert_eq!(error_of("first(1)"), "Argument type not supported by `first`.");
    assert_eq!(error_of("last(1)"), "Argument type not supported by `last`.");
    assert_eq!(error_of("tail(1)"), "Argument type not supported by `tail`.");
    assert_eq!(error_of("push(1, 2)"), "Argument type not supported by `push`.");
    assert_eq!(BuiltinFunction::get_builtin("len"), Some(Object::BUILTIN(BuiltinFunction::LEN)));
    assert_eq!(BuiltinFunction::get_builtin("rest"), Some(Object::BUILTIN(BuiltinFunction::TAIL)));
    assert_eq!(BuiltinFunction::get_builtin("lenx"), None);
}

#[test]
fn integer_arithmetic_edges() {
    assert_eq!(run("7 / 2"), Object::INTEGER(3));
    assert_eq!(run("-7 / 2"), Object::INTEGER(-3));
    assert_eq!(run("7 / -2"), Object::INTEGER(-3));
    assert_eq!(error_of("1 / 0"), "division by zero");
    assert_eq!(error_of("2147483647 + 1"), "integer overflow");
    assert_eq!(error_of("-2147483647 - 2"), "integer overflow");
    assert_eq!(error_of("65536 * 65536"), "integer overflow");
    assert_eq!(run("-2147483647 - 1"), Object::INTEGER(-2147483648));
    assert_eq!(error_of("-(-2147483647 - 1)"), "integer overflow");
    assert_eq!(error_of("(-2147483647 - 1) / -1"), "integer overflow");
    assert_eq!(run("3 * -4"), Object::INTEGER(-12));
}

#[test]
fn operator_errors() {
    assert_eq!(error_of("true + false"), "unknown operator: BOOLEAN + BOOLEAN");
    assert_eq!(error_of("true < false"), "unknown operator: BOOLEAN < BOOLEAN");
    assert_eq!(error_of("\"a\" == \"a\""), "unknown operator: STRING == STRING");
    assert_eq!(error_of("[1] + [2]"), "unknown operator: ARRAY + ARRAY");
    assert_eq!(error_of("\"a\" + 1"), "type mismatch: STRING + INTEGER");
    assert_eq!(error_of("-\"a\""), "unknown operator: -STRING");
    assert_eq!(error_of("1(2)"), "not a function: INTEGER");
    assert_eq!(error_of("if (x) { 1 }"), "identifier not found: x");
    assert_eq!(error_of("[1, y, z]"), "identifier not found: y");
    assert_eq!(error_of("len(a, b)"), "identifier not found: a");
    let ev = Evaluator::new();
    assert_eq!(
        ev.eval_prefix_expression(&Token::PLUS, Object::INTEGER(1)),
        Object::ERROR("unknown operator: +INTEGER".to_string())
    );
}

#[test]
fn return_is_unwrapped_at_the_top() {
    assert_eq!(run("return 1; 2"), Object::INTEGER(1));
    assert_eq!(run("let f = fn() { return 3; 4 }; f() + 1"), Object::INTEGER(4));
    assert_eq!(run("return if (true) { return 5; }"), Object::INTEGER(5));
    assert_eq!(run(""), Object::NULL);
}

#[test]
fn closures_capture_their_scope() {
    assert_eq!(
        run("let x = 1; let f = fn() { x }; let x = 2; f()"),
        Object::INTEGER(2)
    );
    assert_eq!(
        run("let make = fn(a) { fn(b) { fn(c) { a + b + c } } }; make(1)(2)(3)"),
        Object::INTEGER(6)
    );
    assert_eq!(
        run("let fact = fn(n) { if (n < 2) { 1 } else { n * fact(n - 1) } }; fact(10)"),
        Object::INTEGER(3628800)
    );
    assert_eq!(run("let f = fn(a, b) { a }; f(1)"), Object::INTEGER(1));
    assert_eq!(error_of("let f = fn(a, b) { b }; f(1)"), "identifier not found: b");
    assert_eq!(run("let f = fn(a) { a }; f(1, 2)"), Object::INTEGER(1));
}

#[test]
fn strings_render_quoted_and_round_trip() {
    let inputs = vec![
        "\"hello\" + x",
        "fn (x, y) { (x + y); }(1, 2)",
        "if (a < b) { a; } else { b; }",
        "if (x) { y }",
        "if (!x) { let y = 1; y } else { }",
        "[1, (2 * 3), f(x)]",
        "let a = !(-b);",
        "return add(1, 2);",
    ];
    for input in inputs {
        let once = render(input);
        let twice = render(&once);
        assert_eq!(once, twice, "{}", input);
    }
    assert_eq!(render("\"hi\""), "\"hi\";");
    assert_eq!(render("if (x) { y } else { z }"), "if (x) { y; } else { z; };");
}

#[test]
fn statement_sequences_short_circuit() {
    let mut parser = Parser::new(Lexer::new("1; return 2; 3"));
    let program = parser.parse_program();
    let mut evaluator = Evaluator::new();
    assert_eq!(
        evaluator.eval_statement_vec(program.statements),
        Object::RETURN(Box::new(Object::INTEGER(2)))
    );
    assert_eq!(evaluator.eval_statement_vec(Vec::new()), Object::NULL);
    let mut parser = Parser::new(Lexer::new("let a = 1; a + true; a"));
    let program = parser.parse_program();
    assert_eq!(
        evaluator.eval_statement_vec(program.statements),
        Object::ERROR("type mismatch: INTEGER + BOOLEAN".to_string())
    );
}

#[test]
fn session_keeps_bindings_between_programs() {
    let mut evaluator = Evaluator::new();
    let mut parser = Parser::new(Lexer::new("let a = 40;"));
    assert_eq!(evaluator.eval(parser.parse_program()), Object::INTEGER(40));
    let mut parser = Parser::new(Lexer::new("a + 2"));
    assert_eq!(evaluator.eval(parser.parse_program()), Object::INTEGER(42));
}

#[test]
fn values_print() {
    assert_eq!(run("[1, true, \"s\"]").to_string(), "[1, true, s]");
    assert_eq!(run("fn(x, y) { x + y }").to_string(), "fn (x, y) { (x + y); }");
    assert_eq!(run("len").to_string(), "builtin");
    assert_eq!(run("if (false) { 1 }").to_string(), "null");
    assert_eq!(Object::INTEGER(-42).to_string(), "-42");
    assert_eq!(Object::INTEGER(-42).get_type(), "INTEGER");
    assert_eq!(Object::RETURN(Box::new(Object::BOOLEAN(true))).get_type(), "BOOLEAN");
}

#[test]
fn environment_binds_and_replaces() {
    let mut env = Environment::new();
    assert_eq!(env.get("a"), None);
    env.set("a".to_string(), Object::INTEGER(1));
    env.set("b".to_string(), Object::INTEGER(2));
    env.set("a".to_string(), Object::INTEGER(3));
    assert_eq!(env.get("a"), Some(Object::INTEGER(3)));
    assert_eq!(env.get("b"), Some(Object::INTEGER(2)));
    assert_eq!(env.outer(), None);
    assert_eq!(Environment::new_enclosed(4).outer(), Some(4));
}

#[test]
fn lexer_classifies_letters_digits_and_others() {
    let mut lexer = Lexer::new("héllo _x1 42 @ \"open");
    assert_eq!(lexer.next_token(), Token::IDENT(String::new()));
    match lexer.next_token() {
        Token::IDENT(s) => assert_eq!(s, "_x"),
        other => panic!("{:?}", other),
    }
    match lexer.next_token() {
        Token::INT(s) => assert_eq!(s, "1"),
        other => panic!("{:?}", other),
    }
    match lexer.next_token() {
        Token::INT(s) => assert_eq!(s, "42"),
        other => panic!("{:?}", other),
    }
    match lexer.next_token() {
        Token::ILLEGAL(s) => assert_eq!(s, "@"),
        other => panic!("{:?}", other),
    }
    match lexer.next_token() {
        Token::STRING(s) => assert_eq!(s, "open"),
        other => panic!("{:?}", other),
    }
    assert_eq!(lexer.next_token(), Token::EOF);
    assert_eq!(lexer.next_token(), Token::EOF);
    let mut lexer = Lexer::new("héllo");
    match lexer.next_token() {
        Token::IDENT(s) => assert_eq!(s, "héllo"),
        other => panic!("{:?}", other),
    }
}

#[test]
fn lookup_walks_enclosing_scopes() {
    let mut evaluator = Evaluator::new();
    let mut parser = Parser::new(Lexer::new("let a = 1; let b = [a, 2];"));
    evaluator.eval(parser.parse_program());
    assert_eq!(evaluator.lookup("a"), Some(Object::INTEGER(1)));
    assert_eq!(
        evaluator.lookup("b"),
        Some(Object::ARRAY(vec![Object::INTEGER(1), Object::INTEGER(2)]))
    );
    assert_eq!(evaluator.lookup("c"), None);
    assert_eq!(
        run("let a = 1; let f = fn() { let a = 2; fn() { a } }; f()()"),
        Object::INTEGER(2)
    );
}

#[test]
fn parameters_must_be_identifiers() {
    let mut parser = Parser::new(Lexer::new("fn(1) { 2 }"));
    let program = parser.parse_program();
    assert_eq!(parser.errors()[0], "expected token: \nreceived token: 1");
    assert_eq!(program.statements.len(), 0);
    assert_eq!(render("fn(a, b) { a }"), "fn (a, b) { a; };");
}

#[test]
fn push_leaves_its_argument_unchanged() {
    assert_eq!(
        run("let a = [1, 2]; let b = push(a, 3); a"),
        Object::ARRAY(vec![Object::INTEGER(1), Object::INTEGER(2)])
    );
    assert_eq!(
        error_of("let f = fn() { if (true) { return x; } 1 }; f()"),
        "identifier not found: x"
    );
}

#[test]
fn read_string_stops_on_the_closing_quote() {
    let mut lexer = Lexer::new("\"ab\"c");
    assert_eq!(lexer.read_string(), "ab");
    assert_eq!(lexer.peek_char(), 'c');
    let mut lexer = Lexer::new("\"ab\"c");
    match lexer.next_token() {
        Token::STRING(s) => assert_eq!(s, "ab"),
        other => panic!("{:?}", other),
    }
    match lexer.next_token() {
        Token::IDENT(s) => assert_eq!(s, "c"),
        other => panic!("{:?}", other),
    }
}
