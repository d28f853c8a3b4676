use nightbug::errors::builder::{Diagnostic, Label};
use nightbug::errors::Level;
use nightbug::interpreter::probe::{any_placeholder, placeholders_fit};
use nightbug::interpreter::{
    add_native, report_unexpected_argument, substitute, Binding, Interpreter, InterpreterError,
    Native,
};
use nightbug::lexer::lex;
use nightbug::parser::{parse, Expr, ExprKind, Keyword};

fn parse_str(code: &str) -> Vec<Expr> {
    let mut log: Vec<Diagnostic> = Vec::new();
    let exprs = parse(lex(code, &mut log).unwrap(), code, &mut log).unwrap();
    assert!(log.is_empty());
    exprs
}

fn interpret_str(code: &str) -> Binding {
    let mut log: Vec<Diagnostic> = Vec::new();
    let exprs = parse_str(code);
    let mut interpreter = Interpreter::new();
    assert!(interpreter.accepts(&exprs));
    let result = interpreter.interpret(exprs, &mut log).unwrap();
    assert!(log.is_empty());
    result
}

fn interpret_failure(code: &str) -> (InterpreterError, Vec<Diagnostic>) {
    let mut log: Vec<Diagnostic> = Vec::new();
    let exprs = parse_str(code);
    let mut interpreter = Interpreter::new();
    assert!(interpreter.accepts(&exprs));
    let error = interpreter.interpret_with_source(exprs, code, &mut log).unwrap_err();
    (error, log)
}

fn assert_result_expr(code: &str, kind: ExprKind) {
    match interpret_str(code) {
        Binding::Expression(expr) => assert_eq!(expr.kind, kind),
        binding => panic!("Result of {} is not an expression: {:?}", code, binding),
    }
}

fn label(level: Level, text: &str, start: usize, end: usize) -> Label {
    Label { contents: Some(text.to_string()), level, span: start..end }
}

#[test]
fn integer_literal() {
    assert_result_expr("2", ExprKind::Integer(2));
}

#[test]
fn boolean_literal() {
    assert_result_expr("true", ExprKind::Boolean(true));
    assert_result_expr("false", ExprKind::Boolean(false));
}

#[test]
fn nightbug_function() {
    assert!(matches!(interpret_str("second"), Binding::Function(..)))
}

#[test]
fn native_function() {
    assert!(matches!(interpret_str("add"), Binding::NativeFunction(..)))
}

#[test]
fn add() {
    assert_result_expr("(add 2 3)", ExprKind::Integer(5));
}

#[test]
fn second() {
    assert_result_expr("(second 2 3)", ExprKind::Integer(3));
}

#[test]
fn composed_add_second() {
    assert_result_expr("(add 2 (second 3 4))", ExprKind::Integer(6));
}

#[test]
fn interpret_nothing_gives_unit() {
    let mut log: Vec<Diagnostic> = Vec::new();
    assert_eq!(
        Interpreter::new().interpret(vec![], &mut log).unwrap(),
        Binding::Expression(Expr::unit(0..0))
    );
    assert!(log.is_empty());
}

#[test]
fn interpret_literals_keep_their_span() {
    assert_eq!(interpret_str("  42"), Binding::Expression(Expr::integer(2..4, 42)));
    assert_eq!(interpret_str("()"), Binding::Expression(Expr::unit(0..2)));
    assert_eq!(interpret_str("(true)"), Binding::Expression(Expr::boolean(1..5, true)));
}

#[test]
fn interpret_only_the_first_expression_decides() {
    assert_eq!(interpret_str("1 2 3"), Binding::Expression(Expr::integer(0..1, 1)));
    assert_eq!(interpret_str("((add 1 2) 5)"), Binding::Expression(Expr::integer(0..0, 3)));
    assert_eq!(interpret_str("(7 foo define)"), Binding::Expression(Expr::integer(1..2, 7)));
}

#[test]
fn interpret_bare_names_are_not_called() {
    assert_eq!(
        interpret_str("second"),
        Binding::Function(2, Expr::argument(0..0, 1))
    );
    assert_eq!(interpret_str("add"), Binding::NativeFunction(None, Native::Add));
    assert_eq!(interpret_str("(add)"), Binding::NativeFunction(None, Native::Add));
}

#[test]
fn interpret_add_sums_any_number_of_integers() {
    assert_result_expr("(add 7)", ExprKind::Integer(7));
    assert_result_expr("(add 1 2 3 4 5)", ExprKind::Integer(15));
    assert_result_expr("(add (add 1 2) (add 3 (add 4 5)))", ExprKind::Integer(15));
    assert_result_expr("(add 2147483646 1)", ExprKind::Integer(i32::MAX));
    assert_eq!(interpret_str("(add 1 2)"), Binding::Expression(Expr::integer(0..0, 3)));
}

#[test]
fn interpret_second_reduces_its_second_argument() {
    assert_eq!(interpret_str("(second 2 3)"), Binding::Expression(Expr::integer(10..11, 3)));
    assert_result_expr("(second foo (add 2 3))", ExprKind::Integer(5));
    assert_result_expr("(second define false)", ExprKind::Boolean(false));
    assert_result_expr("(second 1 ())", ExprKind::Unit);
    assert_result_expr("(second 1 (second 2 (second 3 4)))", ExprKind::Integer(4));
}

#[test]
fn interpret_second_of_a_name_resolves_the_name() {
    assert_eq!(interpret_str("(second 1 add)"), Binding::NativeFunction(None, Native::Add));
    assert_eq!(
        interpret_str("(second 1 second)"),
        Binding::Function(2, Expr::argument(0..0, 1))
    );
    let (error, log) = interpret_failure("(second 1 nothing)");
    assert!(matches!(error, InterpreterError::UnknownIdentifier(name) if name == "nothing"));
    assert_eq!(
        log,
        vec![Diagnostic {
            title: "unknown identifier `nothing`".to_string(),
            level: Level::Error,
            labels: vec![label(Level::Error, "not found in this scope", 10, 17)],
            footers: vec![],
            source: "(second 1 nothing)".to_string(),
            origin: None,
        }]
    );
}

#[test]
fn interpret_unknown_identifier() {
    let (error, log) = interpret_failure("  foo 1");
    assert!(matches!(error, InterpreterError::UnknownIdentifier(name) if name == "foo"));
    assert_eq!(
        log,
        vec![Diagnostic {
            title: "unknown identifier `foo`".to_string(),
            level: Level::Error,
            labels: vec![label(Level::Error, "not found in this scope", 2, 5)],
            footers: vec![],
            source: "  foo 1".to_string(),
            origin: None,
        }]
    );
}

#[test]
fn interpret_wrong_number_of_arguments() {
    for (code, given, from, to) in [("(second 1)", 1, 8, 9), ("(second 1 (f) 3)", 3, 8, 15)] {
        let (error, log) = interpret_failure(code);
        match error {
            InterpreterError::WrongNumArgs { ident, expected, got } => {
                assert_eq!(ident, "second");
                assert_eq!(expected, 2);
                assert_eq!(got, given);
            }
            other => panic!("unexpected error: {:?}", other),
        }
        assert_eq!(
            log,
            vec![Diagnostic {
                title: format!(
                    "wrong number of arguments for function (expected 2, got {})",
                    given
                ),
                level: Level::Error,
                labels: vec![
                    label(Level::Error, &format!("got {} arguments", given), from, to),
                    label(Level::Error, "expected 2 arguments", 1, 7),
                ],
                footers: vec![],
                source: code.to_string(),
                origin: None,
            }]
        );
    }
}

#[test]
fn interpret_wrong_number_of_arguments_looks_at_none() {
    let (error, log) = interpret_failure("(second (foo) define (add x))");
    assert!(matches!(error, InterpreterError::WrongNumArgs { expected: 2, got: 3, .. }));
    assert_eq!(log.len(), 1);
}

#[test]
fn interpret_add_takes_integers_only() {
    let (error, log) = interpret_failure("(add 2 x)");
    let offending = Binding::Expression(Expr::identifier(7..8, "x".to_string()));
    match error {
        InterpreterError::InvalidArgument(name, binding) => {
            assert_eq!(name, "add");
            assert_eq!(binding, offending);
        }
        other => panic!("unexpected error: {:?}", other),
    }
    assert_eq!(
        log,
        vec![Diagnostic {
            title: format!("unexpected argument to `add`:{:?}", offending),
            level: Level::Error,
            labels: vec![],
            footers: vec![
                label(
                    Level::Note,
                    "cannot highlight the argument in your code right now, my apologies",
                    0,
                    0
                ),
                label(Level::Note, "`add` only expects integers as arguments", 0, 0),
            ],
            source: String::new(),
            origin: None,
        }]
    );
    assert!(log[0].title.ends_with("Expression(Expr { span: 7..8, kind: Identifier(\"x\") })"));
}

#[test]
fn interpret_add_rejects_the_first_value_that_is_no_integer() {
    for (code, kind) in [
        ("(add true 1)", ExprKind::Boolean(true)),
        ("(add 1 () false)", ExprKind::Unit),
        ("(add define)", ExprKind::Keyword(Keyword::Define)),
    ] {
        match interpret_failure(code).0 {
            InterpreterError::InvalidArgument(_, Binding::Expression(expr)) => {
                assert_eq!(expr.kind, kind)
            }
            other => panic!("unexpected error: {:?}", other),
        }
    }
    assert!(matches!(
        interpret_failure("(add 1 (add))").0,
        InterpreterError::InvalidArgument(_, Binding::NativeFunction(None, Native::Add))
    ));
}

#[test]
fn interpret_the_first_failing_argument_ends_the_call() {
    let (error, log) = interpret_failure("(add 1 (foo) (bar) x)");
    assert!(matches!(error, InterpreterError::UnknownIdentifier(name) if name == "foo"));
    assert_eq!(log.len(), 1);
    assert_eq!(log[0].labels[0].span, 8..11);
}

#[test]
fn interpret_reports_against_the_given_source() {
    let mut log: Vec<Diagnostic> = Vec::new();
    let mut interpreter = Interpreter::new();
    assert!(interpreter.interpret(parse_str("foo"), &mut log).is_err());
    assert_eq!(log[0].source, "");
    assert!(interpreter.interpret_with_source(parse_str("bar"), "bar", &mut log).is_err());
    assert_eq!(log[1].source, "bar");
    assert!(interpreter.interpret(parse_str("baz"), &mut log).is_err());
    assert_eq!(log[2].source, "bar");
    assert_eq!(log.len(), 3);
}

#[test]
fn interpret_twice_gives_the_same() {
    for code in ["(add 2 (second 3 4))", "(second 1)", "(add 1 x)", "foo", "second", ""] {
        let mut first_log: Vec<Diagnostic> = Vec::new();
        let mut second_log: Vec<Diagnostic> = Vec::new();
        let first = Interpreter::new().interpret_with_source(parse_str(code), code, &mut first_log);
        let second =
            Interpreter::new().interpret_with_source(parse_str(code), code, &mut second_log);
        assert_eq!(format!("{:?}", first), format!("{:?}", second));
        assert_eq!(first_log, second_log);

        let mut interpreter = Interpreter::new();
        let mut log: Vec<Diagnostic> = Vec::new();
        let again = interpreter.interpret_with_source(parse_str(code), code, &mut log);
        let and_again = interpreter.interpret_with_source(parse_str(code), code, &mut log);
        assert_eq!(format!("{:?}", again), format!("{:?}", first));
        assert_eq!(format!("{:?}", and_again), format!("{:?}", first));
    }
}

#[test]
fn interpret_accepts_what_has_a_meaning() {
    let interpreter = Interpreter::new();
    for code in ["", "1", "(add 1 2)", "(second 1)", "foo", "(add x)", "(second define 1)", "(1 fn)"] {
        assert!(interpreter.accepts(&parse_str(code)), "{}", code);
    }
    for code in [
        "define",
        "(fn)",
        "(second 1 define)",
        "(add 1 (define))",
        "(add 2147483647 1)",
        "(add 1 2147483647 x)",
        "(add (add 2147483647 1) (foo))",
        "(second 1 (add 2147483647 1))",
    ] {
        assert!(!interpreter.accepts(&parse_str(code)), "{}", code);
    }
    assert!(interpreter.accepts(&parse_str("(add x 2147483647 1)")));
    assert!(interpreter.accepts(&parse_str("(add (foo) (define))")));
}

#[test]
fn interpret_accepts_no_stray_placeholder() {
    let interpreter = Interpreter::new();
    assert!(!interpreter.accepts(&vec![Expr::argument(0..0, 0)]));
    let call = |second: Expr| {
        vec![Expr::identifier(0..0, "second".to_string()), Expr::integer(0..0, 1), second]
    };
    assert!(!interpreter.accepts(&call(Expr::argument(0..0, 0))));
    assert!(!interpreter.accepts(&call(Expr::list(
        0..0,
        vec![Expr::integer(0..0, 1), Expr::argument(0..0, 0)]
    ))));
    assert!(interpreter.accepts(&call(Expr::list(
        0..0,
        vec![Expr::integer(0..0, 1), Expr::list(0..0, vec![Expr::argument(0..0, 0)])]
    ))));
}

#[test]
fn substitute_replaces_placeholders_among_the_items() {
    let args = vec![Expr::integer(1..2, 10), Expr::identifier(3..4, "b".to_string())];
    let contents = vec![
        Expr::argument(0..0, 1),
        Expr::boolean(5..6, true),
        Expr::list(7..9, vec![Expr::argument(0..0, 0)]),
        Expr::argument(0..0, 0),
        Expr::argument(0..0, 0),
    ];
    assert_eq!(
        substitute(contents, &args),
        vec![
            Expr::identifier(3..4, "b".to_string()),
            Expr::boolean(5..6, true),
            Expr::list(7..9, vec![Expr::argument(0..0, 0)]),
            Expr::integer(1..2, 10),
            Expr::integer(1..2, 10),
        ]
    );
    assert_eq!(substitute(vec![], &args), vec![]);
}

#[test]
fn any_placeholder_looks_at_the_items_only() {
    assert!(any_placeholder(&vec![Expr::unit(0..0), Expr::argument(0..0, 3)]));
    assert!(!any_placeholder(&vec![Expr::list(0..0, vec![Expr::argument(0..0, 3)])]));
    assert!(!any_placeholder(&vec![]));
}

#[test]
fn add_native_sums_in_order() {
    let mut log: Vec<Diagnostic> = Vec::new();
    let int = |value: i32| Binding::Expression(Expr::integer(3..4, value));
    assert_eq!(
        add_native(vec![], &mut log).unwrap(),
        Binding::Expression(Expr::integer(0..0, 0))
    );
    assert_eq!(
        add_native(vec![int(i32::MAX), int(-5), int(5)], &mut log).unwrap(),
        Binding::Expression(Expr::integer(0..0, i32::MAX))
    );
    assert_eq!(
        add_native(vec![int(-1), int(i32::MIN + 1)], &mut log).unwrap(),
        Binding::Expression(Expr::integer(0..0, i32::MIN))
    );
    assert!(log.is_empty());
    let function = Binding::Function(2, Expr::argument(0..0, 1));
    match add_native(vec![int(1), function.clone(), int(i32::MAX)], &mut log) {
        Err(InterpreterError::InvalidArgument(name, binding)) => {
            assert_eq!(name, "add");
            assert_eq!(binding, function);
        }
        other => panic!("unexpected result: {:?}", other),
    }
    assert_eq!(log.len(), 1);
}

#[test]
fn binding_clone_copies() {
    for binding in [
        Binding::Expression(Expr::list(1..5, vec![Expr::integer(2..3, 1)])),
        Binding::Function(3, Expr::argument(0..0, 2)),
        Binding::NativeFunction(Some(4), Native::Add),
        Binding::NativeFunction(None, Native::Add),
    ] {
        assert_eq!(binding.clone(), binding);
    }
}

#[test]
fn report_unexpected_argument_shows_the_value() {
    let mut log: Vec<Diagnostic> = Vec::new();
    report_unexpected_argument("<something>", &mut log);
    report_unexpected_argument("", &mut log);
    assert_eq!(log.len(), 2);
    assert_eq!(log[0].title, "unexpected argument to `add`:<something>");
    assert_eq!(log[1].title, "unexpected argument to `add`:");
    for diagnostic in &log {
        assert_eq!(diagnostic.level, Level::Error);
        assert_eq!(diagnostic.labels, vec![]);
        assert_eq!(
            diagnostic.footers,
            vec![
                label(
                    Level::Note,
                    "cannot highlight the argument in your code right now, my apologies",
                    0,
                    0
                ),
                label(Level::Note, "`add` only expects integers as arguments", 0, 0),
            ]
        );
        assert_eq!(diagnostic.source, "");
        assert_eq!(diagnostic.origin, None);
    }
}

#[test]
fn interpret_reports_can_be_rendered() {
    for code in [
        "foo",
        "(add 1\n  (foo))",
        "(second 1)",
        "(second 1 2 3)",
        "(second\n1\n(a b)\n3\n4)",
        "(add 1 x)",
        "(add (second 1 2 3))",
    ] {
        let (_, log) = interpret_failure(code);
        assert_eq!(log.len(), 1);
        assert!(log[0].can_render());
        assert!(log[0].render().is_some());
    }
}

fn call(func: &Binding, ident: &str, args: Vec<Expr>) -> (Result<Binding, InterpreterError>, Vec<Diagnostic>) {
    let mut log: Vec<Diagnostic> = Vec::new();
    let mut interpreter = Interpreter::new();
    assert!(interpreter.accepts_call(func, ident, &(1..5), &args));
    let result = interpreter.handle_function(func, ident, 1..5, args, &mut log);
    (result, log)
}

fn name(text: &str) -> Expr {
    Expr::identifier(0..0, text.to_string())
}

#[test]
fn handle_function_rewrites_a_list_body() {
    let sum2 = Binding::Function(
        2,
        Expr::list(0..0, vec![name("add"), Expr::argument(0..0, 0), Expr::argument(0..0, 1)]),
    );
    let (result, log) = call(&sum2, "sum2", vec![Expr::integer(6..7, 2), Expr::integer(8..9, 3)]);
    assert_eq!(result.unwrap(), Binding::Expression(Expr::integer(0..0, 5)));
    assert!(log.is_empty());

    let twice = Binding::Function(
        1,
        Expr::list(0..0, vec![name("add"), Expr::argument(0..0, 0), Expr::argument(0..0, 0), Expr::integer(0..0, 1)]),
    );
    let nested = Expr::list(6..15, vec![name("add"), Expr::integer(0..0, 4), Expr::integer(0..0, 6)]);
    let (result, _) = call(&twice, "twice", vec![nested]);
    assert_eq!(result.unwrap(), Binding::Expression(Expr::integer(0..0, 21)));
}

#[test]
fn handle_function_leaves_nested_placeholders_alone() {
    let inner = Binding::Function(
        1,
        Expr::list(
            0..0,
            vec![name("add"), Expr::list(0..0, vec![name("add"), Expr::argument(0..0, 0)])],
        ),
    );
    let (result, log) = call(&inner, "inner", vec![Expr::integer(6..7, 2)]);
    match result {
        Err(InterpreterError::InvalidArgument(_, Binding::Expression(expr))) => {
            assert_eq!(expr.kind, ExprKind::Argument(0))
        }
        other => panic!("unexpected result: {:?}", other),
    }
    assert_eq!(log.len(), 1);
}

#[test]
fn handle_function_reduces_other_bodies_one_step() {
    let constant = Binding::Function(1, Expr::boolean(3..7, true));
    assert_eq!(
        call(&constant, "t", vec![name("whatever")]).0.unwrap(),
        Binding::Expression(Expr::boolean(3..7, true))
    );
    let alias = Binding::Function(0, name("add"));
    assert_eq!(call(&alias, "plus", vec![]).0.unwrap(), Binding::NativeFunction(None, Native::Add));
    let broken = Binding::Function(1, Expr::identifier(2..4, "no".to_string()));
    let (result, log) = call(&broken, "b", vec![Expr::unit(0..0)]);
    assert!(matches!(result, Err(InterpreterError::UnknownIdentifier(name)) if name == "no"));
    assert_eq!(log[0].labels, vec![label(Level::Error, "not found in this scope", 2, 4)]);
    let first = Binding::Function(2, Expr::argument(0..0, 0));
    assert_eq!(
        call(&first, "first", vec![Expr::integer(6..7, 9), name("nothing")]).0.unwrap(),
        Binding::Expression(Expr::integer(6..7, 9))
    );
}

#[test]
fn handle_function_checks_the_number_of_arguments_of_any_function() {
    let body = Expr::list(0..0, vec![Expr::keyword(0..0, Keyword::Fn), Expr::argument(0..0, 9)]);
    let three = Binding::Function(3, body);
    let (result, log) = call(&three, "three", vec![Expr::keyword(6..8, Keyword::Define), name("x")]);
    match result {
        Err(InterpreterError::WrongNumArgs { ident, expected, got }) => {
            assert_eq!((ident.as_str(), expected, got), ("three", 3, 2));
        }
        other => panic!("unexpected result: {:?}", other),
    }
    assert_eq!(log.len(), 1);
    assert_eq!(log[0].title, "wrong number of arguments for function (expected 3, got 2)");
    assert_eq!(
        log[0].labels,
        vec![
            label(Level::Error, "got 2 arguments", 6, 0),
            label(Level::Error, "expected 3 arguments", 1, 5),
        ]
    );

    let (result, log) = call(&three, "three", vec![]);
    assert!(matches!(result, Err(InterpreterError::WrongNumArgs { expected: 3, got: 0, .. })));
    assert_eq!(log[0].labels, vec![label(Level::Error, "expected 3 arguments", 1, 5)]);
}

#[test]
fn handle_function_checks_a_fixed_number_of_native_arguments() {
    let add2 = Binding::NativeFunction(Some(2), Native::Add);
    let (result, log) = call(&add2, "add2", vec![Expr::integer(6..7, 1)]);
    match result {
        Err(InterpreterError::WrongNumArgs { ident, expected, got }) => {
            assert_eq!((ident.as_str(), expected, got), ("add2", 2, 1));
        }
        other => panic!("unexpected result: {:?}", other),
    }
    assert_eq!(
        log,
        vec![Diagnostic {
            title: "wrong number of arguments for function (expected 2, got 1)".to_string(),
            level: Level::Error,
            labels: vec![label(Level::Error, "expected 2 arguments", 1, 5)],
            footers: vec![label(
                Level::Note,
                "cannot show definition for add2 because it is a built-in function",
                0,
                0
            )],
            source: String::new(),
            origin: None,
        }]
    );
    let (result, log) = call(
        &add2,
        "add2",
        vec![Expr::integer(6..7, 1), Expr::list(8..9, vec![name("add"), Expr::integer(0..0, 2)])],
    );
    assert_eq!(result.unwrap(), Binding::Expression(Expr::integer(0..0, 3)));
    assert!(log.is_empty());
    let none = Binding::NativeFunction(None, Native::Add);
    assert_eq!(call(&none, "add", vec![]).0.unwrap(), Binding::Expression(Expr::integer(0..0, 0)));
}

#[test]
fn accepts_call_says_what_has_a_meaning() {
    let interpreter = Interpreter::new();
    let span = 0..1;
    let list = |items: Vec<Expr>| Binding::Function(1, Expr::list(0..0, items));
    let one = vec![Expr::integer(0..0, 1)];
    assert!(interpreter.accepts_call(&list(vec![Expr::argument(0..0, 0)]), "f", &span, &one));
    assert!(!interpreter.accepts_call(&list(vec![Expr::argument(0..0, 1)]), "f", &span, &one));
    assert!(!interpreter.accepts_call(&list(vec![Expr::keyword(0..0, Keyword::Fn)]), "f", &span, &one));
    assert!(interpreter.accepts_call(&list(vec![Expr::argument(0..0, 1)]), "f", &span, &vec![]));
    assert!(!interpreter.accepts_call(&Binding::Function(1, Expr::keyword(0..0, Keyword::Fn)), "f", &span, &one));
    assert!(!interpreter.accepts_call(&Binding::Function(1, Expr::argument(0..0, 1)), "f", &span, &one));
    assert!(!interpreter.accepts_call(&Binding::Expression(Expr::unit(0..0)), "f", &span, &one));
    let big = vec![Expr::integer(0..0, i32::MAX), Expr::integer(0..0, 1)];
    assert!(!interpreter.accepts_call(&Binding::NativeFunction(Some(2), Native::Add), "f", &span, &big));
    assert!(interpreter.accepts_call(&Binding::NativeFunction(Some(3), Native::Add), "f", &span, &big));
}

#[test]
fn placeholders_fit_compares_with_the_number_of_arguments() {
    let items = vec![Expr::argument(0..0, 0), Expr::unit(0..0), Expr::argument(0..0, 2)];
    assert!(placeholders_fit(&items, 3));
    assert!(!placeholders_fit(&items, 2));
    assert!(placeholders_fit(&vec![Expr::list(0..0, vec![Expr::argument(0..0, 7)])], 0));
}

#[test]
fn interpreter_errors_describe_themselves() {
    assert_eq!(
        InterpreterError::UnknownIdentifier("foo".to_string()).message(),
        "Unknown identifier foo"
    );
    assert_eq!(
        InterpreterError::WrongNumArgs { ident: "second".to_string(), expected: 2, got: 13 }.message(),
        "Wrong number of arguments for second (expected 2, got 13)"
    );
    let binding = Binding::Expression(Expr::boolean(1..2, true));
    assert_eq!(
        InterpreterError::InvalidArgument("add".to_string(), binding.clone()).message(),
        format!("Invalid argument provided to function add: {:?}", binding)
    );
}
