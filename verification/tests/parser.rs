use nightbug::errors::builder::{Diagnostic, Label};
use nightbug::errors::Level;
use nightbug::lexer::{lex, Token, TokenKind};
use nightbug::parser::{accepts, parse, same_text, Expr, ExprKind, Keyword, ParseError};

fn parse_str(code: &str) -> Vec<Expr> {
    let mut log: Vec<Diagnostic> = Vec::new();
    let tokens = lex(code, &mut log).unwrap();
    assert!(accepts(&tokens));
    let exprs = parse(tokens, code, &mut log).unwrap();
    assert!(log.is_empty());
    exprs
}

fn parse_failure(code: &str) -> (ParseError, Vec<Diagnostic>) {
    let mut log: Vec<Diagnostic> = Vec::new();
    let tokens = lex(code, &mut log).unwrap();
    let error = parse(tokens, code, &mut log).unwrap_err();
    (error, log)
}

fn error_label(text: Option<&str>, start: usize, end: usize) -> Label {
    Label { contents: text.map(str::to_string), level: Level::Error, span: start..end }
}

#[test]
fn fail_unclosed() {
    let code = "(add 2 (second 3 4)) (foobar 1";
    let mut log: Vec<Diagnostic> = Vec::new();
    let res = parse(lex(code, &mut log).unwrap(), code, &mut log);
    assert!(matches!(res, Err(ParseError::UnclosedDelimiter { .. })));
    assert_eq!(log.len(), 1);
}

#[test]
fn parse_unclosed_says_where() {
    let code = "(add 2 (second 3 4)) (foobar 1";
    let (error, log) = parse_failure(code);
    assert_eq!(error, ParseError::UnclosedDelimiter { location: 21, eof: 29 });
    assert_eq!(
        log,
        vec![Diagnostic {
            title: "unclosed delimiter detected".to_string(),
            level: Level::Error,
            labels: vec![
                error_label(Some("this delimiter"), 21, 22),
                error_label(Some("reached end of file before finding a match"), 29, 30),
            ],
            footers: vec![],
            source: code.to_string(),
            origin: None,
        }]
    );
    assert!(log[0].render().is_some());
}

#[test]
fn parse_unclosed_names_the_innermost_delimiter() {
    assert_eq!(parse_failure("(").0, ParseError::UnclosedDelimiter { location: 0, eof: 0 });
    assert_eq!(parse_failure("(a").0, ParseError::UnclosedDelimiter { location: 0, eof: 1 });
    assert_eq!(parse_failure("(a (b c").0, ParseError::UnclosedDelimiter { location: 3, eof: 6 });
    assert_eq!(parse_failure("(a (b c)").0, ParseError::UnclosedDelimiter { location: 0, eof: 7 });
    assert_eq!(parse_failure("1 ((  ").0, ParseError::UnclosedDelimiter { location: 3, eof: 3 });
}

#[test]
fn parse_rejects_a_stray_close_delimiter() {
    let (error, log) = parse_failure("a )");
    assert_eq!(error, ParseError::UnexpectedCloseDelimiter(2));
    assert_eq!(
        log,
        vec![Diagnostic {
            title: "unexpected closing parenthesis".to_string(),
            level: Level::Error,
            labels: vec![error_label(None, 2, 3)],
            footers: vec![],
            source: "a )".to_string(),
            origin: None,
        }]
    );
    assert_eq!(parse_failure(")").0, ParseError::UnexpectedCloseDelimiter(0));
    assert_eq!(parse_failure("(a) b) (").0, ParseError::UnexpectedCloseDelimiter(5));
}

#[test]
fn parse_integer() {
    assert_eq!(parse_str("2"), vec![Expr::integer(0..1, 2)]);
}

#[test]
fn parse_booleans() {
    assert_eq!(parse_str("true"), vec![Expr::boolean(0..4, true)]);
    assert_eq!(parse_str("false"), vec![Expr::boolean(0..5, false)]);
}

#[test]
fn parse_classifies_words() {
    assert_eq!(
        parse_str("define fn true false truely defin Fn"),
        vec![
            Expr::keyword(0..6, Keyword::Define),
            Expr::keyword(7..9, Keyword::Fn),
            Expr::boolean(10..14, true),
            Expr::boolean(15..20, false),
            Expr::identifier(21..27, "truely".to_string()),
            Expr::identifier(28..33, "defin".to_string()),
            Expr::identifier(34..36, "Fn".to_string()),
        ]
    );
}

#[test]
fn parse_unit_spans_both_delimiters() {
    assert_eq!(parse_str("()"), vec![Expr::unit(0..2)]);
    assert_eq!(parse_str(" (  )"), vec![Expr::unit(1..5)]);
}

#[test]
fn parse_list_spans_to_its_last_item() {
    assert_eq!(
        parse_str("(add 2 3)"),
        vec![Expr::list(
            0..8,
            vec![
                Expr::identifier(1..4, "add".to_string()),
                Expr::integer(5..6, 2),
                Expr::integer(7..8, 3),
            ]
        )]
    );
    assert_eq!(parse_str("(a)"), vec![Expr::list(0..2, vec![Expr::identifier(1..2, "a".to_string())])]);
    assert_eq!(
        parse_str("(a   )"),
        vec![Expr::list(0..2, vec![Expr::identifier(1..2, "a".to_string())])]
    );
}

#[test]
fn parse_nested_lists() {
    assert_eq!(
        parse_str("(add 2 (second 3 4)) ()"),
        vec![
            Expr::list(
                0..18,
                vec![
                    Expr::identifier(1..4, "add".to_string()),
                    Expr::integer(5..6, 2),
                    Expr::list(
                        7..18,
                        vec![
                            Expr::identifier(8..14, "second".to_string()),
                            Expr::integer(15..16, 3),
                            Expr::integer(17..18, 4),
                        ]
                    ),
                ]
            ),
            Expr::unit(21..23),
        ]
    );
    assert_eq!(
        parse_str("((()))"),
        vec![Expr::list(0..4, vec![Expr::list(1..4, vec![Expr::unit(2..4)])])]
    );
}

#[test]
fn parse_reads_expressions_one_behind_the_other() {
    assert_eq!(
        parse_str("1 a (b)"),
        vec![
            Expr::integer(0..1, 1),
            Expr::identifier(2..3, "a".to_string()),
            Expr::list(4..6, vec![Expr::identifier(5..6, "b".to_string())]),
        ]
    );
    assert_eq!(parse_str(""), vec![]);
}

#[test]
fn parse_accepts_what_the_lexer_hands_out() {
    let mut log: Vec<Diagnostic> = Vec::new();
    for code in ["", "(add 2 (second 3 4))", ")) ((", "a\n\tb"] {
        assert!(accepts(&lex(code, &mut log).unwrap()));
    }
}

#[test]
fn parse_accepts_no_blank_and_no_empty_token() {
    assert!(!accepts(&vec![Token::new(0..1, TokenKind::Whitespace)]));
    assert!(!accepts(&vec![Token::new(3..3, TokenKind::OpenParen)]));
    assert!(!accepts(&vec![Token::new(4..3, TokenKind::Integer(1))]));
    assert!(accepts(&vec![Token::new(3..4, TokenKind::OpenParen)]));
}

#[test]
fn parse_takes_tokens_made_by_hand() {
    let mut log: Vec<Diagnostic> = Vec::new();
    let tokens = vec![
        Token::new(10..11, TokenKind::OpenParen),
        Token::new(20..25, TokenKind::IdentOrKeyword("fn".to_string())),
        Token::new(30..31, TokenKind::CloseParen),
    ];
    assert_eq!(
        parse(tokens, "", &mut log).unwrap(),
        vec![Expr::list(10..25, vec![Expr::keyword(20..25, Keyword::Fn)])]
    );
    assert!(log.is_empty());
}

#[test]
fn keyword_try_from_knows_two_words() {
    assert_eq!(Keyword::try_from("define"), Ok(Keyword::Define));
    assert_eq!(Keyword::try_from("fn"), Ok(Keyword::Fn));
    assert_eq!(Keyword::try_from("Define"), Err(()));
    assert_eq!(Keyword::try_from(""), Err(()));
}

#[test]
fn same_text_compares_characters() {
    assert!(same_text("abc", "abc"));
    assert!(same_text("", ""));
    assert!(!same_text("abc", "abd"));
    assert!(!same_text("abc", "ab"));
}

#[test]
fn expr_constructors_set_span_and_kind() {
    assert_eq!(Expr::new(1..2, ExprKind::Unit), Expr { span: 1..2, kind: ExprKind::Unit });
    assert_eq!(Expr::keyword(1..2, Keyword::Fn).kind, ExprKind::Keyword(Keyword::Fn));
    assert_eq!(Expr::identifier(1..2, "x".to_string()).kind, ExprKind::Identifier("x".to_string()));
    assert_eq!(Expr::integer(1..2, -3).kind, ExprKind::Integer(-3));
    assert_eq!(Expr::boolean(1..2, true).kind, ExprKind::Boolean(true));
    assert_eq!(Expr::unit(1..2).kind, ExprKind::Unit);
    assert_eq!(Expr::argument(1..2, 7).kind, ExprKind::Argument(7));
    assert_eq!(Expr::list(1..2, vec![Expr::unit(0..0)]).kind, ExprKind::List(vec![Expr::unit(0..0)]));
    assert_eq!(Expr::argument(5..9, 7).span, 5..9);
}

#[test]
fn expr_clone_copies_the_whole_tree() {
    let tree = Expr::list(
        0..9,
        vec![
            Expr::identifier(1..2, "f".to_string()),
            Expr::list(3..8, vec![Expr::integer(4..5, 1), Expr::argument(0..0, 2)]),
            Expr::keyword(0..0, Keyword::Define),
            Expr::boolean(0..0, false),
            Expr::unit(0..0),
        ],
    );
    assert_eq!(tree.clone(), tree);
}

fn assert_well_spanned(expr: &Expr, from: usize, to: usize) {
    assert!(from <= expr.span.start && expr.span.start < expr.span.end && expr.span.end <= to);
    if let ExprKind::List(items) = &expr.kind {
        assert_lined_up(items, expr.span.start + 1, expr.span.end);
    }
}

fn assert_lined_up(exprs: &[Expr], from: usize, to: usize) {
    for expr in exprs {
        assert_well_spanned(expr, from, to);
    }
    for pair in exprs.windows(2) {
        assert!(pair[0].span.end <= pair[1].span.start);
    }
}

#[test]
fn parse_keeps_expressions_inside_the_text() {
    for code in [
        "(add 2 (second 3 4))",
        "a (b) ((c)) () ( ) (d (e f) g)",
        " \n(define\tx\n  (fn 1 true))\n",
        "1",
        "",
    ] {
        assert_lined_up(&parse_str(code), 0, code.len());
    }
}

#[test]
fn parse_reports_can_be_rendered() {
    for code in ["(", ")", "(a", "(a (b c", "a b )", "(foobar 1", "(()", "\n(\n"] {
        let (_, log) = parse_failure(code);
        assert_eq!(log.len(), 1);
        assert!(log[0].can_render());
        assert!(log[0].render().is_some());
    }
}

#[test]
fn parse_errors_describe_themselves() {
    assert_eq!(
        ParseError::UnclosedDelimiter { location: 21, eof: 29 }.message(),
        "Unclosed delimiter at character 21"
    );
    assert_eq!(
        ParseError::UnexpectedCloseDelimiter(0).message(),
        "Unexpected closing delimiter at character 0"
    );
}
