use nightbug::errors::builder::{Diagnostic, Label};
use nightbug::errors::{DiagnosticsContext, Level};
use nightbug::lexer::{lex, report_unreadable, LexError, Token, TokenKind};

fn tokens_of(code: &str) -> Vec<Token> {
    let mut log: Vec<Diagnostic> = Vec::new();
    let tokens = lex(code, &mut log).unwrap();
    assert!(log.is_empty());
    tokens
}

fn ident(start: usize, end: usize, text: &str) -> Token {
    Token::new(start..end, TokenKind::IdentOrKeyword(text.to_string()))
}

#[test]
fn lex_empty_text_has_no_tokens() {
    assert_eq!(tokens_of(""), vec![]);
    assert_eq!(tokens_of(" \t\r\n"), vec![]);
}

#[test]
fn lex_call_gives_spanned_tokens() {
    assert_eq!(
        tokens_of("(add 2 (second 3 4))"),
        vec![
            Token::new(0..1, TokenKind::OpenParen),
            ident(1, 4, "add"),
            Token::new(5..6, TokenKind::Integer(2)),
            Token::new(7..8, TokenKind::OpenParen),
            ident(8, 14, "second"),
            Token::new(15..16, TokenKind::Integer(3)),
            Token::new(17..18, TokenKind::Integer(4)),
            Token::new(18..19, TokenKind::CloseParen),
            Token::new(19..20, TokenKind::CloseParen),
        ]
    );
}

#[test]
fn lex_takes_the_longest_run() {
    assert_eq!(tokens_of("_foo1 bar_2"), vec![ident(0, 5, "_foo1"), ident(6, 11, "bar_2")]);
    assert_eq!(
        tokens_of("12ab"),
        vec![Token::new(0..2, TokenKind::Integer(12)), ident(2, 4, "ab")]
    );
    assert_eq!(tokens_of("Zz"), vec![ident(0, 2, "Zz")]);
}

#[test]
fn lex_reads_integers_in_base_ten() {
    assert_eq!(tokens_of("0"), vec![Token::new(0..1, TokenKind::Integer(0))]);
    assert_eq!(tokens_of("007"), vec![Token::new(0..3, TokenKind::Integer(7))]);
    assert_eq!(tokens_of("535325"), vec![Token::new(0..6, TokenKind::Integer(535325))]);
    assert_eq!(
        tokens_of("2147483647"),
        vec![Token::new(0..10, TokenKind::Integer(i32::MAX))]
    );
}

#[test]
fn lex_never_hands_out_a_blank() {
    for token in tokens_of(" ( a\t1 \n ) \r") {
        assert_ne!(token.kind, TokenKind::Whitespace);
        assert!(token.span.start < token.span.end);
    }
}

#[test]
fn lex_loses_nothing_but_blanks() {
    for code in ["(add 2 (second 3 4))", "  a_b\t(1\n2)\r\n)(", "x", ""] {
        let spelled: String =
            tokens_of(code).iter().map(|token| &code[token.span.clone()]).collect();
        let expected: String =
            code.chars().filter(|c| !matches!(c, ' ' | '\t' | '\n' | '\r')).collect();
        assert_eq!(spelled, expected);
    }
}

#[test]
fn lex_rejects_an_unexpected_character() {
    let code = "a + b";
    let mut log: Vec<Diagnostic> = Vec::new();
    match lex(code, &mut log) {
        Err(LexError::UnexpectedChar('+', 2)) => {}
        other => panic!("unexpected result: {:?}", other),
    }
    assert_eq!(
        log,
        vec![Diagnostic {
            title: "unexpected character".to_string(),
            level: Level::Error,
            labels: vec![Label { contents: None, level: Level::Error, span: 2..3 }],
            footers: vec![],
            source: code.to_string(),
            origin: None,
        }]
    );
}

#[test]
fn lex_reports_the_offset_of_a_wide_character() {
    let mut log: Vec<Diagnostic> = Vec::new();
    match lex("ab \u{e9}", &mut log) {
        Err(LexError::UnexpectedChar('\u{e9}', 3)) => {}
        other => panic!("unexpected result: {:?}", other),
    }
    assert_eq!(log.len(), 1);
    assert_eq!(log[0].labels[0].span, 3..4);
}

#[test]
fn lex_stops_at_the_first_failure() {
    let mut log: Vec<Diagnostic> = Vec::new();
    match lex("a # b $ 99999999999", &mut log) {
        Err(LexError::UnexpectedChar('#', 2)) => {}
        other => panic!("unexpected result: {:?}", other),
    }
    assert_eq!(log.len(), 1);
}

#[test]
fn lex_reports_an_integer_that_is_too_large() {
    let code = "(add 2147483648)";
    let mut log: Vec<Diagnostic> = Vec::new();
    match lex(code, &mut log) {
        Err(LexError::CouldntParseInt(text, cause)) => {
            assert_eq!(text, "2147483648");
            assert_eq!(cause, "2147483648".parse::<i32>().unwrap_err());
        }
        other => panic!("unexpected result: {:?}", other),
    }
    let note = |text: &str| Label {
        contents: Some(text.to_string()),
        level: Level::Note,
        span: 0..0,
    };
    assert_eq!(
        log,
        vec![Diagnostic {
            title: "could not parse 2147483648 into an integer".to_string(),
            level: Level::ICE,
            labels: vec![Label { contents: None, level: Level::ICE, span: 5..15 }],
            footers: vec![
                note("this is an internal error"),
                note("a bug report would be highly appreciated:\nhttps://github.com/PatchMixolydic/nightbug/issues/new"),
                note("str::parse::<i32> says: number too large to fit in target type"),
            ],
            source: code.to_string(),
            origin: None,
        }]
    );
}

#[test]
fn lex_leaves_the_log_as_it_was_on_success() {
    let mut log: Vec<Diagnostic> = Vec::new();
    assert!(lex("#", &mut log).is_err());
    let before = log.len();
    assert!(lex("(a b)", &mut log).is_ok());
    assert_eq!(log.len(), before);
    assert!(lex("?", &mut log).is_err());
    assert_eq!(log.len(), before + 1);
    assert_eq!(log[1].source, "?");
}

#[test]
fn report_unreadable_repeats_the_digits_and_the_reason() {
    let mut log: Vec<Diagnostic> = Vec::new();
    let context = DiagnosticsContext::new("x 123 y", None);
    report_unreadable(&context, "123", 2, "no reason", &mut log);
    assert_eq!(log.len(), 1);
    assert_eq!(log[0].title, "could not parse 123 into an integer");
    assert_eq!(log[0].level, Level::ICE);
    assert_eq!(log[0].labels, vec![Label { contents: None, level: Level::ICE, span: 2..5 }]);
    assert_eq!(log[0].footers.len(), 3);
    assert_eq!(
        log[0].footers[2],
        Label {
            contents: Some("str::parse::<i32> says: no reason".to_string()),
            level: Level::Note,
            span: 0..0
        }
    );
    assert_eq!(log[0].source, "x 123 y");
}

#[test]
fn lex_reports_can_be_rendered() {
    for code in ["#", "a #", "a\n\u{e9}", "99999999999", "(add 1 99999999999)", "x\n\n?"] {
        let mut log: Vec<Diagnostic> = Vec::new();
        assert!(lex(code, &mut log).is_err());
        assert_eq!(log.len(), 1);
        assert!(log[0].can_render());
        assert!(log[0].render().is_some());
    }
}

#[test]
fn lex_errors_describe_themselves() {
    assert_eq!(LexError::UnexpectedChar('#', 4).message(), "Unexpected character #");
    let cause = "99999999999".parse::<i32>().unwrap_err();
    assert_eq!(
        LexError::CouldntParseInt("99999999999".to_string(), cause).message(),
        "Failed to parse 99999999999"
    );
}

#[test]
fn report_unreadable_keeps_the_origin() {
    let mut log: Vec<Diagnostic> = Vec::new();
    let context = DiagnosticsContext::new("12", Some("file".to_string()));
    report_unreadable(&context, "12", 0, "why", &mut log);
    assert_eq!(log[0].origin, Some("file".to_string()));
    assert_eq!(log[0].labels[0].span, 0..2);
}
