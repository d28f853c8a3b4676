//! The parser: from tokens to a tree of spanned expressions.
//!
//! The grammar is `expr := IDENT | INTEGER | '(' expr* ')'`.
//! [`parse_all`] says what the expressions of a token sequence are;
//! [`parse`] computes them.

use std::ops::Range;
use vstd::prelude::*;
use vstd::string::StringExecFns;

use crate::errors::builder::{Diagnostic, DiagnosticView};
use crate::errors::{DiagnosticsContext, Level};
use crate::lexer::{char_span, Token, TokenKind, TokenKindView, TokenView};
use crate::text::{decimal_text, push_decimal};

verus! {

#[derive(Clone, Copy, Debug, PartialEq, Eq, Structural)]
pub enum ParseError {
    /// The `(` at offset `location` has no matching `)`; `eof` is the
    /// offset of the last character that was read.
    UnclosedDelimiter { location: usize, eof: usize },
    /// The `)` at this offset matches no `(`.
    UnexpectedCloseDelimiter(usize),
}

impl ParseError {
    /// What the error says of itself.
    pub open spec fn message_text(self) -> Seq<char> {
        match self {
            ParseError::UnclosedDelimiter { location, .. } => "Unclosed delimiter at character "@
                + decimal_text(location as nat),
            ParseError::UnexpectedCloseDelimiter(at) => "Unexpected closing delimiter at character "@
                + decimal_text(at as nat),
        }
    }

    /// What the error says of itself.
    pub fn message(&self) -> (text: String)
        ensures
            text@ == self.message_text(),
    {
        match self {
            ParseError::UnclosedDelimiter { location, .. } => {
                let mut text = String::from_str("Unclosed delimiter at character ");
                push_decimal(&mut text, *location);
                text
            },
            ParseError::UnexpectedCloseDelimiter(at) => {
                let mut text = String::from_str("Unexpected closing delimiter at character ");
                push_decimal(&mut text, *at);
                text
            },
        }
    }
}

/// A keyword
#[derive(Clone, Copy, Debug, PartialEq, Eq, Structural)]
pub enum Keyword {
    /// Create a binding
    Define,
    /// Declare a function
    Fn,
}

impl Keyword {
    /// The keyword that a word spells, if it spells one.
    pub open spec fn of(word: Seq<char>) -> Option<Keyword> {
        if word == "define"@ {
            Some(Keyword::Define)
        } else if word == "fn"@ {
            Some(Keyword::Fn)
        } else {
            None
        }
    }

    pub fn try_from(value: &str) -> (keyword: Result<Self, ()>)
        ensures
            keyword == match Keyword::of(value@) {
                Some(k) => Ok::<Keyword, ()>(k),
                None => Err(()),
            },
    {
        if same_text(value, "define") {
            Ok(Self::Define)
        } else if same_text(value, "fn") {
            Ok(Self::Fn)
        } else {
            Err(())
        }
    }
}

/// Whether two texts hold the same characters.
pub fn same_text(a: &str, b: &str) -> (same: bool)
    ensures
        same == (a@ == b@),
{
    String::from_str(a) == String::from_str(b)
}

#[derive(Debug, Eq, PartialEq)]
pub enum ExprKind {
    /// eg. "define"
    Keyword(Keyword),
    /// eg. "foo"
    Identifier(String),
    /// eg. "456"
    Integer(i32),
    /// eg. "false"
    Boolean(bool),
    /// ()
    Unit,
    /// Stands, inside the body of a function, for the argument with this
    /// index.
    Argument(usize),
    /// S-expression (eg. "(add 2 2)")
    List(Vec<Expr>),
}

/// An expression
#[derive(Debug, Eq, PartialEq)]
pub struct Expr {
    pub span: Range<usize>,
    pub kind: ExprKind,
}

pub enum ExprKindView {
    Keyword(Keyword),
    Identifier(Seq<char>),
    Integer(i32),
    Boolean(bool),
    Unit,
    Argument(usize),
    List(Seq<ExprView>),
}

pub struct ExprView {
    pub span: Range<usize>,
    pub kind: ExprKindView,
}

/// What an expression says: its span and kind, with names as sequences of
/// characters and a list as the sequence of what its items say.
pub open spec fn expr_view(expr: Expr) -> ExprView
    decreases expr,
{
    ExprView {
        span: expr.span,
        kind: match expr.kind {
            ExprKind::Keyword(keyword) => ExprKindView::Keyword(keyword),
            ExprKind::Identifier(name) => ExprKindView::Identifier(name@),
            ExprKind::Integer(value) => ExprKindView::Integer(value),
            ExprKind::Boolean(value) => ExprKindView::Boolean(value),
            ExprKind::Unit => ExprKindView::Unit,
            ExprKind::Argument(index) => ExprKindView::Argument(index),
            ExprKind::List(items) => ExprKindView::List(
                Seq::new(
                    items@.len(),
                    |i: int|
                        if 0 <= i < items@.len() {
                            expr_view(items@[i])
                        } else {
                            arbitrary()
                        },
                ),
            ),
        },
    }
}

impl View for Expr {
    type V = ExprView;

    open spec fn view(&self) -> ExprView {
        expr_view(*self)
    }
}

impl DeepView for Expr {
    type V = ExprView;

    open spec fn deep_view(&self) -> ExprView {
        self@
    }
}

/// The view of a list is the views of its items.
pub proof fn lemma_list_view(span: Range<usize>, items: Vec<Expr>)
    ensures
        (Expr { span, kind: ExprKind::List(items) })@ == (ExprView {
            span,
            kind: ExprKindView::List(items.deep_view()),
        }),
{
    let e = Expr { span, kind: ExprKind::List(items) };
    assert(e@.kind->List_0 =~= items.deep_view());
}

impl Clone for Expr {
    fn clone(&self) -> (copy: Self)
        ensures
            copy@ == self@,
        decreases self,
    {
        let span = self.span.start..self.span.end;
        let kind = match &self.kind {
            ExprKind::Keyword(keyword) => ExprKind::Keyword(*keyword),
            ExprKind::Identifier(name) => ExprKind::Identifier(name.clone()),
            ExprKind::Integer(value) => ExprKind::Integer(*value),
            ExprKind::Boolean(value) => ExprKind::Boolean(*value),
            ExprKind::Unit => ExprKind::Unit,
            ExprKind::Argument(index) => ExprKind::Argument(*index),
            ExprKind::List(items) => {
                let mut copies: Vec<Expr> = Vec::new();
                let mut i: usize = 0;
                while i < items.len()
                    invariant
                        i <= items.len(),
                        copies.len() == i,
                        self.kind == ExprKind::List(*items),
                        forall|j: int| 0 <= j < i ==> (#[trigger] copies[j])@ == items[j]@,
                    decreases items.len() - i,
                {
                    proof {
                        assert(self.kind == ExprKind::List(*items));
                        assert(self.kind->List_0@[i as int] == items@[i as int]);
                        assert(decreases_to!(*self => self.kind->List_0@[i as int]));
                    }
                    copies.push(items[i].clone());
                    i += 1;
                }
                proof {
                    assert(copies.deep_view() =~= items.deep_view());
                    lemma_list_view(span, copies);
                    lemma_list_view(self.span, *items);
                }
                ExprKind::List(copies)
            },
        };
        Expr { span, kind }
    }
}

impl Expr {
    pub fn new(span: Range<usize>, kind: ExprKind) -> (expr: Self)
        ensures
            expr.span == span,
            expr.kind == kind,
    {
        Self { span, kind }
    }

    /// Convenience function to create a keyword expression
    pub fn keyword(span: Range<usize>, keyword: Keyword) -> (expr: Self)
        ensures
            expr@ == (ExprView { span, kind: ExprKindView::Keyword(keyword) }),
    {
        Self::new(span, ExprKind::Keyword(keyword))
    }

    /// Convenience function to create an identifier expression
    pub fn identifier(span: Range<usize>, ident: String) -> (expr: Self)
        ensures
            expr@ == (ExprView { span, kind: ExprKindView::Identifier(ident@) }),
    {
        Self::new(span, ExprKind::Identifier(ident))
    }

    /// Convenience function to create an integer expression
    pub fn integer(span: Range<usize>, num: i32) -> (expr: Self)
        ensures
            expr@ == (ExprView { span, kind: ExprKindView::Integer(num) }),
    {
        Self::new(span, ExprKind::Integer(num))
    }

    /// Convenience function to create a boolean expression
    pub fn boolean(span: Range<usize>, b: bool) -> (expr: Self)
        ensures
            expr@ == (ExprView { span, kind: ExprKindView::Boolean(b) }),
    {
        Self::new(span, ExprKind::Boolean(b))
    }

    /// Convenience function to create a unit value expression
    pub fn unit(span: Range<usize>) -> (expr: Self)
        ensures
            expr@ == (ExprView { span, kind: ExprKindView::Unit }),
    {
        Self::new(span, ExprKind::Unit)
    }

    /// Convenience function to create an argument expression
    pub fn argument(span: Range<usize>, idx: usize) -> (expr: Self)
        ensures
            expr@ == (ExprView { span, kind: ExprKindView::Argument(idx) }),
    {
        Self::new(span, ExprKind::Argument(idx))
    }

    /// Convenience function to create a list expression
    pub fn list(span: Range<usize>, exprs: Vec<Expr>) -> (expr: Self)
        ensures
            expr@ == (ExprView { span, kind: ExprKindView::List(exprs.deep_view()) }),
    {
        proof {
            lemma_list_view(span, exprs);
        }
        Self::new(span, ExprKind::List(exprs))
    }
}

/// What a word of the source is: a keyword, a boolean, or else an
/// identifier.
pub open spec fn classify(word: Seq<char>) -> ExprKindView {
    match Keyword::of(word) {
        Some(keyword) => ExprKindView::Keyword(keyword),
        None => if word == "true"@ {
            ExprKindView::Boolean(true)
        } else if word == "false"@ {
            ExprKindView::Boolean(false)
        } else {
            ExprKindView::Identifier(word)
        },
    }
}

/// The offset of the last character of a token.
pub open spec fn last_offset(token: TokenView) -> usize {
    (token.span.end - 1) as usize
}

/// What the parser makes of the tokens from one index on.
pub enum Parsed {
    /// One expression, and the index of the first token behind it.
    Expr { expr: ExprView, next: int },
    Failed(ParseError),
}

/// What the parser accepts: every token covers at least one character, and
/// none is a blank.
pub open spec fn well_formed(tokens: Seq<TokenView>) -> bool {
    forall|i: int|
        0 <= i < tokens.len() ==> (#[trigger] tokens[i]).span.start < tokens[i].span.end
            && !(tokens[i].kind is Whitespace)
}

/// The expression that starts with the token at index `at`.
///
/// A word or an integer is an expression by itself. A `(` starts a list,
/// which [`list_at`] reads. A `)` that is met here closes nothing.
pub open spec fn expr_at(tokens: Seq<TokenView>, at: int) -> Parsed
    recommends
        0 <= at < tokens.len(),
    decreases tokens.len() - at, 0nat,
{
    let token = tokens[at];
    match token.kind {
        TokenKindView::IdentOrKeyword(word) => Parsed::Expr {
            expr: ExprView { span: token.span, kind: classify(word) },
            next: at + 1,
        },
        TokenKindView::Integer(value) => Parsed::Expr {
            expr: ExprView { span: token.span, kind: ExprKindView::Integer(value) },
            next: at + 1,
        },
        TokenKindView::OpenParen => if 0 <= at < tokens.len() {
            list_at(tokens, at + 1, at, Seq::empty())
        } else {
            // There is no token outside the sequence: nothing is said here.
            arbitrary()
        },
        TokenKindView::CloseParen => Parsed::Failed(
            ParseError::UnexpectedCloseDelimiter(token.span.start),
        ),
        // A blank never leaves the lexer: nothing is said of one here.
        TokenKindView::Whitespace => Parsed::Failed(arbitrary()),
    }
}

/// The list that the `(` at index `open` starts, of which `items` have been
/// read and the token at index `at` comes next.
///
/// A `)` ends the list. Without items it is the unit value, and spans from
/// the `(` to the `)`; with items it spans from the `(` to the end of its last
/// item. Where the tokens end first, the `(` is unclosed.
pub open spec fn list_at(tokens: Seq<TokenView>, at: int, open: int, items: Seq<ExprView>) -> Parsed
    recommends
        0 <= open < at <= tokens.len(),
    decreases tokens.len() - at, 1nat,
{
    if !(0 <= at < tokens.len()) {
        Parsed::Failed(
            ParseError::UnclosedDelimiter {
                location: tokens[open].span.start,
                eof: last_offset(tokens[at - 1]),
            },
        )
    } else if tokens[at].kind is CloseParen {
        if items.len() == 0 {
            Parsed::Expr {
                expr: ExprView {
                    span: tokens[open].span.start..tokens[at].span.end,
                    kind: ExprKindView::Unit,
                },
                next: at + 1,
            }
        } else {
            Parsed::Expr {
                expr: ExprView {
                    span: tokens[open].span.start..items.last().span.end,
                    kind: ExprKindView::List(items),
                },
                next: at + 1,
            }
        }
    } else {
        match expr_at(tokens, at) {
            Parsed::Failed(error) => Parsed::Failed(error),
            Parsed::Expr { expr, next } => if at < next <= tokens.len() {
                list_at(tokens, next, open, items.push(expr))
            } else {
                // An expression covers at least one token: see
                // `lemma_expr_advances`.
                arbitrary()
            },
        }
    }
}

/// An expression covers at least one token, and no token behind the last.
pub proof fn lemma_expr_advances(tokens: Seq<TokenView>, at: int)
    requires
        0 <= at < tokens.len(),
    ensures
        expr_at(tokens, at) matches Parsed::Expr { next, .. } ==> at < next <= tokens.len(),
    decreases tokens.len() - at, 0nat,
{
    if tokens[at].kind is OpenParen {
        lemma_list_advances(tokens, at + 1, at, Seq::empty());
    }
}

/// A list ends behind where its reading stands.
pub proof fn lemma_list_advances(tokens: Seq<TokenView>, at: int, open: int, items: Seq<ExprView>)
    requires
        0 <= open < at <= tokens.len(),
    ensures
        list_at(tokens, at, open, items) matches Parsed::Expr { next, .. } ==> at < next
            <= tokens.len(),
    decreases tokens.len() - at, 1nat,
{
    if at < tokens.len() && !(tokens[at].kind is CloseParen) {
        lemma_expr_advances(tokens, at);
        match expr_at(tokens, at) {
            Parsed::Failed(_) => {},
            Parsed::Expr { expr, next } => {
                lemma_list_advances(tokens, next, open, items.push(expr));
            },
        }
    }
}

/// The expressions that the tokens from index `at` on spell, one behind the
/// other, or the first failure.
pub open spec fn exprs_from(tokens: Seq<TokenView>, at: int) -> Result<Seq<ExprView>, ParseError>
    decreases tokens.len() - at,
    via exprs_from_decreases
{
    if !(0 <= at < tokens.len()) {
        Ok(Seq::empty())
    } else {
        match expr_at(tokens, at) {
            Parsed::Failed(error) => Err(error),
            Parsed::Expr { expr, next } => match exprs_from(tokens, next) {
                Ok(rest) => Ok(seq![expr] + rest),
                Err(error) => Err(error),
            },
        }
    }
}

#[via_fn]
proof fn exprs_from_decreases(tokens: Seq<TokenView>, at: int) {
    if 0 <= at < tokens.len() {
        lemma_expr_advances(tokens, at);
    }
}

/// The expressions that a token sequence spells.
pub open spec fn parse_all(tokens: Seq<TokenView>) -> Result<Seq<ExprView>, ParseError> {
    exprs_from(tokens, 0)
}

/// The diagnostic that the parser reports for an error, against `code`.
///
/// An unclosed delimiter gets two labels: one at the `(`, one at the last
/// character that was read. A `)` that closes nothing is underlined.
pub open spec fn error_report(code: Seq<char>, error: ParseError) -> DiagnosticView {
    match error {
        ParseError::UnclosedDelimiter { location, eof } => DiagnosticView::bare(
            "unclosed delimiter detected"@,
            Level::Error,
            code,
            None,
        ).with_label(Some("this delimiter"@), char_span(location)).with_label(
            Some("reached end of file before finding a match"@),
            char_span(eof),
        ),
        ParseError::UnexpectedCloseDelimiter(at) => DiagnosticView::bare(
            "unexpected closing parenthesis"@,
            Level::Error,
            code,
            None,
        ).with_label(None, char_span(at)),
    }
}

/// The expressions read so far, followed by what the rest of the tokens
/// give.
pub open spec fn followed(done: Seq<ExprView>, rest: Result<Seq<ExprView>, ParseError>) -> Result<
    Seq<ExprView>,
    ParseError,
> {
    match rest {
        Ok(more) => Ok(done + more),
        Err(error) => Err(error),
    }
}

struct Parser<'src> {
    tokens: Vec<Token>,
    /// How many of the tokens have been read.
    pos: usize,
    error_ctx: DiagnosticsContext<'src>,
}

impl<'src> Parser<'src> {
    spec fn wf(&self) -> bool {
        &&& well_formed(self.tokens.deep_view())
        &&& self.error_ctx.origin() is None
        &&& self.pos <= self.tokens.len()
    }

    /// What `after` differs from `self` in is the position alone.
    spec fn advanced(&self, after: &Self) -> bool {
        &&& after.tokens == self.tokens
        &&& after.error_ctx == self.error_ctx
    }

    fn new(tokens: Vec<Token>, code: &'src str) -> (parser: Self)
        requires
            well_formed(tokens.deep_view()),
        ensures
            parser.wf(),
            parser.tokens == tokens,
            parser.pos == 0,
            parser.error_ctx.source() == code@,
    {
        Self { tokens, pos: 0, error_ctx: DiagnosticsContext::new(code, None) }
    }

    fn emit_unclosed_delimiter_err(&self, location: usize, eof: usize, log: &mut Vec<Diagnostic>)
        requires
            self.error_ctx.origin() is None,
            location < usize::MAX,
            eof < usize::MAX,
        ensures
            final(log).deep_view() == old(log).deep_view().push(
                error_report(
                    self.error_ctx.source(),
                    ParseError::UnclosedDelimiter { location, eof },
                ),
            ),
    {
        self.error_ctx.build_error("unclosed delimiter detected").span_label(
            location..location + 1,
            "this delimiter",
        ).span_label(eof..eof + 1, "reached end of file before finding a match").emit(log);
    }

    /// Tries to turn the token at index `at`, which has just been read, and
    /// as many of the tokens behind it as belong to it, into an `Expr`.
    fn parse_token(&mut self, at: usize, log: &mut Vec<Diagnostic>) -> (result: Result<
        Expr,
        ParseError,
    >)
        requires
            old(self).wf(),
            at < old(self).tokens.len(),
            old(self).pos == at + 1,
        ensures
            final(self).wf(),
            old(self).advanced(final(self)),
            match result {
                Ok(expr) => expr_at(old(self).tokens.deep_view(), at as int) == (Parsed::Expr {
                    expr: expr@,
                    next: final(self).pos as int,
                }) && at < final(self).pos && final(log).deep_view() == old(log).deep_view(),
                Err(error) => expr_at(old(self).tokens.deep_view(), at as int) == Parsed::Failed(
                    error,
                ) && final(log).deep_view() == old(log).deep_view().push(
                    error_report(old(self).error_ctx.source(), error),
                ),
            },
        decreases old(self).tokens.len() - at,
    {
        let ghost tokens = self.tokens.deep_view();
        assert(tokens[at as int] == self.tokens[at as int]@);
        let start = self.tokens[at].span.start;
        let end = self.tokens[at].span.end;
        match &self.tokens[at].kind {
            TokenKind::IdentOrKeyword(id_or_kw) => {
                if let Ok(keyword) = Keyword::try_from(id_or_kw.as_str()) {
                    return Ok(Expr::keyword(start..end, keyword));
                }
                if same_text(id_or_kw.as_str(), "true") {
                    Ok(Expr::boolean(start..end, true))
                } else if same_text(id_or_kw.as_str(), "false") {
                    Ok(Expr::boolean(start..end, false))
                } else {
                    Ok(Expr::identifier(start..end, id_or_kw.clone()))
                }
            },
            TokenKind::Integer(i) => Ok(Expr::integer(start..end, *i)),
            TokenKind::OpenParen => {
                let mut contents: Vec<Expr> = Vec::new();
                assert(contents.deep_view() =~= Seq::empty());
                loop
                    invariant
                        self.wf(),
                        old(self).advanced(self),
                        tokens == self.tokens.deep_view(),
                        at < self.pos,
                        at < self.tokens.len(),
                        start == tokens[at as int].span.start,
                        log.deep_view() == old(log).deep_view(),
                        expr_at(tokens, at as int) == list_at(
                            tokens,
                            self.pos as int,
                            at as int,
                            contents.deep_view(),
                        ),
                    decreases self.tokens.len() - self.pos,
                {
                    let next = self.pos;
                    let ghost items = contents.deep_view();
                    if next >= self.tokens.len() {
                        assert(tokens[next - 1] == self.tokens[next - 1]@);
                        // The end of a span is one behind its last character.
                        let eof = self.tokens[next - 1].span.end - 1;
                        self.emit_unclosed_delimiter_err(start, eof, log);
                        return Err(ParseError::UnclosedDelimiter { location: start, eof });
                    }
                    assert(tokens[next as int] == self.tokens[next as int]@);
                    self.pos = next + 1;
                    if let TokenKind::CloseParen = self.tokens[next].kind {
                        if contents.len() == 0 {
                            return Ok(Expr::unit(start..self.tokens[next].span.end));
                        }
                        assert(items.last() == contents[contents.len() - 1]@);
                        let last_end = contents[contents.len() - 1].span.end;
                        return Ok(Expr::list(start..last_end, contents));
                    }
                    match self.parse_token(next, log) {
                        Ok(expr) => {
                            contents.push(expr);
                            assert(contents.deep_view() =~= items.push(expr@));
                        },
                        Err(err) => {
                            // already reported where it was found
                            return Err(err);
                        },
                    }
                }
            },
            TokenKind::CloseParen => {
                self.error_ctx.build_error_span(start..start + 1, "unexpected closing parenthesis").emit(
                    log,
                );
                Err(ParseError::UnexpectedCloseDelimiter(start))
            },
            TokenKind::Whitespace => {
                proof {
                    assert(false);
                }
                vstd::pervasive::unreached()
            },
        }
    }

    /// Convenience for parsing the next expression, if any token is left.
    fn parse_next(&mut self, log: &mut Vec<Diagnostic>) -> (result: Result<Option<Expr>, ParseError>)
        requires
            old(self).wf(),
        ensures
            final(self).wf(),
            old(self).advanced(final(self)),
            match result {
                Ok(None) => old(self).pos == old(self).tokens.len() && final(self).pos == old(
                    self,
                ).pos && final(log).deep_view() == old(log).deep_view(),
                Ok(Some(expr)) => old(self).pos < old(self).tokens.len() && expr_at(
                    old(self).tokens.deep_view(),
                    old(self).pos as int,
                ) == (Parsed::Expr { expr: expr@, next: final(self).pos as int }) && old(self).pos
                    < final(self).pos && final(log).deep_view() == old(log).deep_view(),
                Err(error) => old(self).pos < old(self).tokens.len() && expr_at(
                    old(self).tokens.deep_view(),
                    old(self).pos as int,
                ) == Parsed::Failed(error) && final(log).deep_view() == old(log).deep_view().push(
                    error_report(old(self).error_ctx.source(), error),
                ),
            },
    {
        if self.pos < self.tokens.len() {
            let at = self.pos;
            self.pos = at + 1;
            match self.parse_token(at, log) {
                Ok(expr) => Ok(Some(expr)),
                Err(error) => Err(error),
            }
        } else {
            Ok(None)
        }
    }
}

/// Parse the given `Vec` of `Token`s into a `Vec` of `Expr`s.
///
/// The result is `parse_all` of the tokens. Where that fails, the failure
/// is reported against `code` as the one new entry of `log`; where it
/// succeeds, `log` is left as it was.
pub fn parse(tokens: Vec<Token>, code: &str, log: &mut Vec<Diagnostic>) -> (result: Result<
    Vec<Expr>,
    ParseError,
>)
    requires
        well_formed(tokens.deep_view()),
    ensures
        match result {
            Ok(exprs) => parse_all(tokens.deep_view()) == Ok::<Seq<ExprView>, ParseError>(
                exprs.deep_view(),
            ) && final(log).deep_view() == old(log).deep_view(),
            Err(error) => parse_all(tokens.deep_view()) == Err::<Seq<ExprView>, ParseError>(error)
                && final(log).deep_view() == old(log).deep_view().push(error_report(code@, error)),
        },
{
    let ghost all = tokens.deep_view();
    let mut res: Vec<Expr> = Vec::new();
    let mut parser = Parser::new(tokens, code);
    assert(res.deep_view() =~= Seq::empty());

    loop
        invariant
            parser.wf(),
            parser.tokens.deep_view() == all,
            all == tokens.deep_view(),
            parser.error_ctx.source() == code@,
            log.deep_view() == old(log).deep_view(),
            parse_all(all) == followed(res.deep_view(), exprs_from(all, parser.pos as int)),
        decreases parser.tokens.len() - parser.pos,
    {
        let ghost before = res.deep_view();
        match parser.parse_next(log) {
            Err(error) => {
                return Err(error);
            },
            Ok(None) => {
                assert(before + Seq::<ExprView>::empty() =~= before);
                return Ok(res);
            },
            Ok(Some(expr)) => {
                res.push(expr);
                assert(res.deep_view() =~= before.push(expr@));
                assert forall|rest: Seq<ExprView>|
                    before + (seq![expr@] + rest) == #[trigger] (before.push(expr@) + rest) by {
                    assert(before + (seq![expr@] + rest) =~= before.push(expr@) + rest);
                }
            },
        }
    }
}

/// Says whether [`parse`] accepts the tokens.
pub fn accepts(tokens: &Vec<Token>) -> (yes: bool)
    ensures
        yes == well_formed(tokens.deep_view()),
{
    let mut i: usize = 0;
    while i < tokens.len()
        invariant
            i <= tokens.len(),
            forall|j: int|
                0 <= j < i ==> (#[trigger] tokens.deep_view()[j]).span.start
                    < tokens.deep_view()[j].span.end && !(tokens.deep_view()[j].kind is Whitespace),
        decreases tokens.len() - i,
    {
        let token = &tokens[i];
        assert(tokens.deep_view()[i as int] == token@);
        let blank = match token.kind {
            TokenKind::Whitespace => true,
            _ => false,
        };
        if blank || token.span.start >= token.span.end {
            return false;
        }
        i += 1;
    }
    true
}

/// What the lexer hands out, the parser accepts.
pub proof fn lemma_lexed_tokens_well_formed(s: Seq<char>)
    requires
        s.len() <= usize::MAX,
        crate::lexer::tokenize(s) is Ok,
    ensures
        well_formed(crate::lexer::tokenize(s)->Ok_0),
{
    crate::lexer::lemma_tokens_in_order(s, 0);
}

/// The expression covers at least one character and lies between the
/// offsets `from` and `to`, and so does, inside a list, every item: between
/// the `(` and the end of the list, one behind the other.
pub open spec fn well_spanned(expr: ExprView, from: int, to: int) -> bool
    decreases expr,
{
    &&& from <= expr.span.start < expr.span.end <= to
    &&& match expr.kind {
        ExprKindView::List(items) => {
            &&& forall|i: int|
                0 <= i < items.len() ==> well_spanned(
                    #[trigger] items[i],
                    expr.span.start + 1,
                    expr.span.end as int,
                )
            &&& forall|i: int, j: int|
                0 <= i < j < items.len() ==> (#[trigger] items[i]).span.end <= (
                #[trigger] items[j]).span.start
        },
        _ => true,
    }
}

/// The expressions are well spanned between `from` and `to` and stand one
/// behind the other.
pub open spec fn lined_up(exprs: Seq<ExprView>, from: int, to: int) -> bool {
    &&& forall|i: int| 0 <= i < exprs.len() ==> well_spanned(#[trigger] exprs[i], from, to)
    &&& forall|i: int, j: int|
        0 <= i < j < exprs.len() ==> (#[trigger] exprs[i]).span.end <= (
        #[trigger] exprs[j]).span.start
}

/// What lies between two offsets lies between any two that are further
/// apart.
proof fn lemma_wider(expr: ExprView, from: int, to: int, lower: int, upper: int)
    requires
        well_spanned(expr, from, to),
        lower <= from,
        to <= upper,
    ensures
        well_spanned(expr, lower, upper),
{
}

proof fn lemma_expr_spans(tokens: Seq<TokenView>, at: int, len: int)
    requires
        crate::lexer::in_order(tokens, 0, len),
        0 <= at < tokens.len(),
        expr_at(tokens, at) is Expr,
    ensures
        at < expr_at(tokens, at)->next <= tokens.len(),
        expr_at(tokens, at)->expr.span.start == tokens[at].span.start,
        well_spanned(
            expr_at(tokens, at)->expr,
            tokens[at].span.start as int,
            tokens[expr_at(tokens, at)->next - 1].span.end as int,
        ),
    decreases tokens.len() - at, 0nat,
{
    lemma_expr_advances(tokens, at);
    if tokens[at].kind is OpenParen {
        lemma_list_spans(tokens, at + 1, at, Seq::empty(), len);
    }
}

proof fn lemma_list_spans(
    tokens: Seq<TokenView>,
    at: int,
    open: int,
    items: Seq<ExprView>,
    len: int,
)
    requires
        crate::lexer::in_order(tokens, 0, len),
        0 <= open < at <= tokens.len(),
        lined_up(items, tokens[open].span.end as int, tokens[at - 1].span.end as int),
        list_at(tokens, at, open, items) is Expr,
    ensures
        at < list_at(tokens, at, open, items)->next <= tokens.len(),
        list_at(tokens, at, open, items)->expr.span.start == tokens[open].span.start,
        well_spanned(
            list_at(tokens, at, open, items)->expr,
            tokens[open].span.start as int,
            tokens[list_at(tokens, at, open, items)->next - 1].span.end as int,
        ),
    decreases tokens.len() - at, 1nat,
{
    lemma_list_advances(tokens, at, open, items);
    let opened = tokens[open];
    if tokens[at].kind is CloseParen {
        if items.len() != 0 {
            let list = list_at(tokens, at, open, items)->expr;
            let last = items.last();
            assert(well_spanned(last, opened.span.end as int, tokens[at - 1].span.end as int));
            assert forall|i: int| 0 <= i < items.len() implies well_spanned(
                #[trigger] items[i],
                list.span.start + 1,
                list.span.end as int,
            ) by {
                assert(well_spanned(items[i], opened.span.end as int, tokens[at - 1].span.end as int));
                if i < items.len() - 1 {
                    assert(items[i].span.end <= last.span.start);
                }
                lemma_wider(
                    items[i],
                    opened.span.end as int,
                    items[i].span.end as int,
                    list.span.start + 1,
                    list.span.end as int,
                );
            }
        }
    } else {
        lemma_expr_spans(tokens, at, len);
        let item = expr_at(tokens, at)->expr;
        let next = expr_at(tokens, at)->next;
        let longer = items.push(item);
        let from = opened.span.end as int;
        let to = tokens[next - 1].span.end as int;
        assert forall|i: int| 0 <= i < longer.len() implies well_spanned(
            #[trigger] longer[i],
            from,
            to,
        ) by {
            if i < items.len() {
                assert(well_spanned(items[i], from, tokens[at - 1].span.end as int));
                assert(tokens[at - 1].span.end <= tokens[next - 1].span.end);
                lemma_wider(items[i], from, tokens[at - 1].span.end as int, from, to);
            } else {
                lemma_wider(item, tokens[at].span.start as int, to, from, to);
            }
        }
        assert forall|i: int, j: int| 0 <= i < j < longer.len() implies (
        #[trigger] longer[i]).span.end <= (#[trigger] longer[j]).span.start by {
            if j == items.len() {
                assert(well_spanned(items[i], from, tokens[at - 1].span.end as int));
            }
        }
        lemma_list_spans(tokens, next, open, longer, len);
    }
}

proof fn lemma_exprs_spans(tokens: Seq<TokenView>, at: int, len: int)
    requires
        crate::lexer::in_order(tokens, 0, len),
        0 <= at <= tokens.len(),
        exprs_from(tokens, at) is Ok,
    ensures
        lined_up(exprs_from(tokens, at)->Ok_0, 0, len),
        at < tokens.len() ==> exprs_from(tokens, at)->Ok_0.len() > 0 && exprs_from(
            tokens,
            at,
        )->Ok_0[0].span.start == tokens[at].span.start,
    decreases tokens.len() - at,
{
    if at < tokens.len() {
        lemma_expr_spans(tokens, at, len);
        let first = expr_at(tokens, at)->expr;
        let next = expr_at(tokens, at)->next;
        lemma_exprs_spans(tokens, next, len);
        let rest = exprs_from(tokens, next)->Ok_0;
        let all = exprs_from(tokens, at)->Ok_0;
        assert(all =~= seq![first] + rest);
        lemma_wider(first, tokens[at].span.start as int, tokens[next - 1].span.end as int, 0, len);
        assert forall|i: int| 0 <= i < all.len() implies well_spanned(#[trigger] all[i], 0, len) by {
            if i > 0 {
                assert(all[i] == rest[i - 1]);
            }
        }
        assert forall|i: int, j: int| 0 <= i < j < all.len() implies (#[trigger] all[i]).span.end <= (
        #[trigger] all[j]).span.start by {
            assert(all[j] == rest[j - 1]);
            if i > 0 {
                assert(all[i] == rest[i - 1]);
            } else {
                assert(well_spanned(rest[0], 0, len));
                assert(well_spanned(rest[j - 1], 0, len));
                if j > 1 {
                    assert(rest[0].span.end <= rest[j - 1].span.start);
                }
            }
        }
    }
}

/// Spans survive parsing: the expressions of tokens that lie in order inside
/// a text of `len` characters lie in order inside that text, each covers at
/// least one character, and a list covers its items.
pub proof fn lemma_parsed_spans(tokens: Seq<TokenView>, len: int)
    requires
        crate::lexer::in_order(tokens, 0, len),
        parse_all(tokens) is Ok,
    ensures
        lined_up(parse_all(tokens)->Ok_0, 0, len),
{
    lemma_exprs_spans(tokens, 0, len);
}

/// From a text to its expressions: where both stages succeed, every
/// expression lies inside the text.
pub proof fn lemma_lexed_and_parsed_spans(s: Seq<char>)
    requires
        s.len() <= usize::MAX,
        crate::lexer::tokenize(s) is Ok,
        parse_all(crate::lexer::tokenize(s)->Ok_0) is Ok,
    ensures
        lined_up(parse_all(crate::lexer::tokenize(s)->Ok_0)->Ok_0, 0, s.len() as int),
{
    crate::lexer::lemma_tokens_in_order(s, 0);
    lemma_parsed_spans(crate::lexer::tokenize(s)->Ok_0, s.len() as int);
}

impl ParseError {
    /// The offsets that the error holds are offsets of characters of a
    /// text of `len` characters.
    pub open spec fn inside(self, len: int) -> bool {
        match self {
            ParseError::UnclosedDelimiter { location, eof } => location < len && eof < len,
            ParseError::UnexpectedCloseDelimiter(at) => at < len,
        }
    }
}

proof fn lemma_expr_fails_inside(tokens: Seq<TokenView>, at: int, len: int)
    requires
        crate::lexer::in_order(tokens, 0, len),
        0 <= at < tokens.len(),
        expr_at(tokens, at) is Failed,
    ensures
        expr_at(tokens, at)->Failed_0.inside(len),
    decreases tokens.len() - at, 0nat,
{
    if tokens[at].kind is OpenParen {
        lemma_list_fails_inside(tokens, at + 1, at, Seq::empty(), len);
    }
}

proof fn lemma_list_fails_inside(
    tokens: Seq<TokenView>,
    at: int,
    open: int,
    items: Seq<ExprView>,
    len: int,
)
    requires
        crate::lexer::in_order(tokens, 0, len),
        0 <= open < at <= tokens.len(),
        list_at(tokens, at, open, items) is Failed,
    ensures
        list_at(tokens, at, open, items)->Failed_0.inside(len),
    decreases tokens.len() - at, 1nat,
{
    if at < tokens.len() {
        lemma_expr_advances(tokens, at);
        match expr_at(tokens, at) {
            Parsed::Failed(_) => {
                lemma_expr_fails_inside(tokens, at, len);
            },
            Parsed::Expr { expr, next } => {
                lemma_list_fails_inside(tokens, next, open, items.push(expr), len);
            },
        }
    } else {
        assert(tokens[open].span.start < tokens[open].span.end);
        assert(tokens[at - 1].span.start < tokens[at - 1].span.end);
    }
}

proof fn lemma_exprs_fail_inside(tokens: Seq<TokenView>, at: int, len: int)
    requires
        crate::lexer::in_order(tokens, 0, len),
        0 <= at <= tokens.len(),
        exprs_from(tokens, at) is Err,
    ensures
        exprs_from(tokens, at)->Err_0.inside(len),
    decreases tokens.len() - at,
{
    if at < tokens.len() {
        lemma_expr_advances(tokens, at);
        match expr_at(tokens, at) {
            Parsed::Failed(_) => {
                lemma_expr_fails_inside(tokens, at, len);
            },
            Parsed::Expr { next, .. } => {
                lemma_exprs_fail_inside(tokens, next, len);
            },
        }
    }
}

/// What the parser reports on tokens that lie inside the text it reports
/// against can be laid out: its labels lie inside that text.
pub proof fn lemma_error_report_renderable(tokens: Seq<TokenView>, code: Seq<char>)
    requires
        code.len() < usize::MAX,
        crate::lexer::in_order(tokens, 0, code.len() as int),
        parse_all(tokens) is Err,
    ensures
        parse_all(tokens)->Err_0.inside(code.len() as int),
        error_report(code, parse_all(tokens)->Err_0).renderable(),
{
    lemma_exprs_fail_inside(tokens, 0, code.len() as int);
    let report = error_report(code, parse_all(tokens)->Err_0);
    assert forall|i: int| 0 <= i < report.labels.len() implies (#[trigger] report.labels[i]).inside(
        code.len(),
    ) by {
        if i == 0 {
        } else {
            assert(i == 1);
        }
    }
}

} // verus!
