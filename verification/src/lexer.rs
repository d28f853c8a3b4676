//! The lexer: from source text to spanned tokens.
//!
//! [`tokenize`] says, over characters, what the tokens of a text are;
//! [`lex`] computes them.

use std::num::ParseIntError;
use std::ops::Range;
use vstd::prelude::*;
use vstd::string::{StrSliceExecFns, StringExecFns};

use crate::errors::builder::{Diagnostic, DiagnosticView};
use crate::errors::{DiagnosticsContext, Level};
use crate::text::{characters, push_char};

verus! {

/// The error of `str::parse` on an integer. Nothing is known of a value of
/// it here; it is carried to the caller.
#[verifier::external_type_specification]
#[verifier::external_body]
pub struct ExParseIntError(ParseIntError);

/// Signals an error met during lexing.
#[derive(Debug)]
pub enum LexError {
    /// A character that starts no token, and its offset.
    UnexpectedChar(char, usize),
    /// A run of digits that is no 32-bit signed integer, and why.
    CouldntParseInt(String, ParseIntError),
}

/// Distinguishes between `Token`s.
#[derive(Debug, Eq, PartialEq)]
pub enum TokenKind {
    /// Identifier or keyword ("foo", "define", "true")
    IdentOrKeyword(String),
    /// Integer ("4", "535325", "0")
    Integer(i32),
    /// Open parenthesis ("(")
    OpenParen,
    /// Close parenthesis (")")
    CloseParen,
    /// A blank. The lexer reads it and hands it to nobody.
    Whitespace,
}

/// A lexical token read from a source text.
#[derive(Debug, Eq, PartialEq)]
pub struct Token {
    /// The region of the source text that this token was read from.
    pub span: Range<usize>,
    pub kind: TokenKind,
}

pub enum TokenKindView {
    IdentOrKeyword(Seq<char>),
    Integer(i32),
    OpenParen,
    CloseParen,
    Whitespace,
}

pub struct TokenView {
    pub span: Range<usize>,
    pub kind: TokenKindView,
}

impl View for TokenKind {
    type V = TokenKindView;

    open spec fn view(&self) -> TokenKindView {
        match self {
            TokenKind::IdentOrKeyword(text) => TokenKindView::IdentOrKeyword(text@),
            TokenKind::Integer(value) => TokenKindView::Integer(*value),
            TokenKind::OpenParen => TokenKindView::OpenParen,
            TokenKind::CloseParen => TokenKindView::CloseParen,
            TokenKind::Whitespace => TokenKindView::Whitespace,
        }
    }
}

impl View for Token {
    type V = TokenView;

    open spec fn view(&self) -> TokenView {
        TokenView { span: self.span, kind: self.kind@ }
    }
}

impl DeepView for Token {
    type V = TokenView;

    open spec fn deep_view(&self) -> TokenView {
        self@
    }
}

impl Token {
    pub fn new(span: Range<usize>, kind: TokenKind) -> (token: Self)
        ensures
            token.span == span,
            token.kind == kind,
    {
        Self { span, kind }
    }
}

/// A letter of ASCII or an underscore: what an identifier starts with.
pub open spec fn is_ident_start(c: char) -> bool {
    ('A' <= c && c <= 'Z') || ('a' <= c && c <= 'z') || c == '_'
}

/// A decimal digit of ASCII.
pub open spec fn is_digit(c: char) -> bool {
    '0' <= c && c <= '9'
}

/// What an identifier goes on with.
pub open spec fn is_ident_part(c: char) -> bool {
    is_ident_start(c) || is_digit(c)
}

/// Space, tab, line feed or carriage return.
pub open spec fn is_blank(c: char) -> bool {
    c == ' ' || c == '\t' || c == '\n' || c == '\r'
}

/// The length of the longest run of identifier characters that starts at
/// `from`.
pub open spec fn ident_len(s: Seq<char>, from: int) -> nat
    decreases s.len() - from,
{
    if 0 <= from < s.len() && is_ident_part(s[from]) {
        1 + ident_len(s, from + 1)
    } else {
        0
    }
}

/// The length of the longest run of digits that starts at `from`.
pub open spec fn digits_len(s: Seq<char>, from: int) -> nat
    decreases s.len() - from,
{
    if 0 <= from < s.len() && is_digit(s[from]) {
        1 + digits_len(s, from + 1)
    } else {
        0
    }
}

/// The number that a run of digits writes in base ten.
pub open spec fn decimal_value(digits: Seq<char>) -> nat
    decreases digits.len(),
{
    if digits.len() == 0 {
        0
    } else {
        (decimal_value(digits.drop_last()) * 10 + (digits.last() as u32 - '0' as u32)) as nat
    }
}

/// Why a text has no tokens.
pub enum LexFailure {
    /// The character at offset `at` starts no token.
    Unexpected { found: char, at: usize },
    /// The run of digits that starts at offset `at` exceeds `i32::MAX`.
    TooLarge { digits: Seq<char>, at: usize },
}

/// What the lexer finds at one offset.
pub enum Scan {
    /// The text ends here.
    Done,
    Found(TokenView),
    Failed(LexFailure),
}

/// How many characters the token that starts at `at` covers: the whole run
/// for an identifier or an integer, one character otherwise.
pub open spec fn token_len(s: Seq<char>, at: int) -> nat {
    if is_ident_start(s[at]) {
        ident_len(s, at)
    } else if is_digit(s[at]) {
        digits_len(s, at)
    } else {
        1
    }
}

/// The token that starts at offset `at`, if one does.
pub open spec fn scan(s: Seq<char>, at: int) -> Scan {
    if !(0 <= at < s.len()) {
        Scan::Done
    } else {
        let c = s[at];
        let span = (at as usize)..((at + token_len(s, at)) as usize);
        let text = s.subrange(at, at + token_len(s, at));
        if is_ident_start(c) {
            Scan::Found(TokenView { span, kind: TokenKindView::IdentOrKeyword(text) })
        } else if is_digit(c) {
            if decimal_value(text) <= i32::MAX {
                Scan::Found(
                    TokenView { span, kind: TokenKindView::Integer(decimal_value(text) as i32) },
                )
            } else {
                Scan::Failed(LexFailure::TooLarge { digits: text, at: at as usize })
            }
        } else if c == '(' {
            Scan::Found(TokenView { span, kind: TokenKindView::OpenParen })
        } else if c == ')' {
            Scan::Found(TokenView { span, kind: TokenKindView::CloseParen })
        } else if is_blank(c) {
            Scan::Found(TokenView { span, kind: TokenKindView::Whitespace })
        } else {
            Scan::Failed(LexFailure::Unexpected { found: c, at: at as usize })
        }
    }
}

/// The tokens of `s` from offset `at` on, blanks left out, or the first
/// failure.
pub open spec fn tokens_from(s: Seq<char>, at: int) -> Result<Seq<TokenView>, LexFailure>
    decreases s.len() - at,
    via tokens_from_decreases
{
    match scan(s, at) {
        Scan::Done => Ok(Seq::empty()),
        Scan::Failed(failure) => Err(failure),
        Scan::Found(token) => match tokens_from(s, at + token_len(s, at)) {
            Err(failure) => Err(failure),
            Ok(rest) => if token.kind is Whitespace {
                Ok(rest)
            } else {
                Ok(seq![token] + rest)
            },
        },
    }
}

#[via_fn]
proof fn tokens_from_decreases(s: Seq<char>, at: int) {
    if 0 <= at < s.len() {
        lemma_token_len(s, at);
    }
}

/// A run lies inside the text.
pub proof fn lemma_run_len(s: Seq<char>, from: int)
    requires
        0 <= from <= s.len(),
    ensures
        from + ident_len(s, from) <= s.len(),
        from + digits_len(s, from) <= s.len(),
    decreases s.len() - from,
{
    if from < s.len() {
        lemma_run_len(s, from + 1);
    }
}

/// A token covers at least one character and lies inside the text.
pub proof fn lemma_token_len(s: Seq<char>, at: int)
    requires
        0 <= at < s.len(),
    ensures
        1 <= token_len(s, at),
        at + token_len(s, at) <= s.len(),
{
    lemma_run_len(s, at);
}

/// The tokens of a text: at each offset the longest token that starts
/// there, from left to right, blanks left out. There are none if a character
/// starts no token, or if a run of digits exceeds `i32::MAX`.
pub open spec fn tokenize(s: Seq<char>) -> Result<Seq<TokenView>, LexFailure> {
    tokens_from(s, 0)
}

/// The error with which `str::parse::<i32>` refuses a text that it
/// refuses.
pub uninterp spec fn parse_failure(text: Seq<char>) -> ParseIntError;

/// The text in which `ParseIntError` describes itself: what its `to_string`
/// returns.
pub uninterp spec fn parse_error_text(cause: ParseIntError) -> Seq<char>;

/// `str::parse::<i32>` of std. On a run of decimal digits that is not empty
/// it returns the number that the digits write, or fails where that number
/// does not fit in an `i32`. The error is named, not described.
#[verifier::external_body]
fn parse_i32(text: &str) -> (parsed: Result<i32, ParseIntError>)
    ensures
        parsed matches Err(cause) ==> cause == parse_failure(text@),
        text@.len() > 0 && (forall|i: int| 0 <= i < text@.len() ==> is_digit(#[trigger] text@[i]))
            ==> match parsed {
            Ok(value) => value == decimal_value(text@),
            Err(_) => decimal_value(text@) > i32::MAX,
        },
{
    text.parse::<i32>()
}

/// `to_string` of std on a `ParseIntError`.
#[verifier::external_body]
fn describe(cause: &ParseIntError) -> (text: String)
    ensures
        text@ == parse_error_text(*cause),
{
    cause.to_string()
}

impl LexError {
    /// What the error says of itself.
    pub open spec fn message_text(self) -> Seq<char> {
        match self {
            LexError::UnexpectedChar(found, _) => "Unexpected character "@.push(found),
            LexError::CouldntParseInt(text, _) => "Failed to parse "@ + text@,
        }
    }

    /// What the error says of itself.
    pub fn message(&self) -> (text: String)
        ensures
            text@ == self.message_text(),
    {
        match self {
            LexError::UnexpectedChar(found, _) => {
                let mut text = String::from_str("Unexpected character ");
                push_char(&mut text, *found);
                text
            },
            LexError::CouldntParseInt(digits, _) => {
                let mut text = String::from_str("Failed to parse ");
                text.append(digits.as_str());
                text
            },
        }
    }

    /// This error is the one that the lexer returns on `failure`.
    pub open spec fn reports(self, failure: LexFailure) -> bool {
        match self {
            LexError::UnexpectedChar(found, at) => failure == (LexFailure::Unexpected {
                found,
                at,
            }),
            LexError::CouldntParseInt(text, cause) => failure matches LexFailure::TooLarge {
                digits,
                ..
            } && digits == text@ && cause == parse_failure(digits),
        }
    }
}

/// The span of the single character at offset `at`.
pub open spec fn char_span(at: usize) -> Range<usize> {
    at..((at + 1) as usize)
}

/// The report of a run of digits, at offset `at`, that could not be read
/// as an integer, with `why` as what std said of it. It is an internal
/// error: the run is underlined, and the last footer repeats `why`.
pub open spec fn unreadable_report(
    source: Seq<char>,
    origin: Option<Seq<char>>,
    digits: Seq<char>,
    at: usize,
    why: Seq<char>,
) -> DiagnosticView {
    DiagnosticView::bare_ice(
        "could not parse "@ + digits + " into an integer"@,
        source,
        origin,
    ).with_label(None, at..((at + digits.len()) as usize)).with_footer(
        Level::Note,
        "str::parse::<i32> says: "@ + why,
    )
}

/// The diagnostic that the lexer reports on a failure in `source`. An
/// unexpected character is an error of the user, underlined where it stands.
/// A run of digits that is no `i32` is reported as `unreadable_report` says,
/// with what std said of it.
pub open spec fn failure_report(source: Seq<char>, failure: LexFailure) -> DiagnosticView {
    match failure {
        LexFailure::Unexpected { at, .. } => DiagnosticView::bare(
            "unexpected character"@,
            Level::Error,
            source,
            None,
        ).with_label(None, char_span(at)),
        LexFailure::TooLarge { digits, at } => unreadable_report(
            source,
            None,
            digits,
            at,
            parse_error_text(parse_failure(digits)),
        ),
    }
}

/// Reports a run of digits, which starts at offset `at` of the text of
/// `context`, that could not be read as an integer; `why` is what std said
/// of it.
pub fn report_unreadable(
    context: &DiagnosticsContext<'_>,
    digits: &str,
    at: usize,
    why: &str,
    log: &mut Vec<Diagnostic>,
)
    requires
        at + digits@.len() <= usize::MAX,
    ensures
        final(log).deep_view() == old(log).deep_view().push(
            unreadable_report(context.source(), context.origin(), digits@, at, why@),
        ),
{
    let mut title = String::from_str("could not parse ");
    title.append(digits);
    title.append(" into an integer");
    let mut note = String::from_str("str::parse::<i32> says: ");
    note.append(why);
    let end = at + digits.unicode_len();
    context.build_ice_span(at..end, title.as_str()).note(note.as_str()).emit(log);
}

fn ident_start(c: char) -> (yes: bool)
    ensures
        yes == is_ident_start(c),
{
    (c >= 'A' && c <= 'Z') || (c >= 'a' && c <= 'z') || c == '_'
}

fn digit(c: char) -> (yes: bool)
    ensures
        yes == is_digit(c),
{
    c >= '0' && c <= '9'
}

fn blank(c: char) -> (yes: bool)
    ensures
        yes == is_blank(c),
{
    c == ' ' || c == '\t' || c == '\n' || c == '\r'
}

/// Keeps the lexer state during lexing: the characters of the source, how
/// many of them have been read, and where failures are reported.
struct Lexer<'src> {
    chars: Vec<char>,
    pos: usize,
    error_ctx: DiagnosticsContext<'src>,
}

impl<'src> Lexer<'src> {
    spec fn wf(&self) -> bool {
        &&& self.chars@ == self.error_ctx.source()
        &&& self.error_ctx.origin() is None
        &&& self.pos <= self.chars.len()
    }

    /// What `after` differs from `self` in is the offset alone.
    spec fn advanced(&self, after: &Self) -> bool {
        &&& after.chars == self.chars
        &&& after.error_ctx == self.error_ctx
    }

    fn new(source: &'src str) -> (lexer: Self)
        ensures
            lexer.wf(),
            lexer.chars@ == source@,
            lexer.pos == 0,
    {
        Self { chars: characters(source), pos: 0, error_ctx: DiagnosticsContext::new(source, None) }
    }

    /// Try and yield the token that starts at the current offset.
    /// Returns Ok(Some(...)) if a token was lexed,
    /// Ok(None) if the source is exhausted,
    /// or Err(...) if an error occurred, which is then reported.
    fn lex_one_token(&mut self, log: &mut Vec<Diagnostic>) -> (result: Result<
        Option<Token>,
        LexError,
    >)
        requires
            old(self).wf(),
        ensures
            final(self).wf(),
            old(self).advanced(final(self)),
            match result {
                Ok(None) => scan(old(self).chars@, old(self).pos as int) is Done && final(self).pos
                    == old(self).pos,
                Ok(Some(token)) => scan(old(self).chars@, old(self).pos as int) == Scan::Found(
                    token@,
                ) && final(self).pos == old(self).pos + token_len(
                    old(self).chars@,
                    old(self).pos as int,
                ),
                Err(error) => scan(old(self).chars@, old(self).pos as int) matches Scan::Failed(
                    failure,
                ) && error.reports(failure) && final(log).deep_view() == old(log).deep_view().push(
                    failure_report(old(self).chars@, failure),
                ) && final(self).pos == old(self).pos + failure.read(),
            },
            result is Ok ==> final(log).deep_view() == old(log).deep_view(),
    {
        if self.pos >= self.chars.len() {
            return Ok(None);
        }
        let idx = self.pos;
        let c = self.chars[idx];
        // Span for c, since it's the most common
        let span_c = idx..idx + 1;

        if ident_start(c) {
            Ok(Some(self.consume_ident()))
        } else if digit(c) {
            match self.consume_integer(log) {
                Ok(res) => Ok(Some(res)),
                Err((num_str, err)) => Err(LexError::CouldntParseInt(num_str, err)),
            }
        } else if c == '(' {
            self.pos = idx + 1;
            Ok(Some(Token::new(span_c, TokenKind::OpenParen)))
        } else if c == ')' {
            self.pos = idx + 1;
            Ok(Some(Token::new(span_c, TokenKind::CloseParen)))
        } else if blank(c) {
            self.pos = idx + 1;
            Ok(Some(Token::new(span_c, TokenKind::Whitespace)))
        } else {
            self.error_ctx.build_error_span(span_c, "unexpected character").emit(log);
            Err(LexError::UnexpectedChar(c, idx))
        }
    }

    /// Take every character that could be considered part of an identifier
    /// and produce an `IdentOrKeyword` token.
    fn consume_ident(&mut self) -> (token: Token)
        requires
            old(self).wf(),
            old(self).pos < old(self).chars.len(),
            is_ident_start(old(self).chars[old(self).pos as int]),
        ensures
            final(self).wf(),
            old(self).advanced(final(self)),
            scan(old(self).chars@, old(self).pos as int) == Scan::Found(token@),
            final(self).pos == old(self).pos + token_len(old(self).chars@, old(self).pos as int),
    {
        let mut res = String::new();
        let start = self.pos;
        let ghost s = self.chars@;
        proof {
            lemma_run_len(s, start as int);
        }

        while self.pos < self.chars.len() && ident_start_or_digit(self.chars[self.pos])
            invariant
                self.wf(),
                old(self).advanced(self),
                s == self.chars@,
                start <= self.pos <= s.len(),
                res@ == s.subrange(start as int, self.pos as int),
                ident_len(s, start as int) == (self.pos - start) + ident_len(s, self.pos as int),
            decreases s.len() - self.pos,
        {
            push_char(&mut res, self.chars[self.pos]);
            self.pos += 1;
            assert(res@ =~= s.subrange(start as int, self.pos as int));
        }

        let token = Token::new(start..self.pos, TokenKind::IdentOrKeyword(res));
        assert(token@.kind == TokenKindView::IdentOrKeyword(res@));
        token
    }

    /// Take every character that could be considered part of an integer
    /// and produce an `Integer` token.
    /// On failure, reports it and returns a tuple including the number that
    /// failed to parse and the error produced by the parse function.
    fn consume_integer(&mut self, log: &mut Vec<Diagnostic>) -> (result: Result<
        Token,
        (String, ParseIntError),
    >)
        requires
            old(self).wf(),
            old(self).pos < old(self).chars.len(),
            is_digit(old(self).chars[old(self).pos as int]),
        ensures
            final(self).wf(),
            old(self).advanced(final(self)),
            match result {
                Ok(token) => scan(old(self).chars@, old(self).pos as int) == Scan::Found(token@)
                    && final(self).pos == old(self).pos + token_len(
                    old(self).chars@,
                    old(self).pos as int,
                ) && final(log).deep_view() == old(log).deep_view(),
                Err((text, cause)) => scan(old(self).chars@, old(self).pos as int) == Scan::Failed(
                    LexFailure::TooLarge { digits: text@, at: old(self).pos },
                ) && cause == parse_failure(text@) && final(log).deep_view() == old(
                    log,
                ).deep_view().push(
                    failure_report(
                        old(self).chars@,
                        LexFailure::TooLarge { digits: text@, at: old(self).pos },
                    ),
                ) && final(self).pos == old(self).pos + token_len(
                    old(self).chars@,
                    old(self).pos as int,
                ),
            },
    {
        let start = self.pos;
        let mut num_str = String::new();
        let ghost s = self.chars@;
        proof {
            lemma_run_len(s, start as int);
        }

        while self.pos < self.chars.len() && digit(self.chars[self.pos])
            invariant
                self.wf(),
                old(self).advanced(self),
                s == self.chars@,
                start <= self.pos <= s.len(),
                num_str@ == s.subrange(start as int, self.pos as int),
                forall|i: int| start <= i < self.pos ==> is_digit(#[trigger] s[i]),
                digits_len(s, start as int) == (self.pos - start) + digits_len(s, self.pos as int),
            decreases s.len() - self.pos,
        {
            push_char(&mut num_str, self.chars[self.pos]);
            self.pos += 1;
            assert(num_str@ =~= s.subrange(start as int, self.pos as int));
        }

        match parse_i32(num_str.as_str()) {
            Ok(res) => Ok(Token::new(start..self.pos, TokenKind::Integer(res))),
            Err(err) => {
                let why = describe(&err);
                report_unreadable(&self.error_ctx, num_str.as_str(), start, why.as_str(), log);
                Err((num_str, err))
            },
        }
    }
}

fn ident_start_or_digit(c: char) -> (yes: bool)
    ensures
        yes == is_ident_part(c),
{
    ident_start(c) || digit(c)
}

/// Turn a source text into its tokens.
///
/// The result is `tokenize` of the text. Where that fails, the error
/// returned is the one that stands for the failure, and the failure is
/// reported as the one new entry of `log`; where it succeeds, `log` is left
/// as it was, and the tokens lie in order inside the text.
pub fn lex(source: &str, log: &mut Vec<Diagnostic>) -> (result: Result<Vec<Token>, LexError>)
    ensures
        match result {
            Ok(tokens) => tokenize(source@) == Ok::<Seq<TokenView>, LexFailure>(
                tokens.deep_view(),
            ) && final(log).deep_view() == old(log).deep_view() && in_order(
                tokens.deep_view(),
                0,
                source@.len() as int,
            ),
            Err(error) => tokenize(source@) matches Err(failure) && error.reports(failure)
                && final(log).deep_view() == old(log).deep_view().push(
                failure_report(source@, failure),
            ),
        },
{
    let mut lexer = Lexer::new(source);
    let mut res: Vec<Token> = Vec::new();
    let ghost s = source@;
    assert(res.deep_view() =~= Seq::empty());

    loop
        invariant
            lexer.wf(),
            lexer.chars@ == s,
            s == source@,
            log.deep_view() == old(log).deep_view(),
            tokenize(s) == prefixed(res.deep_view(), tokens_from(s, lexer.pos as int)),
        decreases s.len() - lexer.pos,
    {
        let ghost at = lexer.pos as int;
        let ghost before = res.deep_view();
        proof {
            if at < s.len() {
                lemma_token_len(s, at);
            }
        }
        match lexer.lex_one_token(log) {
            Err(error) => {
                return Err(error);
            },
            Ok(None) => {
                proof {
                    assert(before + Seq::<TokenView>::empty() =~= before);
                    lemma_tokens_in_order(s, 0);
                }
                return Ok(res);
            },
            Ok(Some(token)) => {
                match token.kind {
                    TokenKind::Whitespace => {},
                    _ => {
                        res.push(token);
                        assert(res.deep_view() =~= before.push(token@));
                        assert forall|rest: Seq<TokenView>|
                            before + (seq![token@] + rest) == #[trigger] (before.push(token@) + rest) by {
                            assert(before + (seq![token@] + rest) =~= before.push(token@) + rest);
                        }
                    },
                }
            },
        }
    }
}

/// The tokens read so far, followed by what the rest of the text gives.
pub open spec fn prefixed(done: Seq<TokenView>, rest: Result<Seq<TokenView>, LexFailure>) -> Result<
    Seq<TokenView>,
    LexFailure,
> {
    match rest {
        Ok(more) => Ok(done + more),
        Err(failure) => Err(failure),
    }
}

/// What the tokens spell: the pieces of the text under their spans, one
/// behind the other.
pub open spec fn spelled(s: Seq<char>, tokens: Seq<TokenView>) -> Seq<char>
    decreases tokens.len(),
{
    if tokens.len() == 0 {
        Seq::empty()
    } else {
        s.subrange(tokens[0].span.start as int, tokens[0].span.end as int) + spelled(
            s,
            tokens.skip(1),
        )
    }
}

/// Holds of every character but a blank.
pub open spec fn nonblank() -> spec_fn(char) -> bool {
    |c: char| !is_blank(c)
}

/// A character that the lexer accepts: a letter, a digit, an underscore, a
/// parenthesis or a blank.
pub open spec fn is_lexical(c: char) -> bool {
    is_ident_part(c) || c == '(' || c == ')' || is_blank(c)
}

/// The tokens lie behind offset `from` and inside a text of `len`
/// characters, each covers at least one character, none overlaps the next,
/// and none is a blank.
pub open spec fn in_order(tokens: Seq<TokenView>, from: int, len: int) -> bool {
    &&& forall|i: int|
        0 <= i < tokens.len() ==> from <= (#[trigger] tokens[i]).span.start < tokens[i].span.end
            <= len && !(tokens[i].kind is Whitespace)
    &&& forall|i: int, j: int|
        0 <= i < j < tokens.len() ==> (#[trigger] tokens[i]).span.end <= (
        #[trigger] tokens[j]).span.start
}

proof fn lemma_runs(s: Seq<char>, from: int)
    requires
        0 <= from <= s.len(),
    ensures
        forall|i: int| from <= i < from + ident_len(s, from) ==> is_ident_part(#[trigger] s[i]),
        forall|i: int| from <= i < from + digits_len(s, from) ==> is_digit(#[trigger] s[i]),
    decreases s.len() - from,
{
    if from < s.len() {
        lemma_runs(s, from + 1);
    }
}

proof fn lemma_filter_keeps_all(s: Seq<char>, pred: spec_fn(char) -> bool)
    requires
        forall|i: int| 0 <= i < s.len() ==> pred(#[trigger] s[i]),
    ensures
        s.filter(pred) == s,
    decreases s.len(),
{
    reveal(Seq::filter);
    if s.len() > 0 {
        lemma_filter_keeps_all(s.drop_last(), pred);
        assert(s.drop_last().push(s.last()) =~= s);
    }
}

/// The tokens of a text from one offset on lie in order behind that offset.
pub proof fn lemma_tokens_in_order(s: Seq<char>, at: int)
    requires
        0 <= at <= s.len() <= usize::MAX,
        tokens_from(s, at) is Ok,
    ensures
        in_order(tokens_from(s, at)->Ok_0, at, s.len() as int),
    decreases s.len() - at,
{
    let tokens = tokens_from(s, at)->Ok_0;
    if at < s.len() {
        lemma_token_len(s, at);
        let next = at + token_len(s, at);
        let token = scan(s, at)->Found_0;
        let rest = tokens_from(s, next)->Ok_0;
        lemma_tokens_in_order(s, next);
        if !(token.kind is Whitespace) {
            assert(tokens =~= seq![token] + rest);
            assert(token.span.start == at && token.span.end == next);
            assert forall|i: int, j: int| 0 <= i < j < tokens.len() implies (
            #[trigger] tokens[i]).span.end <= (#[trigger] tokens[j]).span.start by {
                assert(tokens[j] == rest[j - 1]);
                if i > 0 {
                    assert(tokens[i] == rest[i - 1]);
                }
            }
            assert forall|i: int| 0 <= i < tokens.len() implies at <= (
            #[trigger] tokens[i]).span.start < tokens[i].span.end <= s.len() && !(tokens[i].kind
                is Whitespace) by {
                if i > 0 {
                    assert(tokens[i] == rest[i - 1]);
                }
            }
        }
    }
}

/// A token that is no blank covers no blank.
proof fn lemma_token_piece(s: Seq<char>, at: int)
    requires
        0 <= at < s.len(),
        !is_blank(s[at]),
        scan(s, at) is Found,
    ensures
        s.subrange(at, at + token_len(s, at)).filter(nonblank()) == s.subrange(
            at,
            at + token_len(s, at),
        ),
{
    lemma_token_len(s, at);
    lemma_runs(s, at);
    let piece = s.subrange(at, at + token_len(s, at));
    assert forall|i: int| 0 <= i < piece.len() implies nonblank()(#[trigger] piece[i]) by {
        assert(piece[i] == s[at + i]);
    }
    lemma_filter_keeps_all(piece, nonblank());
}

/// A blank is filtered out.
proof fn lemma_blank_piece(s: Seq<char>, at: int)
    requires
        0 <= at < s.len(),
        is_blank(s[at]),
    ensures
        s.subrange(at, at + 1).filter(nonblank()) == Seq::<char>::empty(),
{
    let piece = s.subrange(at, at + 1);
    reveal_with_fuel(Seq::filter, 2);
    assert(piece.drop_last() =~= Seq::<char>::empty());
    assert(piece.filter(nonblank()) =~= Seq::<char>::empty());
}

/// The tokens of a text from one offset on spell the text from there on
/// without its blanks.
pub proof fn lemma_tokens_spell(s: Seq<char>, at: int)
    requires
        0 <= at <= s.len() <= usize::MAX,
        tokens_from(s, at) is Ok,
    ensures
        spelled(s, tokens_from(s, at)->Ok_0) == s.subrange(at, s.len() as int).filter(nonblank()),
    decreases s.len() - at,
{
    let tokens = tokens_from(s, at)->Ok_0;
    let tail = s.subrange(at, s.len() as int);
    if at == s.len() {
        assert(tail =~= Seq::empty());
        reveal(Seq::filter);
    } else {
        lemma_token_len(s, at);
        let next = at + token_len(s, at);
        let token = scan(s, at)->Found_0;
        let rest = tokens_from(s, next)->Ok_0;
        lemma_tokens_spell(s, next);
        let piece = s.subrange(at, next);
        let after = s.subrange(next, s.len() as int);
        assert(tail =~= piece + after);
        Seq::filter_distributes_over_add(piece, after, nonblank());
        if token.kind is Whitespace {
            lemma_blank_piece(s, at);
            assert(Seq::<char>::empty() + after.filter(nonblank()) =~= after.filter(nonblank()));
        } else {
            lemma_token_piece(s, at);
            assert(tokens =~= seq![token] + rest);
            assert(tokens.skip(1) =~= rest);
            assert(tokens[0] == token);
            assert(token.span.start == at && token.span.end == next);
        }
    }
}

/// Lexing loses nothing but blanks: the tokens of a text of letters,
/// digits, underscores, parentheses and blanks, where it has tokens, spell
/// that text with the blanks left out.
pub proof fn lemma_lex_keeps_text(s: Seq<char>)
    requires
        s.len() <= usize::MAX,
        forall|i: int| 0 <= i < s.len() ==> is_lexical(#[trigger] s[i]),
        tokenize(s) is Ok,
    ensures
        spelled(s, tokenize(s)->Ok_0) == s.filter(nonblank()),
{
    lemma_tokens_spell(s, 0);
    assert(s.subrange(0, s.len() as int) =~= s);
}

/// A text of letters, digits, underscores, parentheses and blanks has
/// tokens unless one of its runs of digits exceeds `i32::MAX`.
pub proof fn lemma_lexical_text_fails_on_integers_only(s: Seq<char>)
    requires
        forall|i: int| 0 <= i < s.len() ==> is_lexical(#[trigger] s[i]),
    ensures
        tokenize(s) matches Err(failure) ==> failure is TooLarge,
{
    lemma_lexical_from(s, 0);
}

proof fn lemma_lexical_from(s: Seq<char>, at: int)
    requires
        0 <= at <= s.len(),
        forall|i: int| 0 <= i < s.len() ==> is_lexical(#[trigger] s[i]),
    ensures
        tokens_from(s, at) matches Err(failure) ==> failure is TooLarge,
    decreases s.len() - at,
{
    if at < s.len() {
        lemma_token_len(s, at);
        assert(is_lexical(s[at]));
        lemma_lexical_from(s, at + token_len(s, at));
    }
}

impl LexFailure {
    /// The offset at which the lexer gave up.
    pub open spec fn at(self) -> usize {
        match self {
            LexFailure::Unexpected { at, .. } => at,
            LexFailure::TooLarge { at, .. } => at,
        }
    }

    /// How many characters the lexer has read of what it gave up on: none
    /// of an unexpected character, all of a run of digits.
    pub open spec fn read(self) -> nat {
        match self {
            LexFailure::Unexpected { .. } => 0,
            LexFailure::TooLarge { digits, .. } => digits.len(),
        }
    }
}

/// How far the lexer reads a text: to its end, or to the offset at which it
/// gives up.
pub open spec fn read_to(s: Seq<char>) -> int {
    match tokenize(s) {
        Ok(_) => s.len() as int,
        Err(failure) => failure.at() as int,
    }
}

proof fn lemma_read_from(s: Seq<char>, from: int)
    requires
        0 <= from <= s.len() <= usize::MAX,
    ensures
        match tokens_from(s, from) {
            Ok(_) => forall|i: int| from <= i < s.len() ==> is_lexical(#[trigger] s[i]),
            Err(failure) => from <= failure.at() < s.len() && (forall|i: int|
                from <= i < failure.at() ==> is_lexical(#[trigger] s[i])) && (failure matches LexFailure::TooLarge {
                digits,
                at,
            } ==> at + digits.len() <= s.len()),
        },
    decreases s.len() - from,
{
    if from < s.len() {
        lemma_token_len(s, from);
        lemma_runs(s, from);
        if scan(s, from) is Found {
            lemma_read_from(s, from + token_len(s, from));
        }
    }
}

/// What the lexer reads of a text are characters of one byte each. So an
/// offset into the characters that it has read, which is what a span and an
/// error hold, is also the offset into the bytes of the text.
pub proof fn lemma_offsets_count_bytes(s: Seq<char>, at: int)
    requires
        s.len() <= usize::MAX,
        0 <= at <= read_to(s),
    ensures
        vstd::utf8::encode_utf8(s.subrange(0, at)).len() == at,
{
    lemma_read_from(s, 0);
    let read = s.subrange(0, at);
    assert forall|i: int| 0 <= i < read.len() implies '\0' <= #[trigger] read[i] <= '\u{7f}' by {
        assert(read[i] == s[i]);
        assert(is_lexical(s[i]));
    }
    vstd::utf8::is_ascii_chars_encode_utf8(read);
}

/// What the lexer reports can be laid out: its labels lie inside the text.
pub proof fn lemma_failure_report_renderable(s: Seq<char>)
    requires
        s.len() < usize::MAX,
        tokenize(s) is Err,
    ensures
        failure_report(s, tokenize(s)->Err_0).renderable(),
{
    lemma_read_from(s, 0);
    let failure = tokenize(s)->Err_0;
    let report = failure_report(s, failure);
    assert(report.labels.len() == 1);
    assert(report.labels[0].inside(s.len()));
}

} // verus!
