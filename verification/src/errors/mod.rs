//! Source-anchored diagnostics: severities, the context that a diagnostic is
//! reported against, and the builder that assembles one.

pub mod builder;
pub mod render;

use std::ops::Range;
use vstd::prelude::*;
use vstd::string::StringExecFns;

use crate::errors::builder::{DiagnosticBuilder, DiagnosticView};

verus! {

/// How severe a diagnostic, or one of its labels, is.
#[derive(Clone, Copy, Debug, PartialEq, Eq, Structural)]
pub enum Level {
    /// The language implementation itself is at fault.
    ICE,
    Error,
    Warning,
    Help,
    Info,
    Note,
}

/// First footer of every internal-error diagnostic.
pub open spec fn ice_notice() -> Seq<char> {
    "this is an internal error"@
}

/// Second footer of every internal-error diagnostic.
pub open spec fn ice_invitation() -> Seq<char> {
    "a bug report would be highly appreciated:\nhttps://github.com/PatchMixolydic/nightbug/issues/new"@
}

/// The text that diagnostics are reported against, with an optional label
/// (such as a file name) that says where the text came from.
pub struct DiagnosticsContext<'src> {
    source: &'src str,
    origin: Option<String>,
}

impl<'src> DiagnosticsContext<'src> {
    /// The source text that spans refer to.
    pub closed spec fn source(&self) -> Seq<char> {
        self.source@
    }

    /// The display label of the source, if it has one.
    pub closed spec fn origin(&self) -> Option<Seq<char>> {
        match self.origin {
            Some(name) => Some(name@),
            None => None,
        }
    }

    /// A diagnostic with the given title and severity and nothing else,
    /// reported against this context.
    pub open spec fn bare(&self, message: Seq<char>, level: Level) -> DiagnosticView {
        DiagnosticView::bare(message, level, self.source(), self.origin())
    }

    /// An internal-error diagnostic: the title, and the two footers that mark
    /// it as a fault of the implementation and ask for a report.
    pub open spec fn bare_ice(&self, message: Seq<char>) -> DiagnosticView {
        DiagnosticView::bare_ice(message, self.source(), self.origin())
    }

    pub fn new(source: &'src str, origin: Option<String>) -> (ctx: Self)
        ensures
            ctx.source() == source@,
            ctx.origin() == match origin {
                Some(name) => Some(name@),
                None => None,
            },
    {
        Self { source, origin }
    }

    pub fn set_src(&mut self, source: &'src str)
        ensures
            final(self).source() == source@,
            final(self).origin() == old(self).origin(),
        no_unwind
    {
        self.source = source;
    }

    /// The source text itself.
    pub fn source_text(&self) -> (text: &'src str)
        ensures
            text@ == self.source(),
    {
        self.source
    }

    /// A copy of the origin label.
    pub fn origin_label(&self) -> (label: Option<String>)
        ensures
            self.origin() == match label {
                Some(name) => Some(name@),
                None => None,
            },
    {
        match &self.origin {
            Some(name) => Some(name.clone()),
            None => None,
        }
    }

    pub fn build_ice(&self, message: &str) -> (builder: DiagnosticBuilder<'_, 'src>)
        ensures
            builder@ == self.bare_ice(message@),
    {
        DiagnosticBuilder::new(String::from_str(message), Level::ICE, self).note(
            "this is an internal error",
        ).note(
            "a bug report would be highly appreciated:\nhttps://github.com/PatchMixolydic/nightbug/issues/new",
        )
    }

    pub fn build_ice_span(&self, span: Range<usize>, message: &str) -> (builder: DiagnosticBuilder<
        '_,
        'src,
    >)
        ensures
            builder@ == self.bare_ice(message@).with_label(None, span),
    {
        self.build_ice(message).with_span(span)
    }

    pub fn build_error(&self, message: &str) -> (builder: DiagnosticBuilder<'_, 'src>)
        ensures
            builder@ == self.bare(message@, Level::Error),
    {
        DiagnosticBuilder::new(String::from_str(message), Level::Error, self)
    }

    pub fn build_error_span(&self, span: Range<usize>, message: &str) -> (builder:
        DiagnosticBuilder<'_, 'src>)
        ensures
            builder@ == self.bare(message@, Level::Error).with_label(None, span),
    {
        self.build_error(message).with_span(span)
    }

    pub fn build_warning(&self, message: &str) -> (builder: DiagnosticBuilder<'_, 'src>)
        ensures
            builder@ == self.bare(message@, Level::Warning),
    {
        DiagnosticBuilder::new(String::from_str(message), Level::Warning, self)
    }

    pub fn build_warning_span(&self, span: Range<usize>, message: &str) -> (builder:
        DiagnosticBuilder<'_, 'src>)
        ensures
            builder@ == self.bare(message@, Level::Warning).with_label(None, span),
    {
        self.build_warning(message).with_span(span)
    }

    pub fn build_help(&self, message: &str) -> (builder: DiagnosticBuilder<'_, 'src>)
        ensures
            builder@ == self.bare(message@, Level::Help),
    {
        DiagnosticBuilder::new(String::from_str(message), Level::Help, self)
    }

    pub fn build_help_span(&self, span: Range<usize>, message: &str) -> (builder: DiagnosticBuilder<
        '_,
        'src,
    >)
        ensures
            builder@ == self.bare(message@, Level::Help).with_label(None, span),
    {
        self.build_help(message).with_span(span)
    }

    pub fn build_info(&self, message: &str) -> (builder: DiagnosticBuilder<'_, 'src>)
        ensures
            builder@ == self.bare(message@, Level::Info),
    {
        DiagnosticBuilder::new(String::from_str(message), Level::Info, self)
    }

    pub fn build_info_span(&self, span: Range<usize>, message: &str) -> (builder: DiagnosticBuilder<
        '_,
        'src,
    >)
        ensures
            builder@ == self.bare(message@, Level::Info).with_label(None, span),
    {
        self.build_info(message).with_span(span)
    }

    pub fn build_note(&self, message: &str) -> (builder: DiagnosticBuilder<'_, 'src>)
        ensures
            builder@ == self.bare(message@, Level::Note),
    {
        DiagnosticBuilder::new(String::from_str(message), Level::Note, self)
    }

    pub fn build_note_span(&self, span: Range<usize>, message: &str) -> (builder: DiagnosticBuilder<
        '_,
        'src,
    >)
        ensures
            builder@ == self.bare(message@, Level::Note).with_label(None, span),
    {
        self.build_note(message).with_span(span)
    }
}

} // verus!
