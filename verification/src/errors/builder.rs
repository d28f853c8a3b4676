//! Labels, finished diagnostics, and the builder that assembles them.

use std::ops::Range;
use vstd::prelude::*;
use vstd::string::StringExecFns;

use crate::errors::{DiagnosticsContext, Level};

verus! {

/// One annotation of a diagnostic: a primary label, anchored at a span of the
/// source, or a footer, which carries the empty span at offset 0.
#[derive(Debug, PartialEq, Eq)]
pub struct Label {
    pub contents: Option<String>,
    pub level: Level,
    pub span: Range<usize>,
}

/// What a [`Label`] says, with its text as a sequence of characters.
pub struct LabelView {
    pub contents: Option<Seq<char>>,
    pub level: Level,
    pub span: Range<usize>,
}

impl View for Label {
    type V = LabelView;

    open spec fn view(&self) -> LabelView {
        LabelView {
            contents: match self.contents {
                Some(text) => Some(text@),
                None => None,
            },
            level: self.level,
            span: self.span,
        }
    }
}

impl DeepView for Label {
    type V = LabelView;

    open spec fn deep_view(&self) -> LabelView {
        self@
    }
}

/// A finished diagnostic: the title, the primary labels in the order in which
/// they were attached, the footers in theirs, and the text it was reported
/// against.
#[derive(Debug, PartialEq, Eq)]
pub struct Diagnostic {
    pub title: String,
    pub level: Level,
    pub labels: Vec<Label>,
    pub footers: Vec<Label>,
    pub source: String,
    pub origin: Option<String>,
}

/// What a [`Diagnostic`] says.
pub struct DiagnosticView {
    pub title: Seq<char>,
    pub level: Level,
    pub labels: Seq<LabelView>,
    pub footers: Seq<LabelView>,
    pub source: Seq<char>,
    pub origin: Option<Seq<char>>,
}

impl DiagnosticView {
    /// A diagnostic with a title and a severity and nothing else, against
    /// the given text.
    pub open spec fn bare(
        title: Seq<char>,
        level: Level,
        source: Seq<char>,
        origin: Option<Seq<char>>,
    ) -> Self {
        DiagnosticView {
            title,
            level,
            labels: Seq::empty(),
            footers: Seq::empty(),
            source,
            origin,
        }
    }

    /// An internal-error diagnostic: the title, and the two footers that mark
    /// it as a fault of the implementation and ask for a report.
    pub open spec fn bare_ice(
        title: Seq<char>,
        source: Seq<char>,
        origin: Option<Seq<char>>,
    ) -> Self {
        Self::bare(title, Level::ICE, source, origin).with_footer(
            Level::Note,
            crate::errors::ice_notice(),
        ).with_footer(Level::Note, crate::errors::ice_invitation())
    }

    /// This diagnostic with one more primary label, at its own severity.
    pub open spec fn with_label(self, contents: Option<Seq<char>>, span: Range<usize>) -> Self {
        DiagnosticView {
            labels: self.labels.push(LabelView { contents, level: self.level, span }),
            ..self
        }
    }

    /// This diagnostic with one more footer. A footer is not anchored: its
    /// span is empty.
    pub open spec fn with_footer(self, level: Level, text: Seq<char>) -> Self {
        DiagnosticView {
            footers: self.footers.push(LabelView { contents: Some(text), level, span: 0..0 }),
            ..self
        }
    }
}

impl View for Diagnostic {
    type V = DiagnosticView;

    open spec fn view(&self) -> DiagnosticView {
        DiagnosticView {
            title: self.title@,
            level: self.level,
            labels: self.labels.deep_view(),
            footers: self.footers.deep_view(),
            source: self.source@,
            origin: match self.origin {
                Some(name) => Some(name@),
                None => None,
            },
        }
    }
}

impl DeepView for Diagnostic {
    type V = DiagnosticView;

    open spec fn deep_view(&self) -> DiagnosticView {
        self@
    }
}

/// Assembles one diagnostic. The view of a builder is the diagnostic that
/// [`DiagnosticBuilder::emit`] would report.
#[must_use]
pub struct DiagnosticBuilder<'ctx, 'src> {
    title: String,
    level: Level,
    labels: Vec<Label>,
    footers: Vec<Label>,
    context: &'ctx DiagnosticsContext<'src>,
}

impl<'ctx, 'src> View for DiagnosticBuilder<'ctx, 'src> {
    type V = DiagnosticView;

    closed spec fn view(&self) -> DiagnosticView {
        DiagnosticView {
            title: self.title@,
            level: self.level,
            labels: self.labels.deep_view(),
            footers: self.footers.deep_view(),
            source: self.context.source(),
            origin: self.context.origin(),
        }
    }
}

impl<'ctx, 'src> DiagnosticBuilder<'ctx, 'src> {
    pub fn new(title: String, level: Level, context: &'ctx DiagnosticsContext<'src>) -> (builder:
        Self)
        ensures
            builder@ == context.bare(title@, level),
    {
        let builder = Self { title, level, labels: Vec::new(), footers: Vec::new(), context };
        assert(builder.labels.deep_view() =~= Seq::empty());
        assert(builder.footers.deep_view() =~= Seq::empty());
        builder
    }

    /// Attaches a primary label with a message.
    pub fn span_label(self, span: Range<usize>, message: &str) -> (builder: Self)
        ensures
            builder@ == self@.with_label(Some(message@), span),
    {
        let mut builder = self;
        let ghost before = builder.labels.deep_view();
        let label = Label { contents: Some(String::from_str(message)), level: builder.level, span };
        builder.labels.push(label);
        assert(builder.labels.deep_view() =~= before.push(label@));
        builder
    }

    /// Attaches a primary label without a message: the span is underlined
    /// and nothing is said of it.
    pub fn with_span(self, span: Range<usize>) -> (builder: Self)
        ensures
            builder@ == self@.with_label(None, span),
    {
        let mut builder = self;
        let ghost before = builder.labels.deep_view();
        let label = Label { contents: None, level: builder.level, span };
        builder.labels.push(label);
        assert(builder.labels.deep_view() =~= before.push(label@));
        builder
    }

    /// Appends a footer that suggests what to do.
    pub fn help(self, message: &str) -> (builder: Self)
        ensures
            builder@ == self@.with_footer(Level::Help, message@),
    {
        let mut builder = self;
        let ghost before = builder.footers.deep_view();
        let label = Label { contents: Some(String::from_str(message)), level: Level::Help, span: 0..0 };
        builder.footers.push(label);
        assert(builder.footers.deep_view() =~= before.push(label@));
        builder
    }

    /// Appends a footer that adds a remark.
    pub fn note(self, message: &str) -> (builder: Self)
        ensures
            builder@ == self@.with_footer(Level::Note, message@),
    {
        let mut builder = self;
        let ghost before = builder.footers.deep_view();
        let label = Label { contents: Some(String::from_str(message)), level: Level::Note, span: 0..0 };
        builder.footers.push(label);
        assert(builder.footers.deep_view() =~= before.push(label@));
        builder
    }

    /// Finishes the diagnostic and reports it: it becomes the last entry of
    /// `log`, and nothing else in `log` changes.
    pub fn emit(self, log: &mut Vec<Diagnostic>)
        ensures
            final(log).deep_view() == old(log).deep_view().push(self@),
    {
        let ghost before = log.deep_view();
        let diagnostic = Diagnostic {
            title: self.title,
            level: self.level,
            labels: self.labels,
            footers: self.footers,
            source: String::from_str(self.context.source_text()),
            origin: self.context.origin_label(),
        };
        log.push(diagnostic);
        assert(log.deep_view() =~= before.push(diagnostic@));
    }
}

} // verus!
