//! Turning a finished diagnostic into text.
//!
//! The layout (line folding, underlines, colours, severity words) is the work
//! of the `annotate_snippets` crate. This module decides what is handed to
//! it, and on which diagnostics it can be asked at all.

use annotate_snippets::display_list::{DisplayList, FormatOptions};
use annotate_snippets::snippet::{Annotation, AnnotationType, Slice, Snippet, SourceAnnotation};
use vstd::prelude::*;
use vstd::string::StrSliceExecFns;

use crate::errors::builder::{Diagnostic, DiagnosticView, Label, LabelView};
use crate::errors::Level;

verus! {

/// The kinds of annotation that the renderer tells apart.
#[derive(Clone, Copy, Debug, PartialEq, Eq, Structural)]
pub enum AnnotationKind {
    Error,
    Warning,
    Info,
    Note,
    Help,
}

/// The renderer's own annotation kind. Nothing is known of a value of it
/// here; it is only handed on.
#[verifier::external_type_specification]
#[verifier::external_body]
pub struct ExAnnotationType(AnnotationType);

/// A label as the renderer takes it: a text, which is empty where the label
/// has none, the range it covers, and its kind.
#[derive(Debug, PartialEq, Eq)]
pub struct Mark {
    pub text: String,
    pub start: usize,
    pub end: usize,
    pub kind: AnnotationKind,
}

pub struct MarkView {
    pub text: Seq<char>,
    pub start: usize,
    pub end: usize,
    pub kind: AnnotationKind,
}

impl View for Mark {
    type V = MarkView;

    open spec fn view(&self) -> MarkView {
        MarkView { text: self.text@, start: self.start, end: self.end, kind: self.kind }
    }
}

impl DeepView for Mark {
    type V = MarkView;

    open spec fn deep_view(&self) -> MarkView {
        self@
    }
}

impl Level {
    /// The kind under which a severity is rendered. An internal error is
    /// shown as an error.
    pub open spec fn kind(self) -> AnnotationKind {
        match self {
            Level::ICE | Level::Error => AnnotationKind::Error,
            Level::Warning => AnnotationKind::Warning,
            Level::Help => AnnotationKind::Help,
            Level::Info => AnnotationKind::Info,
            Level::Note => AnnotationKind::Note,
        }
    }

    pub fn annotation_kind(self) -> (kind: AnnotationKind)
        ensures
            kind == self.kind(),
    {
        match self {
            Level::ICE | Level::Error => AnnotationKind::Error,
            Level::Warning => AnnotationKind::Warning,
            Level::Help => AnnotationKind::Help,
            Level::Info => AnnotationKind::Info,
            Level::Note => AnnotationKind::Note,
        }
    }
}

impl LabelView {
    /// The label as the renderer takes it.
    pub open spec fn mark(self) -> MarkView {
        MarkView {
            text: match self.contents {
                Some(text) => text,
                None => Seq::empty(),
            },
            start: self.span.start,
            end: self.span.end,
            kind: self.level.kind(),
        }
    }

    /// The label lies inside a text of `len` characters and does not end
    /// before it starts.
    pub open spec fn inside(self, len: nat) -> bool {
        self.span.start <= self.span.end <= len
    }
}

impl Label {
    pub fn mark(&self) -> (mark: Mark)
        ensures
            mark@ == self@.mark(),
    {
        let text = match &self.contents {
            Some(text) => text.clone(),
            None => String::new(),
        };
        Mark { text, start: self.span.start, end: self.span.end, kind: self.level.annotation_kind() }
    }
}

/// The labels as the renderer takes them, in the same order.
pub open spec fn marks_of(labels: Seq<LabelView>) -> Seq<MarkView> {
    Seq::new(labels.len(), |i: int| labels[i].mark())
}

pub fn to_marks(labels: &Vec<Label>) -> (marks: Vec<Mark>)
    ensures
        marks.deep_view() == marks_of(labels.deep_view()),
        marks.len() == labels.len(),
        forall|j: int| 0 <= j < labels.len() ==> (#[trigger] marks[j])@ == labels[j]@.mark(),
{
    let mut marks: Vec<Mark> = Vec::new();
    let mut i: usize = 0;
    while i < labels.len()
        invariant
            i <= labels.len(),
            marks.len() == i,
            forall|j: int| 0 <= j < i ==> (#[trigger] marks[j])@ == labels[j]@.mark(),
        decreases labels.len() - i,
    {
        marks.push(labels[i].mark());
        i += 1;
    }
    assert(marks.deep_view() =~= marks_of(labels.deep_view()));
    marks
}

/// The text that `annotate_snippets` lays out for a snippet with one slice:
/// what `DisplayList::from` followed by `to_string` returns for it.
pub uninterp spec fn rendered_snippet(
    title: Seq<char>,
    kind: AnnotationKind,
    marks: Seq<MarkView>,
    remarks: Seq<MarkView>,
    source: Seq<char>,
    origin: Option<Seq<char>>,
    line_start: usize,
    fold: bool,
    color: bool,
) -> Seq<char>;

/// `AnnotationType` of `annotate_snippets`: the variant of the same name.
#[verifier::external_body]
fn outside_kind(kind: AnnotationKind) -> AnnotationType {
    match kind {
        AnnotationKind::Error => AnnotationType::Error,
        AnnotationKind::Warning => AnnotationType::Warning,
        AnnotationKind::Info => AnnotationType::Info,
        AnnotationKind::Note => AnnotationType::Note,
        AnnotationKind::Help => AnnotationType::Help,
    }
}

/// `DisplayList::from` and `to_string` of `annotate_snippets`, on a
/// `Snippet` with the given title, one `Slice` that holds `source` with
/// `marks` as its annotations, and `remarks` as its footer.
///
/// The result is named, not described. The layout panics on an annotation
/// that ends behind the last character of the source, subtracts the start
/// of a range from its end, and counts lines upward from `line_start`:
/// those inputs are left out.
#[verifier::external_body]
fn render_snippet(
    title: &str,
    kind: AnnotationKind,
    marks: &Vec<Mark>,
    remarks: &Vec<Mark>,
    source: &str,
    origin: Option<&str>,
    line_start: usize,
    fold: bool,
    color: bool,
) -> (text: String)
    requires
        forall|i: int| 0 <= i < marks.len() ==> (#[trigger] marks[i]).start <= marks[i].end <= source@.len(),
        line_start + source@.len() <= usize::MAX,
    ensures
        text@ == rendered_snippet(
            title@,
            kind,
            marks.deep_view(),
            remarks.deep_view(),
            source@,
            match origin {
                Some(name) => Some(name@),
                None => None,
            },
            line_start,
            fold,
            color,
        ),
{
    let annotations = marks.iter().map(|m| SourceAnnotation {
        label: m.text.as_str(),
        range: (m.start, m.end),
        annotation_type: outside_kind(m.kind),
    }).collect();
    let footer = remarks.iter().map(|m| Annotation {
        label: Some(m.text.as_str()),
        id: None,
        annotation_type: outside_kind(m.kind),
    }).collect();
    let title = Some(Annotation { label: Some(title), id: None, annotation_type: outside_kind(kind) });
    let slices = vec![Slice { source, line_start, origin, fold, annotations }];
    let opt = FormatOptions { color, ..Default::default() };
    DisplayList::from(Snippet { title, footer, slices, opt }).to_string()
}

impl DiagnosticView {
    /// Whether the diagnostic can be laid out: every primary label lies
    /// inside the source, and the source is short enough for its lines to be
    /// numbered.
    pub open spec fn renderable(self) -> bool {
        &&& forall|i: int| 0 <= i < self.labels.len() ==> (#[trigger] self.labels[i]).inside(self.source.len())
        &&& self.source.len() < usize::MAX
    }

    /// The text of the diagnostic: the title, the source folded around the
    /// primary labels and numbered from line 1, then the footers, in colour.
    pub open spec fn rendered(self) -> Seq<char> {
        rendered_snippet(
            self.title,
            self.level.kind(),
            marks_of(self.labels),
            marks_of(self.footers),
            self.source,
            self.origin,
            1,
            true,
            true,
        )
    }
}

impl Diagnostic {
    /// Says whether [`Diagnostic::render`] has a text for this diagnostic.
    pub fn can_render(&self) -> (yes: bool)
        ensures
            yes == self@.renderable(),
    {
        let len = self.source.as_str().unicode_len();
        if len == usize::MAX {
            return false;
        }
        let mut i: usize = 0;
        while i < self.labels.len()
            invariant
                i <= self.labels.len(),
                len == self.source@.len(),
                forall|j: int| 0 <= j < i ==> (#[trigger] self.labels.deep_view()[j]).inside(len as nat),
            decreases self.labels.len() - i,
        {
            let label = &self.labels[i];
            if !(label.span.start <= label.span.end && label.span.end <= len) {
                assert(self@.labels[i as int] == label@);
                assert(!self@.labels[i as int].inside(self@.source.len()));
                return false;
            }
            assert(self.labels.deep_view()[i as int] == label@);
            i += 1;
        }
        true
    }

    /// The text of this diagnostic, where it has one.
    pub fn render(&self) -> (text: Option<String>)
        ensures
            match text {
                Some(t) => self@.renderable() && t@ == self@.rendered(),
                None => !self@.renderable(),
            },
    {
        if !self.can_render() {
            return None;
        }
        let marks = to_marks(&self.labels);
        let remarks = to_marks(&self.footers);
        let origin = match &self.origin {
            Some(name) => Some(name.as_str()),
            None => None,
        };
        assert forall|i: int| 0 <= i < marks.len() implies (#[trigger] marks[i]).start <= marks[i].end
            <= self.source@.len() by {
            assert(self@.labels[i] == self.labels[i]@);
            assert(self@.labels[i].inside(self@.source.len()));
        }
        Some(
            render_snippet(
                self.title.as_str(),
                self.level.annotation_kind(),
                &marks,
                &remarks,
                self.source.as_str(),
                origin,
                1,
                true,
                true,
            ),
        )
    }
}

} // verus!
