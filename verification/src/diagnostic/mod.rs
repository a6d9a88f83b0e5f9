//! Diagnostics: what the compiler reports about a program, and where.
mod emitter;
mod files;
mod span;
mod writer;

use vstd::prelude::*;

pub use emitter::Emitter;
pub use files::{File, Files};
pub use span::{join_spans, FileId, Span};
pub use writer::{label_location, LabelLocation};

verus! {

/// How bad a diagnostic is.
#[derive(Clone, Copy, Debug, PartialEq, Eq, Structural, PartialOrd, Ord, Hash)]
pub enum Severity {
    Error,
}

impl Severity {
    /// The word a report uses for this severity.
    pub fn to_string(&self) -> (r: String)
        ensures
            r@ == "error"@,
    {
        match self {
            Severity::Error => String::from_str("error"),
        }
    }
}

/// A message attached to a span.
#[derive(Clone, Debug)]
pub struct Label {
    message: String,
    span: Span,
}

/// What a label holds, as plain values.
pub struct LabelView {
    pub message: Seq<char>,
    pub span: Span,
}

impl View for Label {
    type V = LabelView;

    closed spec fn view(&self) -> LabelView {
        LabelView { message: self.message@, span: self.span }
    }
}

impl Label {
    pub fn message(&self) -> (r: &str)
        ensures
            r@ == self@.message,
    {
        self.message.as_str()
    }

    pub fn span(&self) -> (r: Span)
        ensures
            r == self@.span,
    {
        self.span
    }
}

/// A report about the program: a severity, a message and labelled spans.
#[derive(Clone, Debug)]
pub struct Diagnostic {
    severity: Severity,
    message: String,
    labels: Vec<Label>,
}

/// What a diagnostic holds, as plain values.
pub struct DiagnosticView {
    pub severity: Severity,
    pub message: Seq<char>,
    pub labels: Seq<LabelView>,
}

impl View for Diagnostic {
    type V = DiagnosticView;

    closed spec fn view(&self) -> DiagnosticView {
        DiagnosticView {
            severity: self.severity,
            message: self.message@,
            labels: self.labels@.map_values(|l: Label| l@),
        }
    }
}

impl Diagnostic {
    /// A diagnostic with no labels.
    pub fn new(severity: Severity, message: &str) -> (r: Self)
        ensures
            r@.severity == severity,
            r@.message == message@,
            r@.labels == Seq::<LabelView>::empty(),
    {
        let d = Diagnostic { severity, message: message.to_owned(), labels: Vec::new() };
        assert(d@.labels =~= Seq::<LabelView>::empty());
        d
    }

    /// An error with no labels.
    pub fn error(message: &str) -> (r: Self)
        ensures
            r@.severity == Severity::Error,
            r@.message == message@,
            r@.labels == Seq::<LabelView>::empty(),
    {
        Self::new(Severity::Error, message)
    }

    /// The same diagnostic with one more label, last.
    pub fn with_label(self, span: Span, message: &str) -> (r: Self)
        ensures
            r@.severity == self@.severity,
            r@.message == self@.message,
            r@.labels == self@.labels.push(LabelView { message: message@, span }),
    {
        let mut this = self;
        let ghost before = this.labels@;
        this.labels.push(Label { message: message.to_owned(), span });
        assert(this@.labels =~= self@.labels.push(LabelView { message: message@, span }));
        this
    }

    /// The same diagnostic with one more label, with an empty message.
    pub fn with_span(self, span: Span) -> (r: Self)
        ensures
            r@.severity == self@.severity,
            r@.message == self@.message,
            r@.labels == self@.labels.push(LabelView { message: Seq::empty(), span }),
    {
        proof {
            reveal_strlit("");
        }
        assert(""@ =~= Seq::<char>::empty());
        self.with_label(span, "")
    }

    pub fn severity(&self) -> (r: Severity)
        ensures
            r == self@.severity,
    {
        self.severity
    }

    pub fn message(&self) -> (r: &str)
        ensures
            r@ == self@.message,
    {
        self.message.as_str()
    }

    pub fn labels(&self) -> (r: &[Label])
        ensures
            r@.map_values(|l: Label| l@) == self@.labels,
    {
        self.labels.as_slice()
    }
}

} // verus!
