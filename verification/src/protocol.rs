//! The protocol-side (LSP) data model: zero-based positions, ranges,
//! locations addressed by URI, and diagnostics with severity, code,
//! related information and an optional suggested-replacement payload.

use vstd::prelude::*;

verus! {

/// A zero-based protocol position.
#[derive(Clone, Copy, Debug, PartialEq, Eq, Structural)]
pub struct Position {
    pub line: u32,
    pub character: u32,
}

/// A protocol range: start and end position.
#[derive(Clone, Copy, Debug, PartialEq, Eq, Structural)]
pub struct Range {
    pub start: Position,
    pub end: Position,
}

/// Protocol diagnostic severities.
#[derive(Clone, Copy, Debug, PartialEq, Eq, Structural)]
pub enum DiagnosticSeverity {
    Error,
    Warning,
    Information,
    Hint,
}

/// A protocol diagnostic code: numeric or textual.
#[derive(Debug, PartialEq, Eq)]
pub enum NumberOrString {
    Number(i32),
    String(String),
}

/// Abstract value of a [`NumberOrString`].
#[verifier::ext_equal]
pub ghost enum NumberOrStringView {
    Number(i32),
    String(Seq<char>),
}

impl View for NumberOrString {
    type V = NumberOrStringView;

    open spec fn view(&self) -> NumberOrStringView {
        match self {
            NumberOrString::Number(n) => NumberOrStringView::Number(*n),
            NumberOrString::String(s) => NumberOrStringView::String(s@),
        }
    }
}

impl DeepView for NumberOrString {
    type V = NumberOrStringView;

    open spec fn deep_view(&self) -> NumberOrStringView {
        self.view()
    }
}

impl Clone for NumberOrString {
    fn clone(&self) -> (r: Self)
        ensures
            r@ == self@,
    {
        match self {
            NumberOrString::Number(n) => NumberOrString::Number(*n),
            NumberOrString::String(s) => NumberOrString::String(s.clone()),
        }
    }
}

/// A protocol location: a URI and a range inside the addressed document.
#[derive(Debug, PartialEq, Eq)]
pub struct Location {
    pub uri: String,
    pub range: Range,
}

/// Abstract value of a [`Location`].
#[verifier::ext_equal]
pub ghost struct LocationView {
    pub uri: Seq<char>,
    pub range: Range,
}

impl View for Location {
    type V = LocationView;

    open spec fn view(&self) -> LocationView {
        LocationView { uri: self.uri@, range: self.range }
    }
}

impl DeepView for Location {
    type V = LocationView;

    open spec fn deep_view(&self) -> LocationView {
        self.view()
    }
}

/// A cross-reference to a sibling message of the same diagnostic.
#[derive(Debug, PartialEq, Eq)]
pub struct DiagnosticRelatedInformation {
    pub location: Location,
    pub message: String,
}

/// Abstract value of a [`DiagnosticRelatedInformation`].
#[verifier::ext_equal]
pub ghost struct RelatedInformationView {
    pub location: LocationView,
    pub message: Seq<char>,
}

impl View for DiagnosticRelatedInformation {
    type V = RelatedInformationView;

    open spec fn view(&self) -> RelatedInformationView {
        RelatedInformationView { location: self.location@, message: self.message@ }
    }
}

impl DeepView for DiagnosticRelatedInformation {
    type V = RelatedInformationView;

    open spec fn deep_view(&self) -> RelatedInformationView {
        self.view()
    }
}

/// The suggested-replacement payload attached to a protocol diagnostic.
/// The payload keeps two shapes: a single bare string when every suggested
/// replacement was empty, and a list of the non-empty ones otherwise.
#[derive(Debug, PartialEq, Eq)]
pub enum ReplacementData {
    Text(String),
    List(Vec<String>),
}

/// Abstract value of a [`ReplacementData`].
#[verifier::ext_equal]
pub ghost enum ReplacementDataView {
    Text(Seq<char>),
    List(Seq<Seq<char>>),
}

impl View for ReplacementData {
    type V = ReplacementDataView;

    open spec fn view(&self) -> ReplacementDataView {
        match self {
            ReplacementData::Text(s) => ReplacementDataView::Text(s@),
            ReplacementData::List(v) => ReplacementDataView::List(v.deep_view()),
        }
    }
}

impl DeepView for ReplacementData {
    type V = ReplacementDataView;

    open spec fn deep_view(&self) -> ReplacementDataView {
        self.view()
    }
}

/// A protocol diagnostic, produced fresh for one message of a compiler
/// diagnostic and never mutated afterwards.
#[derive(Debug, PartialEq, Eq)]
pub struct Diagnostic {
    pub range: Range,
    pub severity: Option<DiagnosticSeverity>,
    pub code: Option<NumberOrString>,
    pub message: String,
    pub related_information: Option<Vec<DiagnosticRelatedInformation>>,
    pub data: Option<ReplacementData>,
}

/// Abstract value of a [`Diagnostic`].
#[verifier::ext_equal]
pub ghost struct DiagnosticView {
    pub range: Range,
    pub severity: Option<DiagnosticSeverity>,
    pub code: Option<NumberOrStringView>,
    pub message: Seq<char>,
    pub related_information: Option<Seq<RelatedInformationView>>,
    pub data: Option<ReplacementDataView>,
}

impl View for Diagnostic {
    type V = DiagnosticView;

    open spec fn view(&self) -> DiagnosticView {
        DiagnosticView {
            range: self.range,
            severity: self.severity,
            code: self.code.deep_view(),
            message: self.message@,
            related_information: self.related_information.deep_view(),
            data: self.data.deep_view(),
        }
    }
}

impl DeepView for Diagnostic {
    type V = DiagnosticView;

    open spec fn deep_view(&self) -> DiagnosticView {
        self.view()
    }
}

} // verus!
