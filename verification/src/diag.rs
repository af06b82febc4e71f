//! The compiler-side diagnostic data model: one-based source coordinates,
//! messages with optional suggested replacements, and multi-message
//! diagnostics carrying a severity level and an optional identifier.

use vstd::prelude::*;

verus! {

/// Severity levels of a compiler diagnostic.
#[derive(Clone, Copy, Debug, PartialEq, Eq, Structural)]
pub enum Level {
    Error,
    Warning,
    Note,
    Suggestions,
}

/// Identifier of a diagnostic: the canonical name of an error kind or of a
/// warning kind, or the marker for a suggestion.
#[derive(Debug, PartialEq, Eq)]
pub enum DiagnosticId {
    Error(String),
    Warning(String),
    Suggestions,
}

/// Abstract value of a [`DiagnosticId`].
#[verifier::ext_equal]
pub ghost enum DiagnosticIdView {
    Error(Seq<char>),
    Warning(Seq<char>),
    Suggestions,
}

impl View for DiagnosticId {
    type V = DiagnosticIdView;

    open spec fn view(&self) -> DiagnosticIdView {
        match self {
            DiagnosticId::Error(name) => DiagnosticIdView::Error(name@),
            DiagnosticId::Warning(name) => DiagnosticIdView::Warning(name@),
            DiagnosticId::Suggestions => DiagnosticIdView::Suggestions,
        }
    }
}

impl DeepView for DiagnosticId {
    type V = DiagnosticIdView;

    open spec fn deep_view(&self) -> DiagnosticIdView {
        self.view()
    }
}

impl Clone for DiagnosticId {
    fn clone(&self) -> (r: Self)
        ensures
            r@ == self@,
    {
        match self {
            DiagnosticId::Error(name) => DiagnosticId::Error(name.clone()),
            DiagnosticId::Warning(name) => DiagnosticId::Warning(name.clone()),
            DiagnosticId::Suggestions => DiagnosticId::Suggestions,
        }
    }
}

/// A one-based source coordinate: a file, a line (one-based in well-formed
/// input), and an optional zero-based column.
#[derive(Debug, PartialEq, Eq)]
pub struct KclPos {
    pub filename: String,
    pub line: u64,
    pub column: Option<u64>,
}

/// Abstract value of a [`KclPos`].
#[verifier::ext_equal]
pub ghost struct KclPosView {
    pub filename: Seq<char>,
    pub line: u64,
    pub column: Option<u64>,
}

impl View for KclPos {
    type V = KclPosView;

    open spec fn view(&self) -> KclPosView {
        KclPosView { filename: self.filename@, line: self.line, column: self.column }
    }
}

impl DeepView for KclPos {
    type V = KclPosView;

    open spec fn deep_view(&self) -> KclPosView {
        self.view()
    }
}

impl Clone for KclPos {
    fn clone(&self) -> (r: Self)
        ensures
            r@ == self@,
    {
        KclPos { filename: self.filename.clone(), line: self.line, column: self.column }
    }
}

/// One message of a diagnostic: a span (start and end coordinate), the
/// message text, and an optional sequence of suggested replacement strings.
#[derive(Debug, PartialEq, Eq)]
pub struct Message {
    pub range: (KclPos, KclPos),
    pub message: String,
    pub suggested_replacement: Option<Vec<String>>,
}

/// Abstract value of a [`Message`].
#[verifier::ext_equal]
pub ghost struct MessageView {
    pub start: KclPosView,
    pub end: KclPosView,
    pub message: Seq<char>,
    pub suggested_replacement: Option<Seq<Seq<char>>>,
}

impl View for Message {
    type V = MessageView;

    open spec fn view(&self) -> MessageView {
        MessageView {
            start: self.range.0@,
            end: self.range.1@,
            message: self.message@,
            suggested_replacement: self.suggested_replacement.deep_view(),
        }
    }
}

impl DeepView for Message {
    type V = MessageView;

    open spec fn deep_view(&self) -> MessageView {
        self.view()
    }
}

impl Clone for Message {
    fn clone(&self) -> (r: Self)
        ensures
            r@ == self@,
    {
        let suggested_replacement = match &self.suggested_replacement {
            Some(v) => {
                let c: Vec<String> = v.clone();
                proof {
                    assert(c@ =~= v@);
                }
                Some(c)
            },
            None => None,
        };
        let r = Message {
            range: (self.range.0.clone(), self.range.1.clone()),
            message: self.message.clone(),
            suggested_replacement,
        };
        proof {
            assert(r.suggested_replacement.deep_view() =~~= self.suggested_replacement.deep_view());
        }
        r
    }
}

/// A compiler diagnostic: a severity level, an optional identifier, and an
/// ordered sequence of messages (non-empty in well-formed input).
#[derive(Debug, PartialEq, Eq)]
pub struct KclDiagnostic {
    pub level: Level,
    pub messages: Vec<Message>,
    pub code: Option<DiagnosticId>,
}

/// Abstract value of a [`KclDiagnostic`].
#[verifier::ext_equal]
pub ghost struct KclDiagnosticView {
    pub level: Level,
    pub messages: Seq<MessageView>,
    pub code: Option<DiagnosticIdView>,
}

impl View for KclDiagnostic {
    type V = KclDiagnosticView;

    open spec fn view(&self) -> KclDiagnosticView {
        KclDiagnosticView {
            level: self.level,
            messages: self.messages.deep_view(),
            code: self.code.deep_view(),
        }
    }
}

impl DeepView for KclDiagnostic {
    type V = KclDiagnosticView;

    open spec fn deep_view(&self) -> KclDiagnosticView {
        self.view()
    }
}

} // verus!
