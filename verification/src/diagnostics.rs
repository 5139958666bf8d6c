//! The diagnostic record model: one issue reported by the linter, with its
//! severity level, optional rule code, message text, source spans, and child
//! notes. Records are built once from the external stream, never mutated, and
//! discarded after rendering.
use vstd::prelude::*;

verus! {

/// The rule code attached to a diagnostic, e.g. a lint name.
#[derive(Debug, Clone, PartialEq, Eq)]
pub struct Code {
    pub code: String,
}

/// One fragment of the literal source text covered by a span.
#[derive(Debug, Clone, PartialEq, Eq)]
pub struct Text {
    pub text: String,
}

/// A source span: where in the source a diagnostic points, together with the
/// literal text it covers (used for suppression matching).
#[derive(Debug, Clone, PartialEq, Eq)]
pub struct Span {
    pub file_name: String,
    pub line_start: u16,
    pub column_start: u16,
    pub line_end: u16,
    pub column_end: u16,
    pub text: Vec<Text>,
}

/// A child note of a diagnostic, with its own severity ("help", "note", ...)
/// and summary; used to surface actionable hints.
#[derive(Debug, Clone, PartialEq, Eq)]
pub struct Annotation {
    pub level: String,
    pub message: String,
}

/// One diagnostic reported by the linter.
#[derive(Debug, Clone, PartialEq, Eq)]
pub struct Message {
    pub code: Option<Code>,
    pub level: String,
    pub message: String,
    pub spans: Vec<Span>,
    pub children: Vec<Annotation>,
}

/// One record of the linter's interleaved output stream: a tag saying what
/// kind of record it is, and a diagnostic when the record carries one.
#[derive(Debug, Clone, PartialEq, Eq)]
pub struct Match {
    pub reason: String,
    pub message: Option<Message>,
}

/// The rule code's characters, when a code is present.
pub open spec fn code_chars(c: Option<Code>) -> Option<Seq<char>> {
    match c {
        Some(c) => Some(c.code@),
        None => None,
    }
}

/// The mathematical content of a source span.
pub struct SpanView {
    pub file_name: Seq<char>,
    pub line_start: u16,
    pub column_start: u16,
    pub line_end: u16,
    pub column_end: u16,
    pub text: Seq<Seq<char>>,
}

/// The mathematical content of a child note.
pub struct AnnotationView {
    pub level: Seq<char>,
    pub message: Seq<char>,
}

/// The mathematical content of a diagnostic.
pub struct MessageView {
    pub code: Option<Seq<char>>,
    pub level: Seq<char>,
    pub message: Seq<char>,
    pub spans: Seq<SpanView>,
    pub children: Seq<AnnotationView>,
}

/// The mathematical content of a stream record.
pub struct MatchView {
    pub reason: Seq<char>,
    pub message: Option<MessageView>,
}

impl View for Span {
    type V = SpanView;

    open spec fn view(&self) -> SpanView {
        SpanView {
            file_name: self.file_name@,
            line_start: self.line_start,
            column_start: self.column_start,
            line_end: self.line_end,
            column_end: self.column_end,
            text: self.text@.map_values(|t: Text| t.text@),
        }
    }
}

impl View for Annotation {
    type V = AnnotationView;

    open spec fn view(&self) -> AnnotationView {
        AnnotationView { level: self.level@, message: self.message@ }
    }
}

impl View for Message {
    type V = MessageView;

    open spec fn view(&self) -> MessageView {
        MessageView {
            code: code_chars(self.code),
            level: self.level@,
            message: self.message@,
            spans: self.spans@.map_values(|s: Span| s@),
            children: self.children@.map_values(|a: Annotation| a@),
        }
    }
}

impl View for Match {
    type V = MatchView;

    open spec fn view(&self) -> MatchView {
        MatchView {
            reason: self.reason@,
            message: match self.message {
                Some(m) => Some(m@),
                None => None,
            },
        }
    }
}

} // verus!
