//! The protocol's own data, as far as this library reads and writes it.

use crate::table::Key;
use vstd::prelude::*;

verus! {

/// A place in a document as the protocol names it: a zero-based line and
/// an offset into that line, counted in code units of the encoding that
/// client and server agreed on.
#[derive(Clone, Copy, Debug, PartialEq, Eq, Structural, PartialOrd, Ord, Hash)]
pub struct Position {
    pub line: u32,
    pub character: u32,
}

impl Position {
    pub fn new(line: u32, character: u32) -> (r: Position)
        ensures
            r.line == line,
            r.character == character,
    {
        Position { line, character }
    }

    /// Whether `self` comes before `other` in the document: on an earlier
    /// line, or on the same line at a smaller offset.
    pub open spec fn precedes(self, other: Position) -> bool {
        self.line < other.line || (self.line == other.line && self.character < other.character)
    }

    pub fn is_before(&self, other: &Position) -> (b: bool)
        ensures
            b == self.precedes(*other),
    {
        self.line < other.line || (self.line == other.line && self.character < other.character)
    }
}

/// A stretch of a document between two positions, the second excluded.
#[derive(Clone, Copy, Debug, PartialEq, Eq, Structural, PartialOrd, Ord, Hash)]
pub struct Range {
    pub start: Position,
    pub end: Position,
}

impl Range {
    pub fn new(start: Position, end: Position) -> (r: Range)
        ensures
            r.start == start,
            r.end == end,
    {
        Range { start, end }
    }
}

/// A change that a server asks for: the text in `range` is to make way
/// for `new_text`.
#[derive(Clone, Debug, PartialEq, Eq)]
pub struct TextEdit {
    pub range: Range,
    pub new_text: String,
}

impl TextEdit {
    pub fn new(range: Range, new_text: String) -> (e: TextEdit)
        ensures
            e.range == range,
            e.new_text == new_text,
    {
        TextEdit { range, new_text }
    }
}

/// How grave a diagnostic is.
#[derive(Clone, Copy, Debug, PartialEq, Eq, Structural, Hash)]
pub enum DiagnosticSeverity {
    Error,
    Warning,
    Information,
    Hint,
}

impl DiagnosticSeverity {
    /// The number that stands for the severity on the wire.
    pub open spec fn spec_code(&self) -> i32 {
        match self {
            DiagnosticSeverity::Error => 1,
            DiagnosticSeverity::Warning => 2,
            DiagnosticSeverity::Information => 3,
            DiagnosticSeverity::Hint => 4,
        }
    }

    #[verifier::when_used_as_spec(spec_code)]
    pub fn code(&self) -> (c: i32)
        ensures
            c == self.spec_code(),
    {
        match self {
            DiagnosticSeverity::Error => 1,
            DiagnosticSeverity::Warning => 2,
            DiagnosticSeverity::Information => 3,
            DiagnosticSeverity::Hint => 4,
        }
    }
}

/// What else is known of the code that a diagnostic is about.
#[derive(Clone, Copy, Debug, PartialEq, Eq, Structural, Hash)]
pub enum DiagnosticTag {
    /// Code that is not used or not needed.
    Unnecessary,
    /// Code that is out of date.
    Deprecated,
}

impl DiagnosticTag {
    /// The number that stands for the tag on the wire.
    pub open spec fn spec_code(&self) -> i32 {
        match self {
            DiagnosticTag::Unnecessary => 1,
            DiagnosticTag::Deprecated => 2,
        }
    }

    #[verifier::when_used_as_spec(spec_code)]
    pub fn code(&self) -> (c: i32)
        ensures
            c == self.spec_code(),
    {
        match self {
            DiagnosticTag::Unnecessary => 1,
            DiagnosticTag::Deprecated => 2,
        }
    }
}

/// A number or a string, where the protocol takes either.
#[derive(Clone, Debug, PartialEq, Eq, Hash)]
pub enum NumberOrString {
    Number(i32),
    String(String),
}

/// What a number or string is, apart from how it is stored.
pub enum NumberOrText {
    Number(i32),
    Text(Seq<char>),
}

impl Key for NumberOrString {
    type Id = NumberOrText;

    open spec fn id(&self) -> NumberOrText {
        match self {
            NumberOrString::Number(n) => NumberOrText::Number(*n),
            NumberOrString::String(s) => NumberOrText::Text(s@),
        }
    }

    fn same(&self, other: &NumberOrString) -> (b: bool) {
        match (self, other) {
            (NumberOrString::Number(a), NumberOrString::Number(b)) => *a == *b,
            (NumberOrString::String(a), NumberOrString::String(b)) => *a == *b,
            _ => false,
        }
    }
}

/// The token by which a server names a piece of work in progress.
pub type ProgressToken = NumberOrString;

/// A diagnostic as the protocol carries it.
#[derive(Clone, Debug, PartialEq)]
pub struct Diagnostic {
    pub range: Range,
    pub severity: Option<DiagnosticSeverity>,
    pub code: Option<NumberOrString>,
    pub source: Option<String>,
    pub message: String,
    pub tags: Option<Vec<DiagnosticTag>>,
    pub data: Option<serde_json::Value>,
}

} // verus!
