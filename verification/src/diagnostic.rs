//! Diagnostics as the editor keeps them, and as the protocol carries them.

use crate::json::clone_value;
use crate::lsp;
use crate::rope::rope_text;
use crate::selection;
use crate::util::{char_to_position, position_fits, range_to_lsp_range};
use crate::OffsetEncoding;
use ropey::Rope;
use vstd::prelude::*;

verus! {

/// How grave a diagnostic is.
#[derive(Clone, Copy, Debug, PartialEq, Eq, Structural, Hash)]
pub enum Severity {
    Hint,
    Info,
    Warning,
    Error,
}

/// The code of a diagnostic: a number or a name.
#[derive(Clone, Debug, PartialEq, Eq, Hash)]
pub enum NumberOrString {
    Number(i32),
    String(String),
}

/// What else is known of the code that a diagnostic is about.
#[derive(Clone, Copy, Debug, PartialEq, Eq, Structural, Hash)]
pub enum DiagnosticTag {
    Unnecessary,
    Deprecated,
}

/// The chars that a diagnostic is about.
#[derive(Clone, Copy, Debug, PartialEq, Eq, Structural, Hash)]
pub struct Range {
    pub start: usize,
    pub end: usize,
}

/// A diagnostic as the editor keeps it.
#[derive(Clone, Debug, PartialEq)]
pub struct Diagnostic {
    pub range: Range,
    pub line: usize,
    pub message: String,
    pub severity: Option<Severity>,
    pub code: Option<NumberOrString>,
    pub tags: Vec<DiagnosticTag>,
    pub source: Option<String>,
    pub data: Option<serde_json::Value>,
}

/// The severity of the protocol that stands for one of the editor.
pub open spec fn lsp_severity(severity: Severity) -> lsp::DiagnosticSeverity {
    match severity {
        Severity::Hint => lsp::DiagnosticSeverity::Hint,
        Severity::Info => lsp::DiagnosticSeverity::Information,
        Severity::Warning => lsp::DiagnosticSeverity::Warning,
        Severity::Error => lsp::DiagnosticSeverity::Error,
    }
}

/// The code of the protocol that stands for one of the editor.
pub open spec fn lsp_code(code: NumberOrString) -> lsp::NumberOrString {
    match code {
        NumberOrString::Number(n) => lsp::NumberOrString::Number(n),
        NumberOrString::String(s) => lsp::NumberOrString::String(s),
    }
}

/// The tag of the protocol that stands for one of the editor.
pub open spec fn lsp_tag(tag: DiagnosticTag) -> lsp::DiagnosticTag {
    match tag {
        DiagnosticTag::Unnecessary => lsp::DiagnosticTag::Unnecessary,
        DiagnosticTag::Deprecated => lsp::DiagnosticTag::Deprecated,
    }
}

/// The tags of the protocol that stand for those of the editor, in their
/// order.
pub open spec fn lsp_tags(tags: Seq<DiagnosticTag>) -> Seq<lsp::DiagnosticTag> {
    Seq::new(tags.len(), |i: int| lsp_tag(tags[i]))
}

/// Whether `out` is `diag` as the protocol carries it: the range from its
/// smaller to its larger end as positions, severity, code and tags
/// carried over one for one, no tags at all where there are none, and
/// source, message and data as they are.
pub open spec fn is_lsp_diagnostic(
    out: lsp::Diagnostic,
    text: Seq<char>,
    diag: Diagnostic,
    enc: OffsetEncoding,
) -> bool {
    let range = selection::Range { anchor: diag.range.start, head: diag.range.end };
    &&& out.range.start == char_to_position(text, range.from() as nat, enc)
    &&& out.range.end == char_to_position(text, range.to() as nat, enc)
    &&& out.severity == match diag.severity {
        Some(s) => Some(lsp_severity(s)),
        None => None,
    }
    &&& out.code == match diag.code {
        Some(c) => Some(lsp_code(c)),
        None => None,
    }
    &&& out.source == diag.source
    &&& out.message == diag.message
    &&& if diag.tags@.len() == 0 {
        out.tags is None
    } else {
        out.tags matches Some(tags) && tags@ == lsp_tags(diag.tags@)
    }
    &&& out.data == diag.data
}

fn convert_severity(severity: Severity) -> (r: lsp::DiagnosticSeverity)
    ensures
        r == lsp_severity(severity),
{
    match severity {
        Severity::Hint => lsp::DiagnosticSeverity::Hint,
        Severity::Info => lsp::DiagnosticSeverity::Information,
        Severity::Warning => lsp::DiagnosticSeverity::Warning,
        Severity::Error => lsp::DiagnosticSeverity::Error,
    }
}

fn convert_tags(tags: &Vec<DiagnosticTag>) -> (r: Vec<lsp::DiagnosticTag>)
    ensures
        r@ == lsp_tags(tags@),
{
    let mut out: Vec<lsp::DiagnosticTag> = Vec::new();
    let mut i: usize = 0;
    while i < tags.len()
        invariant
            i <= tags.len(),
            out@ == lsp_tags(tags@.take(i as int)),
        decreases tags.len() - i,
    {
        let tag = match tags[i] {
            DiagnosticTag::Unnecessary => lsp::DiagnosticTag::Unnecessary,
            DiagnosticTag::Deprecated => lsp::DiagnosticTag::Deprecated,
        };
        out.push(tag);
        assert(out@ =~= lsp_tags(tags@.take(i + 1)));
        i += 1;
    }
    assert(tags@.take(i as int) =~= tags@);
    out
}

/// Converts a diagnostic of the editor to one of the protocol.
///
/// Both ends of its range have to be chars of the document whose line and
/// column fit a position.
pub fn diagnostic_to_lsp_diagnostic(
    doc: &Rope,
    diag: &Diagnostic,
    offset_encoding: OffsetEncoding,
) -> (r: lsp::Diagnostic)
    requires
        position_fits(rope_text(*doc), diag.range.start as nat, offset_encoding),
        position_fits(rope_text(*doc), diag.range.end as nat, offset_encoding),
    ensures
        is_lsp_diagnostic(r, rope_text(*doc), *diag, offset_encoding),
{
    let range = selection::Range::new(diag.range.start, diag.range.end);
    let severity = match diag.severity {
        Some(s) => Some(convert_severity(s)),
        None => None,
    };
    let code = match &diag.code {
        Some(NumberOrString::Number(n)) => Some(lsp::NumberOrString::Number(*n)),
        Some(NumberOrString::String(s)) => Some(lsp::NumberOrString::String(s.clone())),
        None => None,
    };
    let new_tags = convert_tags(&diag.tags);
    let tags = if new_tags.len() > 0 {
        Some(new_tags)
    } else {
        None
    };
    let source = match &diag.source {
        Some(s) => Some(s.clone()),
        None => None,
    };
    let data = match &diag.data {
        Some(value) => Some(clone_value(value)),
        None => None,
    };
    lsp::Diagnostic {
        range: range_to_lsp_range(doc, range, offset_encoding),
        severity,
        code,
        source,
        message: diag.message.clone(),
        tags,
        data,
    }
}

} // verus!
