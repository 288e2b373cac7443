use helix_lsp::diagnostic::{Diagnostic, DiagnosticTag, NumberOrString, Range, Severity};
use helix_lsp::lsp;
use helix_lsp::lsp::Position;
use helix_lsp::util::diagnostic_to_lsp_diagnostic;
use helix_lsp::OffsetEncoding;
use ropey::Rope;

fn diagnostic() -> Diagnostic {
    Diagnostic {
        range: Range { start: 4, end: 6 },
        line: 1,
        message: "unused variable".to_string(),
        severity: Some(Severity::Warning),
        code: Some(NumberOrString::String("unused".to_string())),
        tags: vec![DiagnosticTag::Unnecessary, DiagnosticTag::Deprecated],
        source: Some("rustc".to_string()),
        data: Some(serde_json::Value::from(7)),
    }
}

#[test]
fn diagnostic_is_carried_over_field_by_field() {
    let doc = Rope::from("ab\n\u{1f384}cd\n");
    let out = diagnostic_to_lsp_diagnostic(&doc, &diagnostic(), OffsetEncoding::Utf16);
    assert_eq!(
        out,
        lsp::Diagnostic {
            range: lsp::Range::new(Position::new(1, 2), Position::new(1, 4)),
            severity: Some(lsp::DiagnosticSeverity::Warning),
            code: Some(lsp::NumberOrString::String("unused".to_string())),
            source: Some("rustc".to_string()),
            message: "unused variable".to_string(),
            tags: Some(vec![
                lsp::DiagnosticTag::Unnecessary,
                lsp::DiagnosticTag::Deprecated
            ]),
            data: Some(serde_json::Value::from(7)),
        }
    );
}

#[test]
fn diagnostic_without_particulars() {
    let doc = Rope::from("abcdef");
    let diag = Diagnostic {
        range: Range { start: 5, end: 2 },
        line: 0,
        message: String::new(),
        severity: None,
        code: Some(NumberOrString::Number(-3)),
        tags: Vec::new(),
        source: None,
        data: None,
    };
    let out = diagnostic_to_lsp_diagnostic(&doc, &diag, OffsetEncoding::Utf8);
    assert_eq!(out.range, lsp::Range::new(Position::new(0, 2), Position::new(0, 5)));
    assert_eq!(out.severity, None);
    assert_eq!(out.code, Some(lsp::NumberOrString::Number(-3)));
    assert_eq!(out.tags, None);
    assert_eq!(out.source, None);
    assert_eq!(out.data, None);
}

#[test]
fn every_severity_has_its_counterpart() {
    let doc = Rope::from("x");
    let pairs = [
        (Severity::Hint, lsp::DiagnosticSeverity::Hint, 4),
        (Severity::Info, lsp::DiagnosticSeverity::Information, 3),
        (Severity::Warning, lsp::DiagnosticSeverity::Warning, 2),
        (Severity::Error, lsp::DiagnosticSeverity::Error, 1),
    ];
    for (severity, want, code) in pairs {
        let mut diag = diagnostic();
        diag.range = Range { start: 0, end: 1 };
        diag.severity = Some(severity);
        let out = diagnostic_to_lsp_diagnostic(&doc, &diag, OffsetEncoding::Utf8);
        assert_eq!(out.severity, Some(want));
        assert_eq!(want.code(), code);
    }
    assert_eq!(lsp::DiagnosticTag::Unnecessary.code(), 1);
    assert_eq!(lsp::DiagnosticTag::Deprecated.code(), 2);
}

#[test]
fn wire_codes_are_those_of_the_protocol() {
    let hint = serde_json::to_value(lsp_types::DiagnosticSeverity::HINT).unwrap();
    assert_eq!(hint, serde_json::Value::from(lsp::DiagnosticSeverity::Hint.code()));
    let error = serde_json::to_value(lsp_types::DiagnosticSeverity::ERROR).unwrap();
    assert_eq!(error, serde_json::Value::from(lsp::DiagnosticSeverity::Error.code()));
    let deprecated = serde_json::to_value(lsp_types::DiagnosticTag::DEPRECATED).unwrap();
    assert_eq!(deprecated, serde_json::Value::from(lsp::DiagnosticTag::Deprecated.code()));
}
