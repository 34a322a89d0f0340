use typst_lua::diagnostics::{
    plan_reports, trace_message, Diagnostic, ReportKind, Severity, TraceKind, TracePoint, TraceStyle,
};
use typst_syntax::Span;

fn diagnostic(severity: Severity, message: &str, hints: Vec<&str>, trace: Vec<TraceKind>) -> Diagnostic {
    Diagnostic {
        severity,
        span: Span::detached(),
        message: message.to_string(),
        trace: trace
            .into_iter()
            .map(|kind| TracePoint { kind, span: Span::detached(), shown: "shown by typst".to_string() })
            .collect(),
        hints: hints.into_iter().map(|h| h.to_string()).collect(),
    }
}

#[test]
fn trace_messages_name_the_point() {
    assert_eq!(trace_message(&TraceKind::Call(Some("f".to_string()))), "in call to f");
    assert_eq!(trace_message(&TraceKind::Call(None)), "in call");
    assert_eq!(trace_message(&TraceKind::Show("heading".to_string())), "while showing heading");
    assert_eq!(trace_message(&TraceKind::Import), "during import");
}

#[test]
fn warnings_come_before_errors_each_with_its_trace() {
    let warnings = vec![diagnostic(Severity::Warning, "unused", vec!["remove it"], vec![])];
    let errors = vec![diagnostic(
        Severity::Error,
        "unknown variable",
        vec!["define it", "or import it"],
        vec![TraceKind::Call(Some("f".to_string())), TraceKind::Import],
    )];
    let reports = plan_reports(&warnings, &errors, TraceStyle::Library);
    assert_eq!(reports.len(), 4);
    assert_eq!(reports[0].kind, ReportKind::Warning);
    assert_eq!(reports[0].message, "unused");
    assert_eq!(reports[0].notes, vec!["hint: remove it".to_string()]);
    assert_eq!(reports[1].kind, ReportKind::Error);
    assert_eq!(reports[1].notes, vec!["hint: define it".to_string(), "hint: or import it".to_string()]);
    assert_eq!(reports[2].kind, ReportKind::Help);
    assert_eq!(reports[2].message, "in call to f");
    assert!(reports[2].notes.is_empty());
    assert_eq!(reports[3].message, "during import");
}

#[test]
fn typst_style_uses_typst_rendering() {
    let errors = vec![diagnostic(Severity::Error, "boom", vec![], vec![TraceKind::Import])];
    let reports = plan_reports(&vec![], &errors, TraceStyle::Typst);
    assert_eq!(reports.len(), 2);
    assert_eq!(reports[1].message, "shown by typst");
}

#[test]
fn no_diagnostics_no_reports() {
    assert!(plan_reports(&vec![], &vec![], TraceStyle::Library).is_empty());
}
