use ftl::diag::{diagnostics_report, Diag, DiagKind};

#[test]
fn warning_constructor() {
    let d = Diag::warning("f.ftl", "en", "ctx", "msg");
    assert_eq!(d.kind, DiagKind::Warning);
    assert_eq!(d.file, "f.ftl");
    assert_eq!(d.locale, "en");
    assert_eq!(d.context, "ctx");
    assert_eq!(d.message, "msg");
}

#[test]
fn display_error_full() {
    let d = Diag::error("f.ftl", "en", "ctx", "bad");
    let s = d.display();
    assert!(s.contains("f.ftl:"));
    assert!(s.contains("[en]"));
    assert!(s.contains("error"));
    assert!(s.contains("bad"));
    assert!(s.contains("ctx"));
}

#[test]
fn display_warning_minimal() {
    let d = Diag::warning("", "", "", "warn");
    let s = d.display();
    assert!(!s.contains("["), "should not contain locale");
    assert!(s.starts_with(" warning"));
    assert!(s.contains("warn"));
}

#[test]
fn display_without_file() {
    let d = Diag::error("", "en", "", "msg");
    assert_eq!(d.display(), " [en] error: msg");
}

#[test]
fn display_error_exact() {
    let d = Diag::error("f.ftl", "en", "ctx", "bad");
    assert_eq!(d.display(), "f.ftl: [en] error: bad (context: ctx)");
}

#[test]
fn report_warnings_only_does_not_panic() {
    let diags = vec![Diag::warning("", "", "", "w1"), Diag::warning("", "", "", "w2")];
    let r = diagnostics_report(&diags);
    assert_eq!(r.errors, 0);
    assert_eq!(r.warnings, 2);
    assert!(r.abort.is_none());
    assert_eq!(r.lines.len(), 2);
}

#[test]
fn report_mixed_aborts_with_summary() {
    let diags = vec![
        Diag::warning("", "", "", "w1"),
        Diag::warning("", "", "", "w2"),
        Diag::error("f.ftl", "en", "", "e1"),
    ];
    let r = diagnostics_report(&diags);
    assert_eq!(r.errors, 1);
    assert_eq!(r.warnings, 2);
    let m = r.abort.unwrap();
    assert!(m.contains("1 error(s), 2 warning"), "got {m}");
    assert!(m.ends_with("f.ftl: [en] error: e1"), "got {m}");
}
