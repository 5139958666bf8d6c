use inspector::diagnostics::{Annotation, Code, Message, Span, Text};
use inspector::render::{diagnostic_report, render_message, RenderedDiagnostic, SeverityClass};
use inspector::suppression::{ignored, SuppressionRule};
use inspector::ordering::sort_messages;

fn span(file: &str, line: u16, column: u16, text: &[&str]) -> Span {
    Span {
        file_name: file.to_string(),
        line_start: line,
        column_start: column,
        line_end: line,
        column_end: column + 1,
        text: text.iter().map(|t| Text { text: t.to_string() }).collect(),
    }
}

fn message(code: Option<&str>, level: &str, text: &str, spans: Vec<Span>) -> Message {
    Message {
        code: code.map(|c| Code { code: c.to_string() }),
        level: level.to_string(),
        message: text.to_string(),
        spans,
        children: Vec::new(),
    }
}

fn unscoped(marker: &str) -> SuppressionRule {
    SuppressionRule { marker: marker.to_string(), codes: None }
}

fn scoped(marker: &str, codes: &[&str]) -> SuppressionRule {
    SuppressionRule {
        marker: marker.to_string(),
        codes: Some(codes.iter().map(|c| c.to_string()).collect()),
    }
}

#[test]
fn suppressed_by_unscoped_marker() {
    let m = message(
        Some("clippy::too_many_lines"),
        "warning",
        "this function is too long",
        vec![span("src/lib.rs", 3, 1, &["construct_runtime!(Runtime);"])],
    );
    let rules = vec![unscoped("construct_runtime!")];
    assert!(ignored(&m, &rules));
}

#[test]
fn not_suppressed_without_marker() {
    let m = message(
        Some("clippy::too_many_lines"),
        "warning",
        "this function is too long",
        vec![span("src/lib.rs", 3, 1, &["fn ordinary() {}"])],
    );
    let rules = vec![unscoped("construct_runtime!"), unscoped("#[pallet::storage]")];
    assert!(!ignored(&m, &rules));
}

#[test]
fn scoped_rule_needs_matching_code() {
    let rules = vec![scoped("#[pallet::call]", &["clippy::too_many_lines"])];
    let hit = message(
        Some("clippy::too_many_lines"),
        "warning",
        "too long",
        vec![span("src/lib.rs", 1, 1, &["#[pallet::call] fn f() {}"])],
    );
    let miss = message(
        Some("clippy::unwrap_used"),
        "warning",
        "unwrap",
        vec![span("src/lib.rs", 1, 1, &["#[pallet::call] fn f() {}"])],
    );
    assert!(ignored(&hit, &rules));
    assert!(!ignored(&miss, &rules));
}

#[test]
fn suppression_ignores_location_order() {
    let a = span("a.rs", 1, 1, &["plain text"]);
    let b = span("b.rs", 2, 2, &["#[pallet::event]"]);
    let fwd = message(Some("clippy::x"), "warning", "m", vec![a.clone(), b.clone()]);
    let rev = message(Some("clippy::x"), "warning", "m", vec![b, a]);
    let rules = vec![unscoped("#[pallet::event]")];
    assert_eq!(ignored(&fwd, &rules), ignored(&rev, &rules));
    assert!(ignored(&fwd, &rules));
}

#[test]
fn empty_locations_never_suppressed() {
    let m = message(Some("clippy::x"), "warning", "m", Vec::new());
    let rules = vec![unscoped(""), unscoped("anything")];
    assert!(!ignored(&m, &rules));
}

#[test]
fn sort_orders_by_file_line_column() {
    let m1 = message(Some("a"), "warning", "1", vec![span("b.rs", 1, 1, &[])]);
    let m2 = message(Some("b"), "warning", "2", vec![span("a.rs", 9, 9, &[])]);
    let m3 = message(Some("c"), "warning", "3", vec![span("a.rs", 9, 2, &[])]);
    let m4 = message(Some("d"), "warning", "4", vec![span("a.rs", 2, 7, &[])]);
    let sorted = sort_messages(vec![m1, m2, m3, m4]);
    let texts: Vec<&str> = sorted.iter().map(|m| m.message.as_str()).collect();
    assert_eq!(texts, vec!["4", "3", "2", "1"]);
}

#[test]
fn sort_puts_unlocated_first() {
    let located = message(Some("a"), "warning", "located", vec![span("a.rs", 1, 1, &[])]);
    let bare = message(Some("b"), "warning", "bare", Vec::new());
    let sorted = sort_messages(vec![located, bare]);
    assert_eq!(sorted[0].message, "bare");
    assert_eq!(sorted[1].message, "located");
}

#[test]
fn sort_keeps_input_order_on_ties() {
    let first = message(Some("a"), "warning", "first", vec![span("a.rs", 5, 5, &[])]);
    let second = message(Some("b"), "error", "second", vec![span("a.rs", 5, 5, &[])]);
    let third = message(Some("c"), "warning", "third", vec![span("a.rs", 5, 5, &[])]);
    let sorted = sort_messages(vec![first, second, third]);
    let texts: Vec<&str> = sorted.iter().map(|m| m.message.as_str()).collect();
    assert_eq!(texts, vec!["first", "second", "third"]);
}

#[test]
fn render_catalog_code_gets_link() {
    let m = message(
        Some("clippy::unwrap_used"),
        "warning",
        "used unwrap",
        vec![span("src/main.rs", 7, 13, &[])],
    );
    let r = render_message(&m);
    assert_eq!(r.severity, SeverityClass::Warning);
    assert_eq!(r.code.as_deref(), Some("clippy::unwrap_used"));
    assert_eq!(
        r.code_link.as_deref(),
        Some("https://rust-lang.github.io/rust-clippy/master/#/unwrap_used")
    );
    let loc = r.location.expect("first span should be referenced");
    assert_eq!(loc.file, "src/main.rs");
    assert_eq!(loc.line, 7);
    assert_eq!(loc.column, 13);
}

#[test]
fn render_non_catalog_code_has_no_link() {
    let m = message(Some("dead_code"), "error", "unused", vec![]);
    let r = render_message(&m);
    assert_eq!(r.severity, SeverityClass::Error);
    assert_eq!(r.code.as_deref(), Some("dead_code"));
    assert_eq!(r.code_link, None);
    assert_eq!(r.location, None);
}

#[test]
fn render_other_severity() {
    let m = message(Some("x"), "note", "something", vec![]);
    assert_eq!(render_message(&m).severity, SeverityClass::Other);
}

#[test]
fn render_keeps_help_and_drops_boilerplate() {
    let mut m = message(Some("clippy::x"), "warning", "m", vec![]);
    m.children = vec![
        Annotation { level: "help".to_string(), message: "consider removing it".to_string() },
        Annotation {
            level: "help".to_string(),
            message: "for further information visit the docs".to_string(),
        },
        Annotation { level: "note".to_string(), message: "a note".to_string() },
    ];
    let r = render_message(&m);
    assert_eq!(r.helps, vec!["consider removing it".to_string()]);
}

#[test]
fn report_filters_sorts_and_renders() {
    let kept_late = message(Some("clippy::a"), "warning", "late", vec![span("z.rs", 1, 1, &[])]);
    let kept_early = message(Some("clippy::b"), "warning", "early", vec![span("a.rs", 1, 1, &[])]);
    let no_code = message(None, "warning", "no code", vec![span("a.rs", 1, 1, &[])]);
    let suppressed = message(
        Some("clippy::c"),
        "warning",
        "generated",
        vec![span("a.rs", 1, 1, &["construct_runtime!"])],
    );
    let rules = vec![unscoped("construct_runtime!")];
    let report = diagnostic_report(vec![kept_late, kept_early, no_code, suppressed], &rules);
    let texts: Vec<&str> = report.iter().map(|r| r.message.as_str()).collect();
    assert_eq!(texts, vec!["early", "late"]);
}

#[test]
fn no_rules_suppress_nothing() {
    let m = message(
        Some("clippy::x"),
        "warning",
        "m",
        vec![span("a.rs", 1, 1, &["construct_runtime!"])],
    );
    assert!(!ignored(&m, &Vec::new()));
}

#[test]
fn empty_stream_renders_empty_report() {
    let report = diagnostic_report(Vec::new(), &vec![unscoped("x")]);
    assert!(report.is_empty());
}

#[test]
fn report_is_reproducible() {
    let msgs = vec![
        message(Some("clippy::a"), "warning", "one", vec![span("b.rs", 2, 2, &[])]),
        message(Some("clippy::b"), "error", "two", vec![span("a.rs", 1, 1, &[])]),
    ];
    let rules = vec![unscoped("#[pallet::call]")];
    let first: Vec<RenderedDiagnostic> = diagnostic_report(msgs.clone(), &rules);
    let second: Vec<RenderedDiagnostic> = diagnostic_report(msgs, &rules);
    assert_eq!(first, second);
}
