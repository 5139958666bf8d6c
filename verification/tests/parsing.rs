use inspector::json::{parse_diagnostic_lines, parse_match_line};

const DIAGNOSTIC_LINE: &str = r#"{
    "reason": "compiler-message",
    "message": {
        "code": {"code": "clippy::unwrap_used"},
        "level": "warning",
        "message": "used `unwrap()` on a `Result` value",
        "spans": [
            {
                "file_name": "src/main.rs",
                "line_start": 10,
                "column_start": 5,
                "line_end": 10,
                "column_end": 20,
                "text": [{"text": "    value.unwrap();", "highlight_start": 5, "highlight_end": 20}]
            }
        ],
        "children": [
            {"level": "help", "message": "consider using expect", "spans": [], "children": []}
        ]
    }
}"#;

#[test]
fn parses_compiler_message_record() {
    let m = parse_match_line(DIAGNOSTIC_LINE).expect("line should parse");
    assert_eq!(m.reason, "compiler-message");
    let msg = m.message.expect("record carries a diagnostic");
    assert_eq!(msg.level, "warning");
    assert_eq!(msg.message, "used `unwrap()` on a `Result` value");
    assert_eq!(msg.code.expect("has code").code, "clippy::unwrap_used");
    assert_eq!(msg.spans.len(), 1);
    let span = &msg.spans[0];
    assert_eq!(span.file_name, "src/main.rs");
    assert_eq!(span.line_start, 10);
    assert_eq!(span.column_start, 5);
    assert_eq!(span.line_end, 10);
    assert_eq!(span.column_end, 20);
    assert_eq!(span.text.len(), 1);
    assert_eq!(span.text[0].text, "    value.unwrap();");
    assert_eq!(msg.children.len(), 1);
    assert_eq!(msg.children[0].level, "help");
    assert_eq!(msg.children[0].message, "consider using expect");
}

#[test]
fn record_without_message_yields_no_diagnostic() {
    let line = r#"{"reason": "build-finished", "success": true}"#;
    let m = parse_match_line(line).expect("line should parse");
    assert_eq!(m.reason, "build-finished");
    assert!(m.message.is_none());
}

#[test]
fn null_message_yields_no_diagnostic() {
    let line = r#"{"reason": "compiler-artifact", "message": null}"#;
    let m = parse_match_line(line).expect("line should parse");
    assert!(m.message.is_none());
}

#[test]
fn missing_code_yields_codeless_diagnostic() {
    let line = r#"{
        "reason": "compiler-message",
        "message": {
            "code": null,
            "level": "warning",
            "message": "something",
            "spans": [],
            "children": []
        }
    }"#;
    let m = parse_match_line(line).expect("line should parse");
    assert!(m.message.expect("has message").code.is_none());
}

#[test]
fn malformed_lines_are_errors() {
    assert!(parse_match_line("not json").is_err());
    assert!(parse_match_line("{\"no_reason\": 1}").is_err());
    assert!(parse_match_line("{\"reason\": 2}").is_err());
    let bad_level = r#"{"reason": "compiler-message", "message": {"level": 3, "message": "m", "spans": [], "children": []}}"#;
    assert!(parse_match_line(bad_level).is_err());
}

#[test]
fn out_of_range_line_number_is_an_error() {
    let line = r#"{
        "reason": "compiler-message",
        "message": {
            "level": "warning",
            "message": "m",
            "spans": [
                {
                    "file_name": "a.rs",
                    "line_start": 70000,
                    "column_start": 1,
                    "line_end": 70000,
                    "column_end": 2,
                    "text": []
                }
            ],
            "children": []
        }
    }"#;
    assert!(parse_match_line(line).is_err());
}

#[test]
fn stream_is_parsed_line_by_line() {
    let lines = vec![
        DIAGNOSTIC_LINE.to_string(),
        "garbage line".to_string(),
        r#"{"reason": "build-finished"}"#.to_string(),
    ];
    let (messages, failures) = parse_diagnostic_lines(&lines);
    assert_eq!(messages.len(), 1);
    assert_eq!(messages[0].level, "warning");
    assert_eq!(failures.len(), 1);
    assert_eq!(failures[0].line, "garbage line");
    assert!(!failures[0].error.is_empty());
}
