use rhino::cli::Format;
use rhino::errors::{body, ErrorCode};

#[test]
fn every_code_is_namespaced_distinct_and_published() {
    let mut seen: Vec<&str> = Vec::new();
    for code in ErrorCode::all() {
        let text = code.as_str();
        let parts: Vec<&str> = text.split('.').collect();
        assert_eq!(parts.len(), 3, "{text} is not `tool.area.reason`");
        assert_eq!(parts[0], "rhino", "{text} does not name the tool first");
        assert!(!parts[1].is_empty() && !parts[2].is_empty(), "{text}");
        assert!(!seen.contains(&text), "{text} appears twice");
        seen.push(text);
    }
    assert_eq!(seen.len(), 17);
}

#[test]
fn the_text_body_is_one_line_and_the_json_body_carries_the_code() {
    let text = body(Format::Text, ErrorCode::ArgsUnrecognized, "no such flag\n");
    assert_eq!(text, "rhino: no such flag\n");

    let json = body(Format::Json, ErrorCode::GateChildNotFound, "gate `a`: gone");
    assert_eq!(
        json,
        "{\"schemaVersion\":1,\"error\":{\"code\":\"rhino.gate.child-not-found\",\
         \"message\":\"gate `a`: gone\"}}\n"
    );
}

#[test]
fn a_message_never_breaks_the_document_it_travels_in() {
    let json = body(
        Format::Json,
        ErrorCode::FileUnreadable,
        "a \"quoted\" \\ path\twith\r\nbreaks\u{1}",
    );
    assert!(json.contains("a \\\"quoted\\\" \\\\ path\\twith\\r\\nbreaks\\u0001"));
    assert_eq!(json.lines().count(), 1);
}

#[test]
fn every_code_reads_as_its_published_name() {
    assert_eq!(ErrorCode::ArgsUnrecognized.as_str(), "rhino.args.unrecognized");
    assert_eq!(ErrorCode::RepositoryUnusable.as_str(), "rhino.repository.unusable");
    assert_eq!(ErrorCode::HarnessRefused.as_str(), "rhino.harness.refused");
}

#[test]
fn a_text_body_ends_in_exactly_one_line_break() {
    assert_eq!(body(Format::Text, ErrorCode::FileMissing, "gone\n\n"), "rhino: gone\n");
}

#[test]
fn a_message_with_inner_line_breaks_still_gives_a_one_line_text_body() {
    let text = body(Format::Text, ErrorCode::FileUnreadable, "a\nb\r\nc\n\n");
    assert_eq!(text, "rhino: a b  c\n");
    assert_eq!(text.lines().count(), 1);
    let json = body(Format::Json, ErrorCode::FileUnreadable, "a\nb\n");
    assert_eq!(json.lines().count(), 1);
    assert!(json.ends_with('\n'));
}
