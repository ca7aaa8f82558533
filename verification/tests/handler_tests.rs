use claude_settings_lsp::canon::sort_and_dedup_string_array;
use claude_settings_lsp::edit::compute_edit;
use claude_settings_lsp::handler::ProtocolHandler;
use claude_settings_lsp::json::Json;

#[test]
fn initialize_advertises_formatting_and_full_sync() {
    let handler = ProtocolHandler::new();
    let caps = handler.initialize();
    assert!(caps.full_document_sync);
    assert!(caps.formatting_provider);
    assert!(handler.shutdown().is_ok());
}

#[test]
fn format_request_for_unknown_document_returns_no_edits() {
    let handler = ProtocolHandler::new();
    assert!(handler.formatting("file:///never-opened.json").is_none());
}

#[test]
fn format_request_on_canonical_text_returns_no_edits() {
    let mut handler = ProtocolHandler::new();
    let canonical = "{\n  \"foo\": \"bar\"\n}\n";
    handler.did_open("file:///a.json", canonical.to_string());
    assert!(handler.formatting("file:///a.json").is_none());
}

#[test]
fn format_request_on_malformed_text_returns_no_edits() {
    let mut handler = ProtocolHandler::new();
    handler.did_open("file:///bad.json", "not json".to_string());
    assert!(handler.formatting("file:///bad.json").is_none());
}

#[test]
fn format_request_replaces_whole_document() {
    let mut handler = ProtocolHandler::new();
    let text = "{\"permissions\":{\"allow\":[\"b\",\"a\"]}}";
    handler.did_open("file:///a.json", text.to_string());
    let edit = handler.formatting("file:///a.json").expect("an edit");
    assert_eq!(edit.start_line, 0);
    assert_eq!(edit.start_col, 0);
    assert_eq!(edit.end_line, 1);
    assert_eq!(edit.end_col, text.len());
    assert_eq!(
        edit.new_text,
        "{\n  \"permissions\": {\n    \"allow\": [\n      \"a\",\n      \"b\"\n    ]\n  }\n}\n"
    );
}

#[test]
fn change_keeps_only_the_last_body() {
    let mut handler = ProtocolHandler::new();
    handler.did_open("file:///a.json", "{}".to_string());
    handler.did_change(
        "file:///a.json",
        vec!["ignored".to_string(), "{\n  \"foo\": \"bar\"\n}\n".to_string()],
    );
    assert!(handler.formatting("file:///a.json").is_none());
}

#[test]
fn empty_change_notification_changes_nothing() {
    let mut handler = ProtocolHandler::new();
    handler.did_open("file:///a.json", "{\n  \"foo\": \"bar\"\n}\n".to_string());
    handler.did_change("file:///a.json", Vec::new());
    assert!(handler.formatting("file:///a.json").is_none());
}

#[test]
fn closed_document_is_forgotten() {
    let mut handler = ProtocolHandler::new();
    handler.did_open("file:///a.json", "{\"a\":[2,1]}".to_string());
    handler.did_close("file:///a.json");
    assert!(handler.formatting("file:///a.json").is_none());
    handler.did_close("file:///a.json");
}

#[test]
fn reopening_overwrites_the_stored_text() {
    let mut handler = ProtocolHandler::new();
    handler.did_open("file:///a.json", "{\"b\":1,\"a\":2}".to_string());
    handler.did_open("file:///a.json", "{\n  \"foo\": \"bar\"\n}\n".to_string());
    assert!(handler.formatting("file:///a.json").is_none());
}

#[test]
fn edit_range_spans_lines_of_original() {
    let e = compute_edit("a\nbc", "x".to_string());
    assert_eq!((e.start_line, e.start_col, e.end_line, e.end_col), (0, 0, 2, 2));
    assert_eq!(e.new_text, "x");

    let e = compute_edit("a\nbc\n", "x".to_string());
    assert_eq!((e.end_line, e.end_col), (2, 2));

    let e = compute_edit("a\r\nbc\r\n", "x".to_string());
    assert_eq!((e.end_line, e.end_col), (2, 2));

    let e = compute_edit("", "x".to_string());
    assert_eq!((e.end_line, e.end_col), (0, 0));

    let e = compute_edit("a\n\n", "x".to_string());
    assert_eq!((e.end_line, e.end_col), (2, 0));
}

#[test]
fn sort_and_dedup_orders_by_string_content() {
    let arr = vec![
        Json::Str("b".to_string()),
        Json::Null,
        Json::Bool(true),
        Json::Str("a".to_string()),
        Json::Str("b".to_string()),
    ];
    let r = sort_and_dedup_string_array(arr);
    assert_eq!(r.len(), 3);
    assert!(matches!(r[0], Json::Null));
    match &r[1] {
        Json::Str(s) => assert_eq!(s, "a"),
        _ => panic!("expected a string"),
    }
    match &r[2] {
        Json::Str(s) => assert_eq!(s, "b"),
        _ => panic!("expected a string"),
    }
}
