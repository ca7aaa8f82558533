use claude_settings_lsp::formatting::format_claude_settings;
use serde_json::Value;

#[test]
fn test_sorts_and_deduplicates() {
    let input = r#"{
  "permissions": {
    "allow": [
      "Bash(git status)",
      "Bash(git diff)",
      "Bash(git status)",
      "Read(*)",
      "Bash(cargo build)"
    ],
    "deny": [
      "Bash(rm -rf /)",
      "Bash(rm -rf /)"
    ]
  }
}"#;
    let result = format_claude_settings(input).unwrap();
    let parsed: Value = serde_json::from_str(&result).unwrap();

    let allow = parsed["permissions"]["allow"]
        .as_array()
        .unwrap()
        .iter()
        .map(|v| v.as_str().unwrap())
        .collect::<Vec<_>>();
    assert_eq!(
        allow,
        vec![
            "Bash(cargo build)",
            "Bash(git diff)",
            "Bash(git status)",
            "Read(*)"
        ]
    );

    let deny = parsed["permissions"]["deny"]
        .as_array()
        .unwrap()
        .iter()
        .map(|v| v.as_str().unwrap())
        .collect::<Vec<_>>();
    assert_eq!(deny, vec!["Bash(rm -rf /)"]);
}

#[test]
fn test_preserves_other_keys() {
    let input = r#"{
  "model": "opus",
  "permissions": {
    "allow": ["Write(*)", "Read(*)"]
  },
  "customKey": 42
}"#;
    let result = format_claude_settings(input).unwrap();
    let parsed: Value = serde_json::from_str(&result).unwrap();

    assert_eq!(parsed["model"], "opus");
    assert_eq!(parsed["customKey"], 42);
}

#[test]
fn test_no_permissions_key() {
    let input = r#"{"foo": "bar"}"#;
    let result = format_claude_settings(input).unwrap();
    let parsed: Value = serde_json::from_str(&result).unwrap();
    assert_eq!(parsed["foo"], "bar");
}

#[test]
fn test_trailing_newline() {
    let input = r#"{}"#;
    let result = format_claude_settings(input).unwrap();
    assert!(result.ends_with('\n'));
}

#[test]
fn test_invalid_json() {
    let result = format_claude_settings("not json");
    assert!(result.is_err());
}

#[test]
fn invalid_json_reports_parse_failure() {
    let result = format_claude_settings("{\"a\": ");
    let message = result.unwrap_err();
    assert!(message.starts_with("invalid JSON: "));
}

#[test]
fn exact_output_without_permissions() {
    let result = format_claude_settings("{\"foo\":  \"bar\"}").unwrap();
    assert_eq!(result, "{\n  \"foo\": \"bar\"\n}\n");
}

#[test]
fn exact_output_empty_object() {
    let result = format_claude_settings("{}").unwrap();
    assert_eq!(result, "{}\n");
}

#[test]
fn formatting_is_idempotent() {
    let input = r#"{"model":"opus","permissions":{"allow":["Write(*)","Read(*)","Write(*)"],"ask":[],"deny":["Bash(rm -rf /)"]},"customKey":42}"#;
    let once = format_claude_settings(input).unwrap();
    let twice = format_claude_settings(&once).unwrap();
    assert_eq!(once, twice);
}

#[test]
fn idempotent_on_plain_document() {
    let once = format_claude_settings("[1, 2, {\"x\": null}]").unwrap();
    let twice = format_claude_settings(&once).unwrap();
    assert_eq!(once, twice);
}

#[test]
fn ask_array_is_sorted_too() {
    let input = r#"{"permissions":{"ask":["c","a","b","a"]}}"#;
    let result = format_claude_settings(input).unwrap();
    let parsed: Value = serde_json::from_str(&result).unwrap();
    let ask = parsed["permissions"]["ask"]
        .as_array()
        .unwrap()
        .iter()
        .map(|v| v.as_str().unwrap())
        .collect::<Vec<_>>();
    assert_eq!(ask, vec!["a", "b", "c"]);
}

#[test]
fn adjacent_non_strings_collapse() {
    let input = r#"{"permissions":{"allow":["b",1,2,"a"]}}"#;
    let result = format_claude_settings(input).unwrap();
    let parsed: Value = serde_json::from_str(&result).unwrap();
    let expected: Value = serde_json::from_str("[1,\"a\",\"b\"]").unwrap();
    assert_eq!(parsed["permissions"]["allow"], expected);
}

#[test]
fn empty_string_does_not_collapse_with_non_string() {
    let input = r#"{"permissions":{"deny":["",5]}}"#;
    let result = format_claude_settings(input).unwrap();
    let parsed: Value = serde_json::from_str(&result).unwrap();
    let expected: Value = serde_json::from_str("[\"\",5]").unwrap();
    assert_eq!(parsed["permissions"]["deny"], expected);
}

#[test]
fn non_array_permission_field_untouched() {
    let input = r#"{"permissions":{"allow":"everything","deny":["b","a"]}}"#;
    let result = format_claude_settings(input).unwrap();
    let parsed: Value = serde_json::from_str(&result).unwrap();
    assert_eq!(parsed["permissions"]["allow"], "everything");
    let expected: Value = serde_json::from_str("[\"a\",\"b\"]").unwrap();
    assert_eq!(parsed["permissions"]["deny"], expected);
}

#[test]
fn nested_permissions_untouched() {
    let input = r#"{"outer":{"permissions":{"allow":["b","a"]}}}"#;
    let result = format_claude_settings(input).unwrap();
    let parsed: Value = serde_json::from_str(&result).unwrap();
    let expected: Value = serde_json::from_str("[\"b\",\"a\"]").unwrap();
    assert_eq!(parsed["outer"]["permissions"]["allow"], expected);
}

#[test]
fn key_order_is_preserved() {
    let result = format_claude_settings("{\"zeta\": 1, \"alpha\": 2}").unwrap();
    assert_eq!(result, "{\n  \"zeta\": 1,\n  \"alpha\": 2\n}\n");
}

#[test]
fn example_two_allow_sorted() {
    let input = r#"{"model":"opus","permissions":{"allow":["Write(*)","Read(*)"]},"customKey":42}"#;
    let result = format_claude_settings(input).unwrap();
    let parsed: Value = serde_json::from_str(&result).unwrap();
    let allow = parsed["permissions"]["allow"]
        .as_array()
        .unwrap()
        .iter()
        .map(|v| v.as_str().unwrap())
        .collect::<Vec<_>>();
    assert_eq!(allow, vec!["Read(*)", "Write(*)"]);
}
