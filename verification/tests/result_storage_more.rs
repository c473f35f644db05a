use cold_tools::storage::{persist_if_large, result_file_name, safe_preview, stored_result, PersistStep};
use cold_tools::json::{JsonDoc, JsonValue};
use cold_tools::tool::ToolResult;

fn text_of(r: ToolResult) -> String {
    match r {
        ToolResult::Text(t) => t,
        _ => panic!("expected text"),
    }
}

#[test]
fn test_large_result_persisted() {
    let big = "x".repeat(2000);
    let result = ToolResult::text(&big);
    let content = match persist_if_large(result, 100) {
        PersistStep::Save(c) => c,
        PersistStep::Keep(_) => panic!("large result must be saved"),
    };
    assert_eq!(content, big);
    let file = format!("/tmp/.cold/tool-results/{}", result_file_name("test_tool", 1234));
    let text = text_of(stored_result(&content, Some(&file)));
    assert!(text.contains("[Result saved to"));
    assert!(text.contains("Preview:"));
}

#[test]
fn saved_file_names_and_previews() {
    assert_eq!(result_file_name("read_file", 1700000000123), "read_file_1700000000123.txt");
    assert_eq!(
        text_of(stored_result("abc", Some("/r/.cold/tool-results/t_1.txt"))),
        "[Result saved to /r/.cold/tool-results/t_1.txt]\n\nPreview:\nabc..."
    );
    let long = format!("{}é", "a".repeat(499));
    assert_eq!(safe_preview(&long), "a".repeat(499));
    assert_eq!(text_of(stored_result(&long, None)), "a".repeat(499));
    assert_eq!(safe_preview("short"), "short");
}

#[test]
fn json_results_are_measured_by_their_text() {
    let doc = JsonDoc { value: JsonValue::Str("abcdef".to_string()), text: "\"abcdef\"".to_string() };
    match persist_if_large(ToolResult::Json(doc), 5) {
        PersistStep::Save(c) => assert_eq!(c, "\"abcdef\""),
        PersistStep::Keep(_) => panic!("expected save"),
    }
    let doc = JsonDoc { value: JsonValue::Null, text: "null".to_string() };
    assert!(matches!(persist_if_large(ToolResult::Json(doc), 4), PersistStep::Keep(ToolResult::Json(_))));
}
