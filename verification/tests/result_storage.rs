use cold_tools::storage::{persist_if_large, PersistStep};
use cold_tools::tool::ToolResult;

fn kept_text(step: PersistStep) -> String {
    match step {
        PersistStep::Keep(r) => r.as_text().to_string(),
        PersistStep::Save(_) => panic!("result was not kept"),
    }
}

#[test]
fn test_small_result_unchanged() {
    let result = ToolResult::text("hello");
    let out = persist_if_large(result, 1000);
    assert_eq!(kept_text(out), "hello");
}

#[test]
fn test_error_result_unchanged() {
    let result = ToolResult::error("oops", true);
    let out = persist_if_large(result, 1);
    assert_eq!(kept_text(out), "oops");
}

#[test]
fn test_empty_result_unchanged() {
    let result = ToolResult::Empty;
    let out = persist_if_large(result, 1);
    assert_eq!(kept_text(out), "");
}
