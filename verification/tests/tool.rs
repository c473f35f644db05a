use cold_tools::tool::{safe_truncate, ToolResult};

#[test]
fn test_safe_truncate_ascii() {
    let s = "hello world";
    assert_eq!(safe_truncate(s, 5), "hello");
}

#[test]
fn test_safe_truncate_multibyte() {
    let s = "hello 你好";
    assert_eq!(safe_truncate(s, 7), "hello ");
    assert_eq!(safe_truncate(s, 9), "hello 你");
}

#[test]
fn test_truncate_result() {
    let mut result = ToolResult::text("abcdefghij");
    result.truncate(5);
    assert_eq!(result.as_text(), "abcde\n[truncated]");
}
