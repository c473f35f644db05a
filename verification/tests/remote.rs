use cold_tools::error::ToolError;
use cold_tools::json::{JsonNumber, JsonValue};
use cold_tools::remote::{
    fetch_report, mcp_description, mcp_outcome, required_arg, resource_report, resources_report,
    search_report, u64_arg_or, McpContent, McpResource, McpToolResult, SearchResult,
};
use cold_tools::tool::ToolResult;

fn text(t: &str) -> McpContent {
    McpContent::Text { text: t.to_string() }
}

#[test]
fn mcp_results_become_tool_results() {
    let ok = McpToolResult {
        content: vec![text("a"), McpContent::Image { data: "QUJD".to_string(), mime_type: "image/png".to_string() }, text("b")],
        is_error: None,
    };
    match mcp_outcome(&ok) {
        ToolResult::Text(t) => assert_eq!(t, "a\n[Image: image/png, 4 bytes base64]\nb"),
        _ => panic!("expected text"),
    }
    let err = McpToolResult {
        content: vec![text("bad"), McpContent::Image { data: "x".to_string(), mime_type: "m".to_string() }, text("worse")],
        is_error: Some(true),
    };
    match mcp_outcome(&err) {
        ToolResult::Error { message, recoverable } => {
            assert_eq!(message, "bad\nworse");
            assert!(recoverable);
        }
        _ => panic!("expected an error"),
    }
    let empty = McpToolResult { content: vec![], is_error: Some(false) };
    assert!(matches!(mcp_outcome(&empty), ToolResult::Empty));
}

#[test]
fn mcp_descriptions() {
    assert_eq!(mcp_description(Some("Reads")), "Reads");
    assert_eq!(mcp_description(None), "MCP tool (no description)");
}

#[test]
fn resource_listing() {
    assert_eq!(resources_report("srv", &vec![]), "No resources available from MCP server 'srv'");
    let rs = vec![
        McpResource {
            uri: "file:///a".to_string(),
            name: "a".to_string(),
            description: Some("first".to_string()),
            mime_type: Some("text/plain".to_string()),
        },
        McpResource { uri: "file:///b".to_string(), name: "b".to_string(), description: None, mime_type: None },
    ];
    assert_eq!(
        resources_report("srv", &rs),
        "Resources from MCP server 'srv' (2 total):\n\n- a (file:///a)\n  first\n  Type: text/plain\n- b (file:///b)\n"
    );
    assert_eq!(resource_report("file:///a", "srv", "hello"), "Resource 'file:///a' from MCP server 'srv':\n\nhello");
}

#[test]
fn arguments_of_remote_tools() {
    let args = JsonValue::Object(vec![
        ("uri".to_string(), JsonValue::Str("u".to_string())),
        ("max_results".to_string(), JsonValue::Number(JsonNumber::PosInt(3))),
    ]);
    assert_eq!(required_arg(&args, "uri").unwrap(), "u");
    match required_arg(&args, "url") {
        Err(ToolError::Execution(m)) => assert_eq!(m, "missing required parameter 'url'"),
        _ => panic!("expected an execution error"),
    }
    assert_eq!(u64_arg_or(&args, "max_results", 10), 3);
    assert_eq!(u64_arg_or(&args, "max_length", 50_000), 50_000);
}

#[test]
fn web_search_report() {
    assert_eq!(search_report("rust", &vec![]), "No results found for query: rust");
    let rs = vec![
        SearchResult { title: "Rust".to_string(), url: "https://rust-lang.org".to_string(), snippet: "A language".to_string() },
        SearchResult { title: "Book".to_string(), url: "https://doc.rust-lang.org/book".to_string(), snippet: "Learn".to_string() },
    ];
    assert_eq!(
        search_report("rust", &rs),
        "Search results for \"rust\":\n\n1. Rust\n   URL: https://rust-lang.org\n   A language\n\n2. Book\n   URL: https://doc.rust-lang.org/book\n   Learn\n\n"
    );
}

#[test]
fn web_fetch_report() {
    assert_eq!(fetch_report("http://x", "hello world", 5, None), "Content from http://x:\n\nhello\n[truncated]");
    assert_eq!(fetch_report("http://x", "hi", 5, Some("main")), "Content from http://x:\n\nhi\n\n[Note: CSS selector 'main' was requested]");
    assert_eq!(fetch_report("http://x", "héllo", 3, None), "Content from http://x:\n\nhé\n[truncated]");
}
