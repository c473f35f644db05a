use cold_tools::budget::ResultBudget;
use cold_tools::tool::ToolResult;

#[test]
fn test_under_budget_no_change() {
    let budget = ResultBudget { max_total_bytes: 1000 };
    let mut results = vec![
        ("a".to_string(), ToolResult::text("hello")),
        ("b".to_string(), ToolResult::text("world")),
    ];
    budget.enforce(&mut results);
    assert_eq!(results[0].1.as_text(), "hello");
    assert_eq!(results[1].1.as_text(), "world");
}

#[test]
fn test_over_budget_truncates_largest() {
    let budget = ResultBudget { max_total_bytes: 100 };
    let big = "x".repeat(200);
    let mut results = vec![
        ("small".to_string(), ToolResult::text("hi")),
        ("big".to_string(), ToolResult::text(&big)),
    ];
    budget.enforce(&mut results);
    assert_eq!(results[0].1.as_text(), "hi");
    assert!(results[1].1.as_text().contains("truncated due to message budget"));
}

#[test]
fn test_empty_results() {
    let budget = ResultBudget::default();
    let mut results: Vec<(String, ToolResult)> = vec![];
    budget.enforce(&mut results);
    assert!(results.is_empty());
}
