use cold_tools::budget::ResultBudget;
use cold_tools::tool::ToolResult;

fn texts(results: &[(String, ToolResult)]) -> Vec<String> {
    results.iter().map(|(_, r)| r.as_text().to_string()).collect()
}

#[test]
fn largest_results_go_first_ties_in_order() {
    let budget = ResultBudget { max_total_bytes: 250 };
    let mut results = vec![
        ("a".to_string(), ToolResult::text(&"a".repeat(100))),
        ("b".to_string(), ToolResult::text(&"b".repeat(150))),
        ("c".to_string(), ToolResult::text(&"c".repeat(100))),
        ("d".to_string(), ToolResult::text("tiny")),
    ];
    budget.enforce(&mut results);
    let stub = "[Result truncated due to message budget]";
    let t = texts(&results);
    assert_eq!(t[1], stub);
    assert_eq!(t[0], "a".repeat(100));
    assert_eq!(t[2], "c".repeat(100));
    assert_eq!(t[3], "tiny");
    let names: Vec<&str> = results.iter().map(|(n, _)| n.as_str()).collect();
    assert_eq!(names, vec!["a", "b", "c", "d"]);
}

#[test]
fn several_results_are_stubbed_when_needed() {
    let budget = ResultBudget { max_total_bytes: 200 };
    let mut results = vec![
        ("a".to_string(), ToolResult::text(&"a".repeat(100))),
        ("b".to_string(), ToolResult::text(&"b".repeat(100))),
        ("c".to_string(), ToolResult::text(&"c".repeat(100))),
    ];
    budget.enforce(&mut results);
    let stub = "[Result truncated due to message budget]";
    assert_eq!(texts(&results), vec![stub.to_string(), stub.to_string(), "c".repeat(100)]);
}

#[test]
fn results_within_the_budget_are_untouched() {
    let budget = ResultBudget { max_total_bytes: 10 };
    let mut results = vec![("a".to_string(), ToolResult::text("0123456789")), ("b".to_string(), ToolResult::Empty)];
    budget.enforce(&mut results);
    assert_eq!(texts(&results), vec!["0123456789".to_string(), String::new()]);
}

#[test]
fn results_no_larger_than_the_stub_are_kept_over_budget() {
    let budget = ResultBudget { max_total_bytes: 10 };
    let mut results = vec![
        ("a".to_string(), ToolResult::text(&"a".repeat(30))),
        ("b".to_string(), ToolResult::text(&"b".repeat(40))),
    ];
    budget.enforce(&mut results);
    assert_eq!(texts(&results), vec!["a".repeat(30), "b".repeat(40)]);
}

#[test]
fn budget_replaces_every_large_result_when_the_excess_stays() {
    let budget = ResultBudget { max_total_bytes: 100 };
    let mut results = vec![
        ("a".to_string(), ToolResult::text(&"a".repeat(60))),
        ("b".to_string(), ToolResult::text(&"b".repeat(50))),
        ("c".to_string(), ToolResult::text(&"c".repeat(39))),
    ];
    budget.enforce(&mut results);
    let t = texts(&results);
    let stub = "[Result truncated due to message budget]";
    assert_eq!(t[0], stub);
    assert_eq!(t[1], stub);
    assert_eq!(t[2], "c".repeat(39));
}
