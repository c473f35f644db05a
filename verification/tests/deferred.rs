use cold_tools::deferred::{DeferredRegistry, DeferredTool};

fn tool(name: &str, description: &str, hints: &[&str]) -> DeferredTool {
    DeferredTool {
        name: name.to_string(),
        description: description.to_string(),
        search_hints: hints.iter().map(|h| h.to_string()).collect(),
    }
}

fn sample_registry() -> DeferredRegistry {
    let mut reg = DeferredRegistry::new();
    reg.defer(tool("WebSearch", "Search the web", &["google", "internet", "query"]));
    reg.defer(tool("WebFetch", "Fetch a URL", &["http", "download", "url"]));
    reg.defer(tool("NotebookEdit", "Edit Jupyter notebooks", &["jupyter", "ipynb", "cell"]));
    reg
}

#[test]
fn test_search_by_name() {
    let reg = sample_registry();
    let results = reg.search("web");
    assert_eq!(results.len(), 2);
}

#[test]
fn test_search_by_hint() {
    let reg = sample_registry();
    let results = reg.search("jupyter");
    assert_eq!(results.len(), 1);
    assert_eq!(results[0].name, "NotebookEdit");
}

#[test]
fn test_search_no_match() {
    let reg = sample_registry();
    let results = reg.search("zzzzz");
    assert!(results.is_empty());
}

#[test]
fn test_empty_query_returns_all() {
    let reg = sample_registry();
    let results = reg.search("");
    assert_eq!(results.len(), 3);
}

#[test]
fn test_list() {
    let reg = sample_registry();
    assert_eq!(reg.list().len(), 3);
}

fn names(results: &[&DeferredTool]) -> Vec<String> {
    results.iter().map(|t| t.name.clone()).collect()
}

#[test]
fn every_keyword_must_match_somewhere() {
    let reg = sample_registry();
    assert_eq!(names(&reg.search("web search")), vec!["WebSearch"]);
    assert_eq!(names(&reg.search("WEB   jupyter")), Vec::<String>::new());
}

#[test]
fn results_are_ranked_by_score_ties_in_order() {
    let reg = sample_registry();
    assert_eq!(names(&reg.search("web")), vec!["WebSearch", "WebFetch"]);
    assert_eq!(names(&reg.search("t")), vec!["WebFetch", "NotebookEdit", "WebSearch"]);
}
