use std::sync::Arc;

use cold_tools::config::CoreToolConfig;
use cold_tools::deferred::{DeferredRegistry, DeferredTool};
use cold_tools::error::ToolError;
use cold_tools::json::JsonValue;
use cold_tools::tool::{Permission, ToolResult};
use cold_tools::tools::{
    format_found, process_parameters_schema, tool_definition,
    web_fetch_parameters_schema, web_search_parameters_schema, AskUserTool, EditFileTool,
    EnterPlanModeTool, ExitPlanModeTool, GlobTool, ListDirTool, NotebookEditTool, ReadFileTool,
    SearchFilesTool, TerminalTool, ThinkTool, TodoWriteTool, ToolSearchTool, WriteFileTool,
};

fn required(schema: &JsonValue) -> Vec<String> {
    match schema.get("required") {
        Some(r) => r.as_array().unwrap().iter().map(|v| v.as_str().unwrap().to_string()).collect(),
        None => vec![],
    }
}

fn property_type(schema: &JsonValue, name: &str) -> String {
    schema.get("properties").unwrap().get(name).unwrap().get("type").unwrap().as_str().unwrap().to_string()
}

fn text_of(r: ToolResult) -> String {
    match r {
        ToolResult::Text(t) => t,
        _ => panic!("expected text"),
    }
}

#[test]
fn core_tool_metadata() {
    let cfg = CoreToolConfig::default();
    let search = SearchFilesTool::new(cfg.clone());
    assert_eq!((search.name(), search.toolset()), ("search_files", "core"));
    assert!(search.is_read_only() && search.is_concurrency_safe());
    assert_eq!(search.permission(), Permission::Auto);
    assert_eq!(search.max_output_bytes(), 50_000);
    let read = ReadFileTool::new(cfg.clone());
    assert_eq!(read.name(), "read_file");
    assert_eq!(read.max_output_bytes(), 100_000);
    let write = WriteFileTool::new(cfg.clone());
    assert_eq!(write.name(), "write_file");
    assert!(!write.is_read_only() && write.is_concurrency_safe());
    assert_eq!(write.permission(), Permission::Ask);
    let edit = EditFileTool::new(cfg.clone());
    assert_eq!((edit.name(), edit.permission()), ("edit_file", Permission::Ask));
    let glob = GlobTool::new(cfg.clone());
    assert_eq!((glob.name(), glob.permission()), ("glob", Permission::Auto));
    let list = ListDirTool::new(cfg.clone());
    assert_eq!((list.name(), list.permission()), ("list_dir", Permission::Auto));
    let term = TerminalTool::new(cfg.clone());
    assert_eq!((term.name(), term.permission()), ("terminal", Permission::Ask));
    assert!(!term.is_concurrency_safe());
    assert_eq!(term.timeout_secs(), 120);
    assert_eq!(ThinkTool.name(), "think");
    assert_eq!(ThinkTool.max_output_bytes(), 0);
    assert_eq!((AskUserTool.name(), AskUserTool.is_concurrency_safe()), ("ask_user", false));
    assert_eq!((TodoWriteTool.name(), TodoWriteTool.permission()), ("todo_write", Permission::Ask));
    assert_eq!((NotebookEditTool.name(), NotebookEditTool.is_read_only()), ("notebook_edit", false));
    assert_eq!(EnterPlanModeTool.name(), "enter_plan_mode");
    assert_eq!(ExitPlanModeTool.name(), "exit_plan_mode");
    let ts = ToolSearchTool::new(Arc::new(DeferredRegistry::new()));
    assert_eq!((ts.name(), ts.toolset()), ("tool_search", "core"));
}

#[test]
fn parameter_schemas() {
    let cfg = CoreToolConfig::default();
    let s = SearchFilesTool::new(cfg.clone()).parameters_schema();
    assert_eq!(s.get("type").unwrap().as_str(), Some("object"));
    assert_eq!(required(&s), vec!["pattern"]);
    assert_eq!(property_type(&s, "max_results"), "integer");
    assert_eq!(property_type(&s, "multiline"), "boolean");
    assert_eq!(required(&ReadFileTool::new(cfg.clone()).parameters_schema()), vec!["path"]);
    assert_eq!(required(&WriteFileTool::new(cfg.clone()).parameters_schema()), vec!["path", "content"]);
    assert_eq!(
        required(&EditFileTool::new(cfg.clone()).parameters_schema()),
        vec!["path", "old_string", "new_string"]
    );
    assert_eq!(required(&GlobTool::new(cfg.clone()).parameters_schema()), vec!["pattern"]);
    assert!(required(&ListDirTool::new(cfg.clone()).parameters_schema()).is_empty());
    assert_eq!(required(&TerminalTool::new(cfg.clone()).parameters_schema()), vec!["command"]);
    assert_eq!(required(&ThinkTool.parameters_schema()), vec!["thought"]);
    assert_eq!(required(&AskUserTool.parameters_schema()), vec!["question"]);
    assert_eq!(required(&TodoWriteTool.parameters_schema()), vec!["action"]);
    assert_eq!(required(&NotebookEditTool.parameters_schema()), vec!["path", "cell_index", "new_source"]);
    assert_eq!(required(&process_parameters_schema()), vec!["action"]);
    assert_eq!(required(&web_fetch_parameters_schema()), vec!["url"]);
    assert_eq!(required(&web_search_parameters_schema()), vec!["query"]);
    let todo = TodoWriteTool.parameters_schema();
    let actions = todo.get("properties").unwrap().get("action").unwrap().get("enum").unwrap().as_array().unwrap();
    let names: Vec<&str> = actions.iter().map(|v| v.as_str().unwrap()).collect();
    assert_eq!(names, vec!["add", "update", "remove", "list", "clear"]);
}

fn options(opts: Vec<JsonValue>) -> JsonValue {
    JsonValue::Object(vec![
        ("question".to_string(), JsonValue::Str("Which?".to_string())),
        ("options".to_string(), JsonValue::Array(opts)),
    ])
}

#[test]
fn ask_user_prompts() {
    let prompt = AskUserTool
        .prompt(&options(vec![JsonValue::Str("a".to_string()), JsonValue::Bool(true), JsonValue::Str("c".to_string())]))
        .unwrap();
    assert_eq!(prompt, "Which?\n  1. a\n  3. c\n");
    let plain = JsonValue::Object(vec![("question".to_string(), JsonValue::Str("Why?".to_string()))]);
    assert_eq!(AskUserTool.prompt(&plain).unwrap(), "Why?");
    match AskUserTool.prompt(&JsonValue::Object(vec![])) {
        Err(ToolError::Execution(m)) => assert_eq!(m, "missing required parameter 'question'"),
        _ => panic!("expected an execution error"),
    }
}

#[test]
fn think_and_plan_mode() {
    assert!(matches!(ThinkTool.run(), ToolResult::Empty));
    assert!(EnterPlanModeTool.plan_mode_after());
    assert!(!ExitPlanModeTool.plan_mode_after());
    assert_eq!(text_of(EnterPlanModeTool.report()), "Entered plan mode. Write operations are now blocked.");
    assert_eq!(text_of(ExitPlanModeTool.report()), "Exited plan mode. Write operations are now allowed.");
}

fn registry() -> DeferredRegistry {
    let mut reg = DeferredRegistry::new();
    reg.defer(DeferredTool {
        name: "WebSearch".to_string(),
        description: "Search the web".to_string(),
        search_hints: vec!["google".to_string(), "query".to_string()],
    });
    reg.defer(DeferredTool { name: "Lint".to_string(), description: "Lint code".to_string(), search_hints: vec![] });
    reg
}

#[test]
fn tool_search_reports_matches() {
    let ts = ToolSearchTool::new(Arc::new(registry()));
    let q = |s: &str| JsonValue::Object(vec![("query".to_string(), JsonValue::Str(s.to_string()))]);
    assert_eq!(
        text_of(ts.run(&q("web")).unwrap()),
        "Found 1 matching tool(s):\n\n- **WebSearch**: Search the web\n  hints: google, query\n"
    );
    assert_eq!(text_of(ts.run(&q("lint")).unwrap()), "Found 1 matching tool(s):\n\n- **Lint**: Lint code\n");
    assert_eq!(text_of(ts.run(&q("zzz")).unwrap()), "No deferred tools match query 'zzz'");
    match ts.run(&JsonValue::Object(vec![])) {
        Err(ToolError::Execution(m)) => assert_eq!(m, "missing required parameter 'query'"),
        _ => panic!("expected an execution error"),
    }
    let reg = registry();
    let found = reg.search("");
    assert_eq!(format_found("", &found).lines().next(), Some("Found 2 matching tool(s):"));
}

#[test]
fn tool_definitions() {
    let def = tool_definition("think", "Think", JsonValue::Object(vec![]));
    assert_eq!(def.get("type").unwrap().as_str(), Some("function"));
    let f = def.get("function").unwrap();
    assert_eq!(f.get("name").unwrap().as_str(), Some("think"));
    assert_eq!(f.get("description").unwrap().as_str(), Some("Think"));
    assert!(f.get("parameters").is_some());
}
