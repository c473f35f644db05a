use cold_tools::deferred::{DeferredRegistry, DeferredTool};
use cold_tools::json::JsonValue;
use cold_tools::registry::{offered_tools, ToolRegistry};
use cold_tools::tools::tool_definition;

struct Dummy {
    name: &'static str,
    description: &'static str,
    should_defer: bool,
    always_load: bool,
    hints: Vec<String>,
}

fn dummy() -> Dummy {
    Dummy {
        name: "dummy",
        description: "A dummy tool for testing",
        should_defer: false,
        always_load: false,
        hints: vec![],
    }
}

fn deferred_dummy() -> Dummy {
    Dummy {
        name: "deferred_dummy",
        description: "A deferred dummy tool",
        should_defer: true,
        always_load: false,
        hints: vec!["deferred".to_string(), "test".to_string()],
    }
}

fn schema() -> JsonValue {
    JsonValue::Object(vec![("type".to_string(), JsonValue::Str("object".to_string()))])
}

fn register(reg: &mut ToolRegistry<Dummy>, tool: Dummy) {
    let name = tool.name;
    reg.register(name, tool);
}

fn register_auto(reg: &mut ToolRegistry<Dummy>, tool: Dummy, deferred: &mut DeferredRegistry) -> bool {
    let entry = DeferredTool {
        name: tool.name.to_string(),
        description: tool.description.to_string(),
        search_hints: tool.hints.clone(),
    };
    let (d, a) = (tool.should_defer, tool.always_load);
    reg.register_auto(tool, entry, d, a, deferred)
}

#[test]
fn test_register_and_get() {
    let mut reg = ToolRegistry::new();
    assert_eq!(reg.generation(), 0);
    register(&mut reg, dummy());
    assert_eq!(reg.generation(), 1);
    assert!(reg.get("dummy").is_some());
    assert!(reg.get("nonexistent").is_none());
}

#[test]
fn test_deregister() {
    let mut reg = ToolRegistry::new();
    register(&mut reg, dummy());
    assert!(reg.deregister("dummy"));
    assert!(!reg.deregister("dummy"));
    assert!(reg.get("dummy").is_none());
}

#[test]
fn test_register_auto_normal() {
    let mut reg = ToolRegistry::new();
    let mut deferred = DeferredRegistry::new();
    let was_deferred = register_auto(&mut reg, dummy(), &mut deferred);
    assert!(!was_deferred);
    assert!(reg.get("dummy").is_some());
    assert!(deferred.list().is_empty());
}

#[test]
fn test_register_auto_deferred() {
    let mut reg = ToolRegistry::new();
    let mut deferred = DeferredRegistry::new();
    let was_deferred = register_auto(&mut reg, deferred_dummy(), &mut deferred);
    assert!(was_deferred);
    assert!(reg.get("deferred_dummy").is_none());
    assert_eq!(deferred.list().len(), 1);
    assert_eq!(deferred.list()[0].name, "deferred_dummy");
    assert_eq!(deferred.list()[0].search_hints, vec!["deferred", "test"]);
}

#[test]
fn test_get_definitions() {
    let mut reg = ToolRegistry::new();
    register(&mut reg, dummy());
    let defs: Vec<JsonValue> = reg
        .names()
        .iter()
        .map(|n| {
            let t = reg.get(n).unwrap();
            tool_definition(t.name, t.description, schema())
        })
        .collect();
    assert_eq!(defs.len(), 1);
    assert_eq!(defs[0].get("type").unwrap().as_str(), Some("function"));
    assert_eq!(defs[0].get("function").unwrap().get("name").unwrap().as_str(), Some("dummy"));
}

#[test]
fn register_replaces_tool_of_same_name() {
    let mut reg = ToolRegistry::new();
    register(&mut reg, dummy());
    let mut other = dummy();
    other.description = "replacement";
    register(&mut reg, other);
    assert_eq!(reg.generation(), 2);
    assert_eq!(reg.names(), vec!["dummy"]);
    assert_eq!(reg.get("dummy").unwrap().description, "replacement");
}

#[test]
fn deregister_of_absent_name_keeps_generation() {
    let mut reg: ToolRegistry<Dummy> = ToolRegistry::new();
    assert!(!reg.deregister("missing"));
    assert_eq!(reg.generation(), 0);
    register(&mut reg, dummy());
    register(&mut reg, deferred_dummy());
    assert!(reg.deregister("dummy"));
    assert_eq!(reg.generation(), 3);
    assert_eq!(reg.names(), vec!["deferred_dummy"]);
}

#[test]
fn offered_tools_keep_available_ones_of_enabled_toolsets() {
    let rows = vec![
        ("read_file".to_string(), true, "core".to_string()),
        ("web_fetch".to_string(), true, "web".to_string()),
        ("hidden".to_string(), false, "core".to_string()),
    ];
    assert_eq!(offered_tools(&rows, None), vec!["read_file".to_string(), "web_fetch".to_string()]);
    let core = vec!["core"];
    assert_eq!(offered_tools(&rows, Some(&core)), vec!["read_file".to_string()]);
    let none: Vec<&str> = vec![];
    assert!(offered_tools(&rows, Some(&none)).is_empty());
}
