use cold_tools::json::JsonValue;
use cold_tools::parallel::paths_conflict;

fn path_args(p: &str) -> JsonValue {
    JsonValue::Object(vec![("path".to_string(), JsonValue::Str(p.to_string()))])
}

fn empty() -> JsonValue {
    JsonValue::Object(vec![])
}

#[test]
fn test_paths_conflict() {
    assert!(paths_conflict(&path_args("src/main.rs"), &path_args("src/main.rs")));
    assert!(!paths_conflict(&path_args("src/main.rs"), &path_args("src/lib.rs")));
    assert!(paths_conflict(&path_args("src"), &path_args("src/main.rs")));
}

#[test]
fn test_no_path_args_conflict() {
    assert!(paths_conflict(&empty(), &empty()));
}
