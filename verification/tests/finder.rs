use cold_tools::error::ToolError;
use cold_tools::finder::{glob_report, newest_first, parse_glob_args};
use cold_tools::json::{JsonNumber, JsonValue};

#[test]
fn glob_arguments() {
    let a = parse_glob_args(&JsonValue::Object(vec![(
        "pattern".to_string(),
        JsonValue::Str("**/*.rs".to_string()),
    )]))
    .unwrap();
    assert_eq!((a.pattern.as_str(), a.path.as_str(), a.max_results), ("**/*.rs", ".", 100));
    let a = parse_glob_args(&JsonValue::Object(vec![
        ("pattern".to_string(), JsonValue::Str("*".to_string())),
        ("path".to_string(), JsonValue::Str("src".to_string())),
        ("max_results".to_string(), JsonValue::Number(JsonNumber::PosInt(2))),
    ]))
    .unwrap();
    assert_eq!((a.path.as_str(), a.max_results), ("src", 2));
    match parse_glob_args(&JsonValue::Object(vec![])) {
        Err(ToolError::Execution(m)) => assert_eq!(m, "missing required parameter 'pattern'"),
        _ => panic!("expected an execution error"),
    }
}

#[test]
fn newest_first_keeps_ties_in_order_and_caps() {
    let entries = vec![
        ("/r/a".to_string(), 10i128),
        ("/r/b".to_string(), 30),
        ("/r/c".to_string(), -5),
        ("/r/d".to_string(), 30),
        ("/r/e".to_string(), 20),
    ];
    assert_eq!(newest_first(&entries, 3), vec!["/r/b", "/r/d", "/r/e"]);
    assert_eq!(newest_first(&entries, 100), vec!["/r/b", "/r/d", "/r/e", "/r/a", "/r/c"]);
    assert!(newest_first(&entries, 0).is_empty());
}

#[test]
fn glob_reports() {
    let paths = vec!["/r/src/b.rs".to_string(), "/r/a.rs".to_string()];
    assert_eq!(glob_report(&paths, "/r", "**/*.rs"), "Found 2 file(s):\nsrc/b.rs\na.rs\n");
    assert_eq!(glob_report(&vec![], "/r", "*.md"), "No files matching pattern '*.md' in '/r'");
}
