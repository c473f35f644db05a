use cold_tools::json::JsonValue;
use cold_tools::parallel::{paths_conflict, should_parallelize, CallTraits};

fn path_args(p: &str) -> JsonValue {
    JsonValue::Object(vec![("path".to_string(), JsonValue::Str(p.to_string()))])
}

fn call(registered: bool, safe: bool, read_only: bool, args: JsonValue) -> CallTraits {
    CallTraits { registered, concurrency_safe: safe, read_only, args }
}

#[test]
fn conflicts_are_symmetric_and_normalise_backslashes() {
    assert!(paths_conflict(&path_args("src\\main.rs"), &path_args("src/main.rs")));
    assert!(paths_conflict(&path_args("src/main.rs"), &path_args("src\\main.rs")));
    assert!(paths_conflict(&path_args("a"), &JsonValue::Object(vec![])));
    assert!(paths_conflict(&JsonValue::Object(vec![]), &path_args("a")));
    assert!(paths_conflict(&path_args("srcx"), &path_args("src")));
}

#[test]
fn batches_run_concurrently_only_when_safe() {
    assert!(should_parallelize(&[]));
    assert!(should_parallelize(&[call(false, false, false, path_args("a"))]));
    assert!(should_parallelize(&[
        call(true, true, true, path_args("a")),
        call(true, true, true, path_args("a")),
    ]));
    assert!(should_parallelize(&[
        call(true, true, false, path_args("a.rs")),
        call(true, true, false, path_args("b.rs")),
    ]));
    assert!(!should_parallelize(&[
        call(true, true, false, path_args("src")),
        call(true, true, false, path_args("src/b.rs")),
    ]));
    assert!(!should_parallelize(&[
        call(true, false, false, path_args("a")),
        call(true, true, true, path_args("b")),
    ]));
    assert!(!should_parallelize(&[
        call(false, true, true, path_args("a")),
        call(true, true, true, path_args("b")),
    ]));
    assert!(should_parallelize(&[
        call(true, true, false, path_args("src")),
        call(true, true, true, path_args("src/b.rs")),
    ]));
}
