use cold_tools::content::looks_binary;
use cold_tools::paths::{file_extension, join_path, relative_display};

#[test]
fn file_extensions_as_path_extension_gives_them() {
    assert_eq!(file_extension("main.rs"), Some("rs".to_string()));
    assert_eq!(file_extension("a.tar.gz"), Some("gz".to_string()));
    assert_eq!(file_extension("trailing."), Some(String::new()));
    assert_eq!(file_extension(".bashrc"), None);
    assert_eq!(file_extension("Makefile"), None);
    assert_eq!(file_extension(".."), None);
}

#[test]
fn paths_relative_to_a_base() {
    assert_eq!(relative_display("/a/b/c.rs", "/a"), "b/c.rs");
    assert_eq!(relative_display("/a/b", "/a/b"), "");
    assert_eq!(relative_display("/ab/c", "/a"), "/ab/c");
    assert_eq!(relative_display("/x/y", "/a"), "/x/y");
}

#[test]
fn joining_paths() {
    assert_eq!(join_path("/a", "b"), "/a/b");
    assert_eq!(join_path("/a/", "b"), "/a/b");
    assert_eq!(join_path("/a", "/etc/passwd"), "/etc/passwd");
    assert_eq!(join_path("", "b"), "b");
}

#[test]
fn binary_content_has_a_nul_in_its_first_8k() {
    assert!(looks_binary(b"ab\0c"));
    assert!(!looks_binary(b"plain text"));
    let mut late = vec![b'a'; 8192];
    late.push(0);
    assert!(!looks_binary(&late));
    let mut early = vec![b'a'; 8191];
    early.push(0);
    assert!(looks_binary(&early));
}
