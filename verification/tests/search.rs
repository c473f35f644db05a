use cold_tools::error::ToolError;
use cold_tools::json::{JsonNumber, JsonValue};
use cold_tools::scan::SearchScan;
use cold_tools::search::{is_skipped_dir, parse_search_args, FileFilter, SearchArgs, SearchRegex};

fn args(mode: &str, max_results: u64, context_lines: u64, offset: u64) -> SearchArgs {
    SearchArgs {
        pattern: "fn".to_string(),
        path: ".".to_string(),
        glob_pattern: None,
        max_results,
        context_lines,
        output_mode: mode.to_string(),
        file_type: None,
        multiline: false,
        offset,
    }
}

const SOURCE: &str = "fn main() {}\nlet x = 1;\nfn helper() {}\n";

fn scan(a: &SearchArgs, pattern: &str) -> SearchScan {
    let re = match SearchRegex::compile(pattern, a.multiline) {
        Ok(r) => r,
        Err(_) => panic!("pattern compiles"),
    };
    let mut s = SearchScan::new(a);
    s.scan_file("src/a.rs", SOURCE, &re);
    s
}

#[test]
fn search_argument_defaults() {
    let a = parse_search_args(&JsonValue::Object(vec![("pattern".to_string(), JsonValue::Str("x".to_string()))])).unwrap();
    assert_eq!(a.path, ".");
    assert_eq!(a.max_results, 50);
    assert_eq!(a.context_lines, 0);
    assert_eq!(a.output_mode, "content");
    assert!(!a.multiline);
    assert_eq!(a.offset, 0);
    assert!(a.glob_pattern.is_none() && a.file_type.is_none());
    let a = parse_search_args(&JsonValue::Object(vec![
        ("pattern".to_string(), JsonValue::Str("x".to_string())),
        ("offset".to_string(), JsonValue::Number(JsonNumber::PosInt(4))),
        ("multiline".to_string(), JsonValue::Bool(true)),
    ]))
    .unwrap();
    assert_eq!(a.offset, 4);
    assert!(a.multiline);
    match parse_search_args(&JsonValue::Object(vec![])) {
        Err(ToolError::Execution(m)) => assert_eq!(m, "missing required parameter 'pattern'"),
        _ => panic!("expected an execution error"),
    }
}

#[test]
fn regexes_compile_or_fail_with_a_message() {
    let re = match SearchRegex::compile("fn\\s+main", false) {
        Ok(r) => r,
        Err(_) => panic!("valid pattern"),
    };
    assert!(re.is_match("pub fn  main()"));
    assert!(!re.is_match("fn helper()"));
    let ml = match SearchRegex::compile("a.b", true) {
        Ok(r) => r,
        Err(_) => panic!("valid pattern"),
    };
    assert!(ml.is_match("a\nb"));
    match SearchRegex::compile("(", false) {
        Err(ToolError::Execution(m)) => assert!(m.starts_with("invalid regex pattern: ")),
        _ => panic!("expected an invalid pattern"),
    }
}

#[test]
fn file_filters() {
    let f = match FileFilter::new(Some("*.rs"), Some("RS")) {
        Ok(f) => f,
        Err(_) => panic!("valid glob"),
    };
    assert!(f.admits("main.rs", "rs"));
    assert!(!f.admits("main.py", "py"));
    let any = match FileFilter::new(None, None) {
        Ok(f) => f,
        Err(_) => panic!("no glob"),
    };
    assert!(any.admits("Makefile", ""));
    match FileFilter::new(Some("[z-a"), None) {
        Err(ToolError::Execution(m)) => assert!(m.starts_with("invalid glob pattern: ")),
        _ => panic!("expected an invalid glob"),
    }
    assert!(is_skipped_dir("node_modules"));
    assert!(is_skipped_dir(".git"));
    assert!(!is_skipped_dir("src"));
}

#[test]
fn content_mode_lists_hits() {
    let s = scan(&args("content", 50, 0, 0), "fn");
    assert_eq!(s.report("fn", "src"), "Found 2 match(es):\nsrc/a.rs:1:fn main() {}\nsrc/a.rs:3:fn helper() {}");
}

#[test]
fn content_mode_with_context() {
    let s = scan(&args("content", 50, 1, 0), "fn");
    assert_eq!(
        s.report("fn", "src"),
        "Found 2 match(es):\nsrc/a.rs:\n>1: fn main() {}\n 2: let x = 1;\n\nsrc/a.rs:\n 2: let x = 1;\n>3: fn helper() {}\n"
    );
}

#[test]
fn files_and_count_modes() {
    assert_eq!(scan(&args("files", 50, 0, 0), "fn").report("fn", "src"), "Found matches in 1 file(s):\nsrc/a.rs\n");
    assert_eq!(
        scan(&args("count", 50, 0, 0), "fn").report("fn", "src"),
        "Match counts (2 total in 1 files):\nsrc/a.rs: 2\n"
    );
}

#[test]
fn offset_and_limit_page_through_hits() {
    let s = scan(&args("content", 1, 0, 1), "fn");
    assert_eq!(s.report("fn", "src"), "Found 1 match(es):\nsrc/a.rs:3:fn helper() {}");
    assert!(!s.wants_more());
    let s = scan(&args("content", 1, 0, 0), "fn");
    assert_eq!(s.report("fn", "src"), "Found 1 match(es):\nsrc/a.rs:1:fn main() {}");
    let s = scan(&args("content", 50, 0, 0), "zzz");
    assert!(s.wants_more());
    assert_eq!(s.report("zzz", "src"), "No matches found for pattern 'zzz' in 'src'");
}

#[test]
fn binary_and_non_utf8_files_are_passed_over() {
    let a = args("count", 50, 0, 0);
    let re = match SearchRegex::compile("fn", false) {
        Ok(r) => r,
        Err(_) => panic!("valid pattern"),
    };
    let mut s = SearchScan::new(&a);
    s.scan_bytes("bin", b"fn\0main", &re);
    s.scan_bytes("latin1", b"fn caf\xe9", &re);
    s.scan_bytes("ok.rs", SOURCE.as_bytes(), &re);
    assert_eq!(s.report("fn", "."), "Match counts (2 total in 1 files):\nok.rs: 2\n");
}

#[test]
fn hits_of_several_files_come_in_walk_order() {
    let a = args("content", 10, 0, 0);
    let re = match SearchRegex::compile("fn", false) {
        Ok(r) => r,
        Err(_) => panic!("pattern compiles"),
    };
    let mut s = SearchScan::new(&a);
    s.scan_file("b.rs", "fn b() {}\n", &re);
    s.scan_file("a.rs", "let a = 1;\nfn a() {}\n", &re);
    s.scan_file("c.rs", "no hits here\n", &re);
    assert_eq!(s.report("fn", "."), "Found 2 match(es):\nb.rs:1:fn b() {}\na.rs:2:fn a() {}");
    let f = args("files", 10, 0, 0);
    let mut s = SearchScan::new(&f);
    s.scan_file("b.rs", "fn b() {}\n", &re);
    s.scan_file("a.rs", "fn a() {}\n", &re);
    assert_eq!(s.report("fn", "."), "Found matches in 2 file(s):\nb.rs\na.rs\n");
}

#[test]
fn offset_and_limit_run_across_files() {
    let re = match SearchRegex::compile("fn", false) {
        Ok(r) => r,
        Err(_) => panic!("pattern compiles"),
    };
    let a = args("content", 2, 0, 1);
    let mut s = SearchScan::new(&a);
    s.scan_file("b.rs", "fn b() {}\n", &re);
    s.scan_file("a.rs", "fn a1() {}\nfn a2() {}\nfn a3() {}\n", &re);
    assert_eq!(s.report("fn", "."), "Found 2 match(es):\na.rs:1:fn a1() {}\na.rs:2:fn a2() {}");
    let a = args("content", 2, 0, 5);
    let mut s = SearchScan::new(&a);
    s.scan_file("b.rs", "fn b() {}\n", &re);
    assert_eq!(s.report("fn", "."), "No matches found for pattern 'fn' in '.'");
}
