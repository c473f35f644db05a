use cold_tools::error::ToolError;
use cold_tools::json::{JsonNumber, JsonValue};
use cold_tools::readfile::{
    binary_notice, clear_file_cache, image_result, numbered_lines, parse_read_args, pdf_notice,
    read_kind, read_text_file, render_notebook, text_file_result, unchanged_notice, FileCache, ReadKind,
};
use cold_tools::tool::ToolResult;

fn text_of(r: ToolResult) -> String {
    match r {
        ToolResult::Text(t) => t,
        _ => panic!("expected text"),
    }
}

fn obj(pairs: Vec<(&str, JsonValue)>) -> JsonValue {
    JsonValue::Object(pairs.into_iter().map(|(k, v)| (k.to_string(), v)).collect())
}

#[test]
fn files_are_classified_by_lowercased_extension() {
    assert!(matches!(read_kind("report.PDF"), ReadKind::Pdf));
    assert!(matches!(read_kind("photo.JPG"), ReadKind::Image));
    assert!(matches!(read_kind("icon.svg"), ReadKind::Image));
    assert!(matches!(read_kind("lib.so"), ReadKind::Binary));
    assert!(matches!(read_kind("a.tar.gz"), ReadKind::Binary));
    assert!(matches!(read_kind("nb.ipynb"), ReadKind::Notebook));
    assert!(matches!(read_kind("main.rs"), ReadKind::Text));
    assert!(matches!(read_kind(".png"), ReadKind::Text));
    assert!(matches!(read_kind("Makefile"), ReadKind::Text));
}

#[test]
fn read_arguments() {
    let a = parse_read_args(&obj(vec![("path", JsonValue::Str("f".to_string()))])).unwrap();
    assert_eq!((a.path.as_str(), a.offset, a.limit), ("f", 1, None));
    let a = parse_read_args(&obj(vec![
        ("path", JsonValue::Str("f".to_string())),
        ("offset", JsonValue::Number(JsonNumber::PosInt(0))),
        ("limit", JsonValue::Number(JsonNumber::PosInt(2))),
    ]))
    .unwrap();
    assert_eq!((a.offset, a.limit), (1, Some(2)));
    match parse_read_args(&obj(vec![])) {
        Err(ToolError::Execution(m)) => assert_eq!(m, "missing required parameter 'path'"),
        _ => panic!("expected an execution error"),
    }
}

#[test]
fn notices() {
    match pdf_notice("/r/a.pdf") {
        ToolResult::Error { message, recoverable } => {
            assert_eq!(message, "PDF files are not supported by read_file. File: /r/a.pdf — consider using a dedicated PDF tool.");
            assert!(recoverable);
        }
        _ => panic!("expected an error result"),
    }
    assert_eq!(text_of(binary_notice("/r/a.bin", 42)), "Binary file detected: /r/a.bin (42 bytes)");
    assert_eq!(text_of(unchanged_notice("/r/a.rs")), "[File unchanged since last read: /r/a.rs]");
}

#[test]
fn images_are_base64_encoded() {
    assert_eq!(text_of(image_result("/r/x.png", b"hi")), "[Image: /r/x.png (2 bytes, base64 encoded)]\naGk=");
    assert_eq!(text_of(image_result("/r/e.png", b"")), "[Image: /r/e.png (0 bytes, base64 encoded)]\n");
    assert_eq!(
        text_of(image_result("/r/y.png", &[0xff, 0xfe, 0xfd, 0x00])),
        "[Image: /r/y.png (4 bytes, base64 encoded)]\n//79AA=="
    );
}

#[test]
fn numbered_line_windows() {
    assert_eq!(numbered_lines("a\nb\nc\n", 1, None).unwrap(), "1\ta\n2\tb\n3\tc\n");
    assert_eq!(numbered_lines("a\nb\nc", 2, Some(1)).unwrap(), "2\tb\n");
    assert_eq!(numbered_lines("a\nb\nc", 9, None).unwrap(), "");
    assert_eq!(numbered_lines("a\r\nb", 1, Some(u64::MAX)).unwrap(), "1\ta\n2\tb\n");
    assert_eq!(numbered_lines("", 1, None).unwrap(), "");
    assert_eq!(numbered_lines("a\nb", 2, Some(u64::MAX)), None);
    assert_eq!(numbered_lines("a\nb", 9, Some(u64::MAX)), None);
    assert!(text_file_result(b"a\nb", 2, Some(u64::MAX), 100).is_none());
}

#[test]
fn text_files_are_decoded_lossily_and_cut() {
    assert_eq!(text_of(text_file_result(&[b'h', 0xff, b'\n', b'x'], 1, None, 1000).unwrap()), "1\th\u{FFFD}\n2\tx\n");
    assert_eq!(text_of(text_file_result(b"abcdef\n", 1, None, 4).unwrap()), "1\tab\n[truncated]");
}

#[test]
fn notebooks_render_cell_by_cell() {
    let nb = obj(vec![(
        "cells",
        JsonValue::Array(vec![
            obj(vec![
                ("cell_type", JsonValue::Str("markdown".to_string())),
                ("source", JsonValue::Array(vec![JsonValue::Str("# T\n".to_string()), JsonValue::Str("x".to_string())])),
            ]),
            obj(vec![("source", JsonValue::Str("print(1)".to_string()))]),
            obj(vec![("cell_type", JsonValue::Str("raw".to_string()))]),
        ]),
    )]);
    assert_eq!(
        text_of(render_notebook(&nb, "/r/nb.ipynb").unwrap()),
        "[Cell 1 (markdown)]\n# T\nx\n\n[Cell 2 (unknown)]\nprint(1)\n\n[Cell 3 (raw)]\n\n"
    );
    match render_notebook(&obj(vec![]), "/r/nb.ipynb") {
        Err(ToolError::Execution(m)) => assert_eq!(m, "no 'cells' array in notebook '/r/nb.ipynb'"),
        _ => panic!("expected an execution error"),
    }
}

#[test]
fn the_cache_remembers_per_session_and_path() {
    let mut cache = FileCache::new();
    assert!(!cache.check_and_record("s1", "/r/a", 7));
    assert!(cache.check_and_record("s1", "/r/a", 7));
    assert!(!cache.check_and_record("s2", "/r/a", 7));
    assert!(!cache.check_and_record("s1", "/r/a", 8));
    assert!(cache.check_and_record("s1", "/r/a", 8));
    clear_file_cache(&mut cache, "s1");
    assert!(!cache.check_and_record("s1", "/r/a", 8));
    assert!(cache.check_and_record("s2", "/r/a", 7));
    cache.clear_session("s2");
    assert!(!cache.check_and_record("s2", "/r/a", 7));
}

#[test]
fn reading_a_text_file_uses_the_cache() {
    let mut cache = FileCache::new();
    assert_eq!(text_of(read_text_file(&mut cache, "s", "/r/a.rs", b"x\ny", 1, None, 100).unwrap()), "1\tx\n2\ty\n");
    assert_eq!(text_of(read_text_file(&mut cache, "s", "/r/a.rs", b"x\ny", 2, None, 100).unwrap()), "[File unchanged since last read: /r/a.rs]");
    assert_eq!(text_of(read_text_file(&mut cache, "s", "/r/a.rs", b"x\nz", 2, None, 100).unwrap()), "2\tz\n");
    assert_eq!(text_of(read_text_file(&mut cache, "t", "/r/a.rs", b"x\nz", 1, Some(1), 100).unwrap()), "1\tx\n");
    assert_eq!(text_of(read_text_file(&mut cache, "s", "/r/b.bin", b"a\0b", 1, None, 100).unwrap()), "Binary file detected: /r/b.bin (3 bytes)");
    assert!(!cache.check_and_record("s", "/r/b.bin", 0));
}

#[test]
fn clearing_one_session_only_forgets_its_reads() {
    let mut cache = FileCache::new();
    let first = |c: &mut FileCache, s: &str| text_of(read_text_file(c, s, "/r/a.rs", b"x\ny", 1, None, 100).unwrap());
    assert_eq!(first(&mut cache, "s"), "1\tx\n2\ty\n");
    assert_eq!(first(&mut cache, "s2"), "1\tx\n2\ty\n");
    clear_file_cache(&mut cache, "s");
    assert_eq!(first(&mut cache, "s"), "1\tx\n2\ty\n");
    assert_eq!(first(&mut cache, "s2"), "[File unchanged since last read: /r/a.rs]");
}
