use cold_tools::json::{JsonNumber, JsonValue};
use cold_tools::listing::{format_listing, is_listed, parse_list_args, sort_entries, EntryKind, ListEntry};

fn entry(name: &str, kind: EntryKind, size: Option<&str>) -> ListEntry {
    ListEntry { name: name.to_string(), kind, size: size.map(|s| s.to_string()) }
}

#[test]
fn listing_arguments_default() {
    let a = parse_list_args(&JsonValue::Object(vec![]));
    assert_eq!((a.path.as_str(), a.depth, a.show_hidden), (".", 1, false));
    let a = parse_list_args(&JsonValue::Object(vec![
        ("path".to_string(), JsonValue::Str("src".to_string())),
        ("depth".to_string(), JsonValue::Number(JsonNumber::PosInt(3))),
        ("show_hidden".to_string(), JsonValue::Bool(true)),
    ]));
    assert_eq!((a.path.as_str(), a.depth, a.show_hidden), ("src", 3, true));
}

#[test]
fn hidden_entries_only_on_request() {
    assert!(!is_listed(false, ".git"));
    assert!(is_listed(true, ".git"));
    assert!(is_listed(false, "src"));
    assert!(is_listed(false, ""));
}

#[test]
fn directories_first_then_by_name() {
    let sorted = sort_entries(vec![
        entry("b.txt", EntryKind::File, Some("12 B")),
        entry("src", EntryKind::Dir, None),
        entry("link", EntryKind::Symlink, None),
        entry("a.rs", EntryKind::File, Some("1.0 KB")),
        entry("docs", EntryKind::Dir, None),
    ]);
    let names: Vec<&str> = sorted.iter().map(|e| e.name.as_str()).collect();
    assert_eq!(names, vec!["docs", "src", "a.rs", "b.txt", "link"]);
}

#[test]
fn aligned_table() {
    let sorted = sort_entries(vec![
        entry("b.txt", EntryKind::File, Some("12 B")),
        entry("src", EntryKind::Dir, None),
        entry("link", EntryKind::Symlink, None),
        entry("a.rs", EntryKind::File, Some("1.0 KB")),
    ]);
    assert_eq!(
        format_listing(&sorted, "/p"),
        "src    dir      -\na.rs   file     1.0 KB\nb.txt  file     12 B\nlink   symlink  -\n"
    );
}

#[test]
fn widths_count_bytes_padding_counts_characters() {
    let entries = vec![entry("é", EntryKind::File, None), entry("ab", EntryKind::File, None)];
    assert_eq!(format_listing(&entries, "/p"), "é   file  -\nab  file  -\n");
}

#[test]
fn empty_directory() {
    assert_eq!(format_listing(&vec![], "/p/empty"), "Empty directory: '/p/empty'");
}
