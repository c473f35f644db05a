use cold_tools::edits::{
    cell_can_take_source, cell_edit_report, parse_cell_edit_args, parse_edit_args,
    parse_write_args, plan_edit, replace_matches, set_cell_source, write_report, EditArgs,
};
use cold_tools::error::ToolError;
use cold_tools::json::{JsonNumber, JsonValue};

fn obj(pairs: Vec<(&str, JsonValue)>) -> JsonValue {
    JsonValue::Object(pairs.into_iter().map(|(k, v)| (k.to_string(), v)).collect())
}

fn s(t: &str) -> JsonValue {
    JsonValue::Str(t.to_string())
}

fn exec_message(e: ToolError) -> String {
    match e {
        ToolError::Execution(m) => m,
        _ => panic!("expected an execution error"),
    }
}

fn edit(old: &str, new: &str, all: bool) -> EditArgs {
    EditArgs { path: "f.txt".to_string(), old_string: old.to_string(), new_string: new.to_string(), replace_all: all }
}

#[test]
fn replace_counts_non_overlapping_matches() {
    assert_eq!(replace_matches("a-b-a", "a", "x", true), (2, "x-b-x".to_string()));
    assert_eq!(replace_matches("a-b-a", "a", "x", false), (2, "x-b-a".to_string()));
    assert_eq!(replace_matches("aaa", "aa", "x", true), (1, "xa".to_string()));
    assert_eq!(replace_matches("abc", "z", "x", true), (0, "abc".to_string()));
    assert_eq!(replace_matches("ab", "", "-", true), (3, "-a-b-".to_string()));
    assert_eq!(replace_matches("ab", "", "-", false), (3, "-ab".to_string()));
}

#[test]
fn single_match_with_replace_all_equals_replace_first() {
    assert_eq!(replace_matches("x=1;", "1", "2", true), replace_matches("x=1;", "1", "2", false));
}

#[test]
fn plan_edit_outcomes() {
    let (content, report) = plan_edit("let x = 1;", &edit("1", "2", false), "f.txt").unwrap();
    assert_eq!(content, "let x = 2;");
    assert_eq!(report, "Replaced 1 occurrence(s) in 'f.txt'");
    assert_eq!(
        exec_message(plan_edit("abc", &edit("z", "y", false), "f.txt").err().unwrap()),
        "old_string not found in 'f.txt'"
    );
    assert_eq!(
        exec_message(plan_edit("a a", &edit("a", "b", false), "f.txt").err().unwrap()),
        "old_string found 2 times in 'f.txt' — use replace_all=true or provide a more specific string"
    );
    let (content, report) = plan_edit("a a", &edit("a", "b", true), "f.txt").unwrap();
    assert_eq!(content, "b b");
    assert_eq!(report, "Replaced 2 occurrence(s) in 'f.txt'");
}

#[test]
fn edit_arguments() {
    let a = parse_edit_args(&obj(vec![
        ("path", s("p")),
        ("old_string", s("o")),
        ("new_string", s("n")),
        ("replace_all", JsonValue::Bool(true)),
    ]))
    .unwrap();
    assert_eq!((a.path.as_str(), a.old_string.as_str(), a.new_string.as_str(), a.replace_all), ("p", "o", "n", true));
    let a = parse_edit_args(&obj(vec![("path", s("p")), ("old_string", s("o")), ("new_string", s("n"))])).unwrap();
    assert!(!a.replace_all);
    assert_eq!(
        exec_message(parse_edit_args(&obj(vec![("path", s("p"))])).err().unwrap()),
        "missing required parameter 'old_string'"
    );
    assert_eq!(
        exec_message(parse_edit_args(&obj(vec![("path", s("p")), ("old_string", s("o"))])).err().unwrap()),
        "missing required parameter 'new_string'"
    );
}

#[test]
fn write_arguments_and_report() {
    let a = parse_write_args(&obj(vec![("path", s("p")), ("content", s("c"))])).unwrap();
    assert_eq!((a.path.as_str(), a.content.as_str()), ("p", "c"));
    assert_eq!(
        exec_message(parse_write_args(&obj(vec![])).err().unwrap()),
        "missing required parameter 'path'"
    );
    assert_eq!(
        exec_message(parse_write_args(&obj(vec![("path", s("p"))])).err().unwrap()),
        "missing required parameter 'content'"
    );
    assert_eq!(write_report("héllo", "out/f.txt"), "Wrote 6 bytes to 'out/f.txt'");
}

fn notebook(cells: Vec<JsonValue>) -> JsonValue {
    obj(vec![("nbformat", JsonValue::Number(JsonNumber::PosInt(4))), ("cells", JsonValue::Array(cells))])
}

#[test]
fn cell_source_is_replaced_by_lines() {
    let nb = notebook(vec![obj(vec![("cell_type", s("code")), ("source", JsonValue::Array(vec![]))])]);
    assert!(cell_can_take_source(&nb, 0));
    let out = set_cell_source(nb, 0, "a\nb").unwrap();
    let cells = out.get("cells").unwrap().as_array().unwrap();
    let source = cells[0].get("source").unwrap().as_array().unwrap();
    assert_eq!(source.len(), 2);
    assert_eq!(source[0].as_str(), Some("a\n"));
    assert_eq!(source[1].as_str(), Some("b"));
    assert_eq!(cells[0].get("cell_type").unwrap().as_str(), Some("code"));
    assert_eq!(out.get("nbformat").unwrap().as_u64(), Some(4));
}

#[test]
fn empty_source_is_one_empty_line_and_null_cell_becomes_object() {
    let nb = notebook(vec![JsonValue::Null]);
    let out = set_cell_source(nb, 0, "").unwrap();
    let cells = out.get("cells").unwrap().as_array().unwrap();
    let source = cells[0].get("source").unwrap().as_array().unwrap();
    assert_eq!(source.len(), 1);
    assert_eq!(source[0].as_str(), Some(""));
}

#[test]
fn cell_edit_errors() {
    let nb = notebook(vec![obj(vec![])]);
    assert_eq!(
        exec_message(set_cell_source(nb, 3, "x").err().unwrap()),
        "cell_index 3 out of range (notebook has 1 cells)"
    );
    assert_eq!(
        exec_message(set_cell_source(obj(vec![]), 0, "x").err().unwrap()),
        "notebook has no 'cells' array"
    );
    assert!(!cell_can_take_source(&notebook(vec![s("text")]), 0));
    assert!(cell_can_take_source(&notebook(vec![s("text")]), 1));
    assert_eq!(cell_edit_report(2, "nb.ipynb"), "Updated cell 2 in 'nb.ipynb'");
    let a = parse_cell_edit_args(&obj(vec![
        ("path", s("nb.ipynb")),
        ("cell_index", JsonValue::Number(JsonNumber::PosInt(1))),
        ("new_source", s("x")),
    ]))
    .unwrap();
    assert_eq!(a.cell_index, 1);
    assert_eq!(
        exec_message(parse_cell_edit_args(&obj(vec![("path", s("p")), ("cell_index", s("1"))])).err().unwrap()),
        "missing required parameter 'cell_index'"
    );
}
