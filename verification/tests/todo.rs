use cold_tools::error::ToolError;
use cold_tools::json::{JsonNumber, JsonValue};
use cold_tools::todo::{apply_todo, parse_todo_request, todo_path, TodoFile, TodoRequest};

fn obj(pairs: Vec<(&str, JsonValue)>) -> JsonValue {
    JsonValue::Object(pairs.into_iter().map(|(k, v)| (k.to_string(), v)).collect())
}

fn s(t: &str) -> JsonValue {
    JsonValue::Str(t.to_string())
}

fn n(v: u64) -> JsonValue {
    JsonValue::Number(JsonNumber::PosInt(v))
}

fn exec_message(e: ToolError) -> String {
    match e {
        ToolError::Execution(m) => m,
        _ => panic!("expected an execution error"),
    }
}

fn run(file: &mut TodoFile, args: JsonValue, now: u64) -> Result<(String, bool), String> {
    let req = parse_todo_request(&args).map_err(exec_message)?;
    apply_todo(file, &req, now).map(|o| (o.message, o.save)).map_err(exec_message)
}

#[test]
fn add_list_update_remove_clear() {
    let mut file = TodoFile::fresh();
    assert_eq!(run(&mut file, obj(vec![("action", s("list"))]), 0), Ok(("No tasks.".to_string(), false)));
    assert_eq!(
        run(&mut file, obj(vec![("action", s("add")), ("task", s("write tests"))]), 1700),
        Ok(("Added task #1: write tests".to_string(), true))
    );
    assert_eq!(
        run(&mut file, obj(vec![("action", s("add")), ("task", s("ship"))]), 1800),
        Ok(("Added task #2: ship".to_string(), true))
    );
    assert_eq!(file.next_id, 3);
    assert_eq!(file.tasks[0].created_at, "1700");
    assert_eq!(file.tasks[0].status, "pending");
    assert_eq!(
        run(&mut file, obj(vec![("action", s("update")), ("id", n(1)), ("status", s("done"))]), 0),
        Ok(("Updated task #1 to status 'done'".to_string(), true))
    );
    assert_eq!(
        run(&mut file, obj(vec![("action", s("list"))]), 0),
        Ok(("Tasks:\n  #1: [done] write tests\n  #2: [pending] ship\n".to_string(), false))
    );
    assert_eq!(
        run(&mut file, obj(vec![("action", s("remove")), ("id", n(1))]), 0),
        Ok(("Removed task #1".to_string(), true))
    );
    assert_eq!(file.tasks.len(), 1);
    assert_eq!(
        run(&mut file, obj(vec![("action", s("clear"))]), 0),
        Ok(("All tasks cleared.".to_string(), true))
    );
    assert_eq!(file.next_id, 1);
    assert!(file.tasks.is_empty());
}

#[test]
fn todo_errors() {
    let mut file = TodoFile::fresh();
    assert_eq!(run(&mut file, obj(vec![]), 0), Err("missing required parameter 'action'".to_string()));
    assert_eq!(run(&mut file, obj(vec![("action", s("add"))]), 0), Err("'task' required for 'add' action".to_string()));
    assert_eq!(
        run(&mut file, obj(vec![("action", s("update")), ("id", n(1))]), 0),
        Err("'status' required for 'update' action".to_string())
    );
    assert_eq!(
        run(&mut file, obj(vec![("action", s("update")), ("status", s("x"))]), 0),
        Err("'id' required for 'update' action".to_string())
    );
    assert_eq!(run(&mut file, obj(vec![("action", s("remove"))]), 0), Err("'id' required for 'remove' action".to_string()));
    assert_eq!(run(&mut file, obj(vec![("action", s("purge"))]), 0), Err("unknown action: 'purge'".to_string()));
    assert_eq!(
        run(&mut file, obj(vec![("action", s("remove")), ("id", n(9))]), 0),
        Err("task #9 not found".to_string())
    );
    assert_eq!(
        run(&mut file, obj(vec![("action", s("update")), ("id", n(9)), ("status", s("x"))]), 0),
        Err("task #9 not found".to_string())
    );
    assert_eq!(file.next_id, 1);
}

#[test]
fn only_clear_skips_reading_the_list() {
    assert!(!TodoRequest::Clear.reads_list());
    assert!(TodoRequest::List.reads_list());
    assert!(TodoRequest::Remove { id: 1 }.reads_list());
}

#[test]
fn todo_file_location() {
    assert_eq!(todo_path("/work"), "/work/.cold/todo.json");
}
