//! The per-project TODO list: its requests, how each changes the list, and
//! what each reports.
use vstd::prelude::*;

use crate::error::ToolError;
use crate::json::{str_field, u64_field, JsonValue};
use crate::text::{decimal, owned, push_decimal, push_str, str_eq};

verus! {

/// A single TODO item.
pub struct TodoItem {
    pub id: u64,
    pub text: String,
    pub status: String,
    pub created_at: String,
}

/// The full TODO file structure.
pub struct TodoFile {
    pub next_id: u64,
    pub tasks: Vec<TodoItem>,
}

/// An item as plain values: id, text, status, creation time.
pub open spec fn item_view(t: TodoItem) -> (u64, Seq<char>, Seq<char>, Seq<char>) {
    (t.id, t.text@, t.status@, t.created_at@)
}

pub open spec fn items_of(f: TodoFile) -> Seq<(u64, Seq<char>, Seq<char>, Seq<char>)> {
    f.tasks@.map_values(|t: TodoItem| item_view(t))
}

/// Where the TODO list of a project is stored: `.cold/todo.json` under
/// its root.
pub fn todo_path(root: &str) -> (r: String)
    ensures
        r@ == crate::paths::joined_path(crate::paths::joined_path(root@, ".cold"@), "todo.json"@),
{
    let d = crate::paths::join_path(root, ".cold");
    crate::paths::join_path(d.as_str(), "todo.json")
}

impl TodoFile {
    /// The list used when none is stored yet: no tasks, ids from 1.
    pub fn fresh() -> (r: TodoFile)
        ensures
            r.next_id == 1,
            r.tasks@.len() == 0,
    {
        TodoFile { next_id: 1, tasks: Vec::new() }
    }
}

/// A request to the TODO tool.
pub enum TodoRequest {
    List,
    Add { text: String },
    Update { id: u64, status: String },
    Remove { id: u64 },
    Clear,
}

/// The error an argument object makes the request fail with, if any: a
/// missing action, an argument the action requires, or an unknown action.
pub open spec fn todo_args_error(args: JsonValue) -> Option<Seq<char>> {
    match str_field(args, "action"@) {
        None => Some("missing required parameter 'action'"@),
        Some(a) => if a == "list"@ || a == "clear"@ {
            None
        } else if a == "add"@ {
            if str_field(args, "task"@) is None {
                Some("'task' required for 'add' action"@)
            } else {
                None
            }
        } else if a == "update"@ {
            if u64_field(args, "id"@) is None {
                Some("'id' required for 'update' action"@)
            } else if str_field(args, "status"@) is None {
                Some("'status' required for 'update' action"@)
            } else {
                None
            }
        } else if a == "remove"@ {
            if u64_field(args, "id"@) is None {
                Some("'id' required for 'remove' action"@)
            } else {
                None
            }
        } else {
            Some("unknown action: '"@ + a + "'"@)
        },
    }
}

/// `r` is the request `args` makes (the request's own strings compared by
/// their characters).
pub open spec fn parsed_as(args: JsonValue, r: TodoRequest) -> bool {
    let a = str_field(args, "action"@);
    match r {
        TodoRequest::List => a == Some("list"@),
        TodoRequest::Add { text } => a == Some("add"@) && str_field(args, "task"@) == Some(text@),
        TodoRequest::Update { id, status } => a == Some("update"@) && u64_field(args, "id"@) == Some(id)
            && str_field(args, "status"@) == Some(status@),
        TodoRequest::Remove { id } => a == Some("remove"@) && u64_field(args, "id"@) == Some(id),
        TodoRequest::Clear => a == Some("clear"@),
    }
}

fn exec_err(m: &str) -> (e: ToolError)
    ensures
        e matches ToolError::Execution(s) && s@ == m@,
{
    ToolError::Execution(owned(m))
}

/// Reads the request from the tool's arguments; the action decides which
/// further arguments are required.
pub fn parse_todo_request(args: &JsonValue) -> (r: Result<TodoRequest, ToolError>)
    ensures
        r is Ok <==> todo_args_error(*args) is None,
        r matches Ok(q) ==> parsed_as(*args, q),
        r matches Err(e) ==> todo_args_error(*args) matches Some(m) && e matches ToolError::Execution(s)
            && s@ == m,
{
    let action = match args.str_field("action") {
        Some(a) => a,
        None => {
            return Err(exec_err("missing required parameter 'action'"));
        },
    };
    proof {
        reveal_strlit("clear");
        reveal_strlit("update");
        reveal_strlit("remove");
        reveal_strlit("add");
        assert("clear"@.len() == 5);
        assert("update"@.len() == 6);
        assert("remove"@.len() == 6);
        assert("add"@.len() == 3);
    }
    if str_eq(action, "list") {
        Ok(TodoRequest::List)
    } else if str_eq(action, "add") {
        match args.str_field("task") {
            Some(t) => Ok(TodoRequest::Add { text: owned(t) }),
            None => Err(exec_err("'task' required for 'add' action")),
        }
    } else if str_eq(action, "update") {
        let id = match args.u64_field("id") {
            Some(i) => i,
            None => {
                return Err(exec_err("'id' required for 'update' action"));
            },
        };
        match args.str_field("status") {
            Some(s) => Ok(TodoRequest::Update { id, status: owned(s) }),
            None => Err(exec_err("'status' required for 'update' action")),
        }
    } else if str_eq(action, "remove") {
        match args.u64_field("id") {
            Some(i) => Ok(TodoRequest::Remove { id: i }),
            None => Err(exec_err("'id' required for 'remove' action")),
        }
    } else if str_eq(action, "clear") {
        Ok(TodoRequest::Clear)
    } else {
        let mut m = owned("unknown action: '");
        push_str(&mut m, action);
        push_str(&mut m, "'");
        Err(ToolError::Execution(m))
    }
}

impl TodoRequest {
    /// Whether the request reads the stored list (all but `clear`).
    pub fn reads_list(&self) -> (r: bool)
        ensures
            r == !(*self is Clear),
    {
        match self {
            TodoRequest::Clear => false,
            _ => true,
        }
    }
}

/// The listing of the tasks: `  #id: [status] text` per line.
pub open spec fn task_lines(items: Seq<(u64, Seq<char>, Seq<char>, Seq<char>)>) -> Seq<char>
    decreases items.len(),
{
    if items.len() == 0 {
        Seq::empty()
    } else {
        let t = items.last();
        task_lines(items.drop_last()) + "  #"@ + decimal(t.0 as nat) + ": ["@ + t.2 + "] "@ + t.1 + "\n"@
    }
}

/// Position of the first item with this id.
pub open spec fn first_with_id(items: Seq<(u64, Seq<char>, Seq<char>, Seq<char>)>, id: u64) -> Option<int>
    decreases items.len(),
{
    if items.len() == 0 {
        None
    } else {
        match first_with_id(items.drop_last(), id) {
            Some(i) => Some(i),
            None => if items.last().0 == id {
                Some(items.len() - 1)
            } else {
                None
            },
        }
    }
}

/// The items without those of this id, in order.
pub open spec fn without_id(items: Seq<(u64, Seq<char>, Seq<char>, Seq<char>)>, id: u64) -> Seq<(u64, Seq<char>, Seq<char>, Seq<char>)>
    decreases items.len(),
{
    if items.len() == 0 {
        Seq::empty()
    } else if items.last().0 == id {
        without_id(items.drop_last(), id)
    } else {
        without_id(items.drop_last(), id).push(items.last())
    }
}

/// What a request reports and whether the list must then be stored.
pub struct TodoOutcome {
    pub message: String,
    pub save: bool,
}

proof fn lemma_first_with_id(items: Seq<(u64, Seq<char>, Seq<char>, Seq<char>)>, id: u64)
    ensures
        match first_with_id(items, id) {
            Some(i) => 0 <= i < items.len() && items[i].0 == id && forall|j: int| 0 <= j < i ==> items[j].0 != id,
            None => forall|j: int| 0 <= j < items.len() ==> items[j].0 != id,
        },
    decreases items.len(),
{
    if items.len() > 0 {
        lemma_first_with_id(items.drop_last(), id);
        assert forall|j: int| 0 <= j < items.len() - 1 implies items[j] == items.drop_last()[j] by {}
    }
}

proof fn lemma_first_with_id_at(items: Seq<(u64, Seq<char>, Seq<char>, Seq<char>)>, id: u64, i: int)
    requires
        0 <= i < items.len(),
        items[i].0 == id,
        forall|j: int| 0 <= j < i ==> items[j].0 != id,
    ensures
        first_with_id(items, id) == Some(i),
    decreases items.len(),
{
    if i < items.len() - 1 {
        lemma_first_with_id_at(items.drop_last(), id, i);
    } else {
        lemma_first_with_id(items.drop_last(), id);
    }
}

/// Applies a request to the list. `list` changes nothing; `add` appends a
/// pending task with the next id, created at `now_secs`; `update` sets the
/// status of the first task with the id; `remove` drops every task with
/// the id; `clear` empties the list and restarts ids at 1. Updating or
/// removing an id that no task has is an error and changes nothing.
pub fn apply_todo(file: &mut TodoFile, req: &TodoRequest, now_secs: u64) -> (r: Result<TodoOutcome, ToolError>)
    requires
        req is Add ==> old(file).next_id < u64::MAX,
    ensures
        match *req {
            TodoRequest::List => r matches Ok(o) && !o.save && final(file).next_id == old(file).next_id
                && items_of(*final(file)) == items_of(*old(file)) && o.message@ == if old(
                file,
            ).tasks@.len() == 0 {
                "No tasks."@
            } else {
                "Tasks:\n"@ + task_lines(items_of(*old(file)))
            },
            TodoRequest::Add { text } => r matches Ok(o) && o.save && final(file).next_id == old(file).next_id + 1
                && items_of(*final(file)) == items_of(*old(file)).push(
                (old(file).next_id, text@, "pending"@, decimal(now_secs as nat)),
            ) && o.message@ == "Added task #"@ + decimal(old(file).next_id as nat) + ": "@ + text@,
            TodoRequest::Update { id, status } => match first_with_id(items_of(*old(file)), id) {
                Some(i) => r matches Ok(o) && o.save && final(file).next_id == old(file).next_id
                    && items_of(*final(file)) == items_of(*old(file)).update(
                    i,
                    (id, items_of(*old(file))[i].1, status@, items_of(*old(file))[i].3),
                ) && o.message@ == "Updated task #"@ + decimal(id as nat) + " to status '"@ + status@ + "'"@,
                None => r matches Err(ToolError::Execution(m)) && m@ == "task #"@ + decimal(id as nat)
                    + " not found"@ && final(file).next_id == old(file).next_id && items_of(*final(file)) == items_of(*old(file)),
            },
            TodoRequest::Remove { id } => if without_id(items_of(*old(file)), id).len() == old(file).tasks@.len() {
                r matches Err(ToolError::Execution(m)) && m@ == "task #"@ + decimal(id as nat) + " not found"@
                    && final(file).next_id == old(file).next_id && items_of(*final(file)) == items_of(*old(file))
            } else {
                r matches Ok(o) && o.save && final(file).next_id == old(file).next_id && items_of(*final(file))
                    == without_id(items_of(*old(file)), id) && o.message@ == "Removed task #"@ + decimal(id as nat)
            },
            TodoRequest::Clear => r matches Ok(o) && o.save && final(file).next_id == 1 && final(file).tasks@.len()
                == 0 && o.message@ == "All tasks cleared."@,
        },
{
    let ghost before = items_of(*file);
    match req {
        TodoRequest::List => {
            if file.tasks.len() == 0 {
                return Ok(TodoOutcome { message: owned("No tasks."), save: false });
            }
            let mut out = owned("Tasks:\n");
            let mut i: usize = 0;
            while i < file.tasks.len()
                invariant
                    i <= file.tasks@.len(),
                    before == items_of(*file),
                    before == items_of(*old(file)),
                    file.next_id == old(file).next_id,
                    out@ == "Tasks:\n"@ + task_lines(before.take(i as int)),
                decreases file.tasks@.len() - i,
            {
                let t = &file.tasks[i];
                push_str(&mut out, "  #");
                push_decimal(&mut out, t.id);
                push_str(&mut out, ": [");
                push_str(&mut out, t.status.as_str());
                push_str(&mut out, "] ");
                push_str(&mut out, t.text.as_str());
                push_str(&mut out, "\n");
                proof {
                    assert(before.take(i + 1).drop_last() =~= before.take(i as int));
                    assert(before[i as int] == item_view(file.tasks@[i as int]));
                }
                assert(out@ =~= "Tasks:\n"@ + task_lines(before.take(i + 1)));
                i = i + 1;
            }
            assert(before.take(i as int) =~= before);
            assert(out@ == "Tasks:\n"@ + task_lines(before));
            Ok(TodoOutcome { message: out, save: false })
        },
        TodoRequest::Add { text } => {
            let id = file.next_id;
            file.next_id = file.next_id + 1;
            let mut created = String::new();
            push_decimal(&mut created, now_secs);
            assert(created@ =~= decimal(now_secs as nat));
            file.tasks.push(TodoItem { id, text: owned(text.as_str()), status: owned("pending"), created_at: created });
            assert(items_of(*file) =~= before.push((id, text@, "pending"@, decimal(now_secs as nat))));
            let mut m = owned("Added task #");
            push_decimal(&mut m, id);
            push_str(&mut m, ": ");
            push_str(&mut m, text.as_str());
            assert(m@ =~= "Added task #"@ + decimal(id as nat) + ": "@ + text@);
            Ok(TodoOutcome { message: m, save: true })
        },
        TodoRequest::Update { id, status } => {
            let mut i: usize = 0;
            while i < file.tasks.len()
                invariant
                    i <= file.tasks@.len(),
                    before == items_of(*file),
                    before == items_of(*old(file)),
                    file.next_id == old(file).next_id,
                    forall|j: int| 0 <= j < i ==> before[j].0 != *id,
                    *req == (TodoRequest::Update { id: *id, status: *status }),
                decreases file.tasks@.len() - i,
            {
                if file.tasks[i].id == *id {
                    proof {
                        lemma_first_with_id_at(before, *id, i as int);
                    }
                    let old_item = file.tasks.remove(i);
                    let item = TodoItem {
                        id: old_item.id,
                        text: old_item.text,
                        status: owned(status.as_str()),
                        created_at: old_item.created_at,
                    };
                    file.tasks.insert(i, item);
                    assert(items_of(*file) =~= before.update(i as int, (*id, before[i as int].1, status@, before[i as int].3)));
                    let mut m = owned("Updated task #");
                    push_decimal(&mut m, *id);
                    push_str(&mut m, " to status '");
                    push_str(&mut m, status.as_str());
                    push_str(&mut m, "'");
                    assert(m@ =~= "Updated task #"@ + decimal(*id as nat) + " to status '"@ + status@ + "'"@);

                    return Ok(TodoOutcome { message: m, save: true });
                }
                i = i + 1;
            }
            proof {
                lemma_first_with_id(before, *id);
                if let Some(j) = first_with_id(before, *id) {
                    assert(before[j].0 != *id);
                }
            }
            let mut m = owned("task #");
            push_decimal(&mut m, *id);
            push_str(&mut m, " not found");
            assert(m@ =~= "task #"@ + decimal(*id as nat) + " not found"@);
            Err(ToolError::Execution(m))
        },
        TodoRequest::Remove { id } => {
            let ghost orig = *file;
            let mut kept: Vec<TodoItem> = Vec::new();
            let mut rest: Vec<TodoItem> = Vec::new();
            std::mem::swap(&mut rest, &mut file.tasks);
            let ghost all = rest@;
            assert(all == orig.tasks@);
            let mut i: usize = 0;
            let n = rest.len();
            assert(all.skip(0) =~= all);
            assert(before.take(0) =~= Seq::<(u64, Seq<char>, Seq<char>, Seq<char>)>::empty());
            assert(kept@ =~= all.take(0));
            while rest.len() > 0
                invariant
                    i + rest@.len() == n == all.len(),
                    rest@ == all.skip(i as int),
                    before == all.map_values(|t: TodoItem| item_view(t)),
                    kept@.map_values(|t: TodoItem| item_view(t)) == without_id(before.take(i as int), *id),
                    kept@.len() <= i,
                    kept@.len() == i ==> kept@ == all.take(i as int),
                decreases rest@.len(),
            {
                let t = rest.remove(0);
                proof {
                    assert(t == all[i as int]);
                    assert(rest@ =~= all.skip(i + 1));
                    assert(before.take(i + 1).drop_last() =~= before.take(i as int));
                    assert(before.take(i + 1).last() == item_view(t));
                }
                if t.id != *id {
                    let ghost k0 = kept@;
                    kept.push(t);
                    assert(kept@.map_values(|t: TodoItem| item_view(t)) =~= k0.map_values(|t: TodoItem| item_view(t)).push(item_view(all[i as int])));
                    proof {
                        if k0.len() == i {
                            assert(kept@ =~= all.take(i + 1));
                        }
                    }
                }
                i = i + 1;
            }
            assert(before.take(i as int) =~= before);
            if kept.len() == n {
                assert(kept@ =~= all);
                file.tasks = kept;
                let mut m = owned("task #");
                push_decimal(&mut m, *id);
                push_str(&mut m, " not found");
                assert(m@ =~= "task #"@ + decimal(*id as nat) + " not found"@);
                return Err(ToolError::Execution(m));
            }
            file.tasks = kept;
            let mut m = owned("Removed task #");
            push_decimal(&mut m, *id);
            assert(m@ =~= "Removed task #"@ + decimal(*id as nat));
            Ok(TodoOutcome { message: m, save: true })
        },
        TodoRequest::Clear => {
            file.next_id = 1;
            file.tasks = Vec::new();
            Ok(TodoOutcome { message: owned("All tasks cleared."), save: true })
        },
    }
}

} // verus!
