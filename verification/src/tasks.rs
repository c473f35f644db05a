//! Background tasks: requests to the process tool, how a task's status
//! evolves, which tasks are dropped, and the reports.
use vstd::prelude::*;

use crate::error::ToolError;
use crate::json::{str_field, u64_field, JsonValue};
use crate::text::{
    decimal, lines_of, owned, push_decimal, push_signed_decimal, push_str, signed_decimal, split_lines,
    str_eq, string_from_chars, to_chars, views,
};

verus! {

/// The kind of task being managed.
pub enum TaskKind {
    /// A shell command task.
    Shell { command: String },
    /// An agent-driven task (future use).
    Agent { goal: String },
}

/// Status of a managed task.
pub enum TaskStatus {
    /// Task is currently running.
    Running,
    /// Task completed with an optional exit code.
    Completed { exit_code: Option<i32> },
    /// Task failed with an error message.
    Failed(String),
}

/// A request to the process tool.
pub enum ProcessRequest {
    Start { command: String },
    List,
    Stop { id: u32 },
    Status { id: u32 },
}

/// A task id as given: the low 32 bits of the `pid` argument.
pub open spec fn pid_of(n: u64) -> u32 {
    (n % 0x1_0000_0000) as u32
}

/// The error of a request's arguments, if any.
pub open spec fn process_args_error(args: JsonValue) -> Option<Seq<char>> {
    match str_field(args, "action"@) {
        None => Some("missing required parameter 'action'"@),
        Some(a) => if a == "start"@ {
            if str_field(args, "command"@) is None {
                Some("'command' required for 'start' action"@)
            } else {
                None
            }
        } else if a == "list"@ {
            None
        } else if a == "stop"@ {
            if u64_field(args, "pid"@) is None {
                Some("'pid' required for 'stop' action"@)
            } else {
                None
            }
        } else if a == "status"@ {
            if u64_field(args, "pid"@) is None {
                Some("'pid' required for 'status' action"@)
            } else {
                None
            }
        } else {
            Some("unknown action: '"@ + a + "'"@)
        },
    }
}

/// `r` is the request `args` make.
pub open spec fn process_parsed_as(args: JsonValue, r: ProcessRequest) -> bool {
    let a = str_field(args, "action"@);
    match r {
        ProcessRequest::Start { command } => a == Some("start"@) && str_field(args, "command"@) == Some(command@),
        ProcessRequest::List => a == Some("list"@),
        ProcessRequest::Stop { id } => a == Some("stop"@) && (u64_field(args, "pid"@) matches Some(n) && id == pid_of(n)),
        ProcessRequest::Status { id } => a == Some("status"@) && (u64_field(args, "pid"@) matches Some(n) && id
            == pid_of(n)),
    }
}

fn low_bits(n: u64) -> (r: u32)
    ensures
        r == pid_of(n),
{
    (n % 0x1_0000_0000) as u32
}

/// Reads a request; the action decides which further argument it needs.
pub fn parse_process_request(args: &JsonValue) -> (r: Result<ProcessRequest, ToolError>)
    ensures
        r is Ok <==> process_args_error(*args) is None,
        r matches Ok(q) ==> process_parsed_as(*args, q),
        r matches Err(e) ==> process_args_error(*args) matches Some(m) && e matches ToolError::Execution(x) && x@ == m,
{
    let action = match args.str_field("action") {
        Some(a) => a,
        None => {
            return Err(ToolError::Execution(owned("missing required parameter 'action'")));
        },
    };
    if str_eq(action, "start") {
        match args.str_field("command") {
            Some(c) => Ok(ProcessRequest::Start { command: owned(c) }),
            None => Err(ToolError::Execution(owned("'command' required for 'start' action"))),
        }
    } else if str_eq(action, "list") {
        Ok(ProcessRequest::List)
    } else if str_eq(action, "stop") {
        match args.u64_field("pid") {
            Some(n) => Ok(ProcessRequest::Stop { id: low_bits(n) }),
            None => Err(ToolError::Execution(owned("'pid' required for 'stop' action"))),
        }
    } else if str_eq(action, "status") {
        match args.u64_field("pid") {
            Some(n) => Ok(ProcessRequest::Status { id: low_bits(n) }),
            None => Err(ToolError::Execution(owned("'pid' required for 'status' action"))),
        }
    } else {
        let mut m = owned("unknown action: '");
        push_str(&mut m, action);
        push_str(&mut m, "'");
        Err(ToolError::Execution(m))
    }
}

/// The text of a status.
pub open spec fn status_text(s: TaskStatus) -> Seq<char> {
    match s {
        TaskStatus::Running => "running"@,
        TaskStatus::Completed { exit_code } => "completed (exit: "@ + signed_decimal(
            match exit_code {
                Some(c) => c as int,
                None => -1,
            },
        ) + ")"@,
        TaskStatus::Failed(m) => "failed: "@ + m@,
    }
}

/// Format a task status for display.
pub fn format_status(status: &TaskStatus) -> (r: String)
    ensures
        r@ == status_text(*status),
{
    match status {
        TaskStatus::Running => owned("running"),
        TaskStatus::Completed { exit_code } => {
            let mut m = owned("completed (exit: ");
            let c: i64 = match exit_code {
                Some(c) => *c as i64,
                None => -1,
            };
            push_signed_decimal(&mut m, c);
            push_str(&mut m, ")");
            m
        },
        TaskStatus::Failed(msg) => {
            let mut m = owned("failed: ");
            push_str(&mut m, msg.as_str());
            m
        },
    }
}

/// What a check of a running task's process found.
pub enum WaitCheck {
    /// The process exited, with its code when it has one.
    Exited(Option<i32>),
    /// The process still runs.
    StillRunning,
    /// The check itself failed, with the error's text.
    CheckFailed(String),
}

/// The status after checking a task's process: only a running task changes,
/// to completed when its process exited or failed when the check failed.
pub fn status_after_check(status: TaskStatus, check: WaitCheck) -> (r: TaskStatus)
    ensures
        match status {
            TaskStatus::Running => match check {
                WaitCheck::Exited(c) => r == (TaskStatus::Completed { exit_code: c }),
                WaitCheck::StillRunning => r is Running,
                WaitCheck::CheckFailed(e) => r matches TaskStatus::Failed(m) && m@ == "check failed: "@ + e@,
            },
            _ => r == status,
        },
{
    match status {
        TaskStatus::Running => match check {
            WaitCheck::Exited(c) => TaskStatus::Completed { exit_code: c },
            WaitCheck::StillRunning => TaskStatus::Running,
            WaitCheck::CheckFailed(e) => {
                let mut m = owned("check failed: ");
                push_str(&mut m, e.as_str());
                TaskStatus::Failed(m)
            },
        },
        _ => status,
    }
}

/// A finished task older than five minutes is dropped from the list.
pub fn is_stale(status: &TaskStatus, elapsed_secs: u64) -> (r: bool)
    ensures
        r == (!(*status is Running) && elapsed_secs > 300),
{
    match status {
        TaskStatus::Running => false,
        _ => elapsed_secs > 300,
    }
}

/// The status of a task that is stopped: failed when it still had a
/// process to kill, unchanged otherwise.
pub fn status_after_stop(status: TaskStatus, had_process: bool) -> (r: TaskStatus)
    ensures
        had_process ==> (r matches TaskStatus::Failed(m) && m@ == "killed by user"@),
        !had_process ==> r == status,
{
    if had_process {
        TaskStatus::Failed(owned("killed by user"))
    } else {
        status
    }
}

/// The text a task is shown by: its command or its goal.
pub open spec fn kind_label(k: TaskKind) -> Seq<char> {
    match k {
        TaskKind::Shell { command } => command@,
        TaskKind::Agent { goal } => goal@,
    }
}

/// The command or goal of a task.
pub fn task_label(kind: &TaskKind) -> (r: &str)
    ensures
        r@ == kind_label(*kind),
{
    match kind {
        TaskKind::Shell { command } => command.as_str(),
        TaskKind::Agent { goal } => goal.as_str(),
    }
}

/// Hands out the next task id.
pub fn allocate_id(next: &mut u32) -> (id: u32)
    requires
        *old(next) < u32::MAX,
    ensures
        id == *old(next),
        *final(next) == *old(next) + 1,
{
    let id = *next;
    *next = *next + 1;
    id
}

/// The log file name of a task.
pub fn log_file_name(id: u32) -> (r: String)
    ensures
        r@ == decimal(id as nat) + ".log"@,
{
    let mut m = String::new();
    push_decimal(&mut m, id as u64);
    push_str(&mut m, ".log");
    m
}

/// The report of a started task.
pub fn start_report(id: u32, command: &str, log_shown: &str) -> (r: String)
    ensures
        r@ == "Started task #"@ + decimal(id as nat) + ": "@ + command@ + "\nLog: "@ + log_shown@,
{
    let mut m = owned("Started task #");
    push_decimal(&mut m, id as u64);
    push_str(&mut m, ": ");
    push_str(&mut m, command);
    push_str(&mut m, "\nLog: ");
    push_str(&mut m, log_shown);
    m
}

/// The report of a stopped task.
pub fn stop_report(id: u32, label: &str) -> (r: String)
    ensures
        r@ == "Stopped task #"@ + decimal(id as nat) + ": "@ + label@,
{
    let mut m = owned("Stopped task #");
    push_decimal(&mut m, id as u64);
    push_str(&mut m, ": ");
    push_str(&mut m, label);
    m
}

/// The error for an id no task has.
pub fn unknown_task(id: u32) -> (e: ToolError)
    ensures
        e matches ToolError::Execution(m) && m@ == "no managed task with ID "@ + decimal(id as nat),
{
    let mut m = owned("no managed task with ID ");
    push_decimal(&mut m, id as u64);
    ToolError::Execution(m)
}

/// One row of the task list.
pub struct TaskRow {
    pub id: u32,
    pub status: TaskStatus,
    pub elapsed_secs: u64,
    pub label: String,
}

pub open spec fn row_line(r: TaskRow) -> Seq<char> {
    decimal(r.id as nat) + "\t"@ + status_text(r.status) + "\t"@ + decimal(r.elapsed_secs as nat) + "s\t"@
        + r.label@ + "\n"@
}

pub open spec fn rows_lines(rows: Seq<TaskRow>) -> Seq<char>
    decreases rows.len(),
{
    if rows.len() == 0 {
        Seq::empty()
    } else {
        rows_lines(rows.drop_last()) + row_line(rows.last())
    }
}

/// The task list: a header and one line per task, or a notice when there
/// are none.
pub fn list_report(rows: &Vec<TaskRow>) -> (r: String)
    ensures
        r@ == if rows@.len() == 0 {
            "No managed tasks"@
        } else {
            "ID\tStatus\tElapsed\tCommand\n"@ + rows_lines(rows@)
        },
{
    if rows.len() == 0 {
        return owned("No managed tasks");
    }
    let mut out = owned("ID\tStatus\tElapsed\tCommand\n");
    let mut i: usize = 0;
    while i < rows.len()
        invariant
            i <= rows@.len(),
            out@ == "ID\tStatus\tElapsed\tCommand\n"@ + rows_lines(rows@.take(i as int)),
        decreases rows@.len() - i,
    {
        let r = &rows[i];
        push_decimal(&mut out, r.id as u64);
        push_str(&mut out, "\t");
        let s = format_status(&r.status);
        push_str(&mut out, s.as_str());
        push_str(&mut out, "\t");
        push_decimal(&mut out, r.elapsed_secs);
        push_str(&mut out, "s\t");
        push_str(&mut out, r.label.as_str());
        push_str(&mut out, "\n");
        proof {
            assert(rows@.take(i + 1).drop_last() =~= rows@.take(i as int));
        }
        assert(out@ =~= "ID\tStatus\tElapsed\tCommand\n"@ + rows_lines(rows@.take(i + 1)));
        i = i + 1;
    }
    assert(rows@.take(i as int) =~= rows@);
    out
}

/// Each line followed by a newline.
pub open spec fn line_block(ls: Seq<Seq<char>>) -> Seq<char>
    decreases ls.len(),
{
    if ls.len() == 0 {
        Seq::empty()
    } else {
        line_block(ls.drop_last()) + ls.last() + "\n"@
    }
}

/// The last (at most) 20 lines of a log, under a heading.
pub open spec fn log_tail(content: Seq<char>) -> Seq<char> {
    let ls = lines_of(content);
    let start = if ls.len() > 20 {
        ls.len() - 20
    } else {
        0
    };
    let tail = ls.skip(start);
    if tail.len() == 0 {
        Seq::empty()
    } else {
        "\n--- last "@ + decimal(tail.len()) + " lines ---\n"@ + line_block(tail)
    }
}

/// The status report of a task: id, status, elapsed time and command; then
/// its log path and, when the log could be read, its last lines.
pub open spec fn status_report_text(
    id: u32,
    status: TaskStatus,
    elapsed_secs: u64,
    label: Seq<char>,
    log: Option<(Seq<char>, Option<Seq<char>>)>,
) -> Seq<char> {
    "Task #"@ + decimal(id as nat) + "\nStatus: "@ + status_text(status) + "\nElapsed: "@ + decimal(
        elapsed_secs as nat,
    ) + "s\nCommand: "@ + label + "\n"@ + match log {
        None => Seq::empty(),
        Some((path, content)) => "Log: "@ + path + "\n"@ + match content {
            Some(c) => log_tail(c),
            None => Seq::empty(),
        },
    }
}

/// Formats the status report of a task.
pub fn status_report(
    id: u32,
    status: &TaskStatus,
    elapsed_secs: u64,
    label: &str,
    log_path: Option<&str>,
    log_content: Option<&str>,
) -> (r: String)
    ensures
        r@ == status_report_text(
            id,
            *status,
            elapsed_secs,
            label@,
            match log_path {
                Some(p) => Some(
                    (
                        p@,
                        match log_content {
                            Some(c) => Some(c@),
                            None => None,
                        },
                    ),
                ),
                None => None,
            },
        ),
{
    let mut out = owned("Task #");
    push_decimal(&mut out, id as u64);
    push_str(&mut out, "\nStatus: ");
    let s = format_status(status);
    push_str(&mut out, s.as_str());
    push_str(&mut out, "\nElapsed: ");
    push_decimal(&mut out, elapsed_secs);
    push_str(&mut out, "s\nCommand: ");
    push_str(&mut out, label);
    push_str(&mut out, "\n");
    let ghost head = out@;
    match log_path {
        None => {
            assert(out@ =~= head + Seq::<char>::empty());
        },
        Some(p) => {
            push_str(&mut out, "Log: ");
            push_str(&mut out, p);
            push_str(&mut out, "\n");
            let ghost mid = out@;
            match log_content {
                None => {
                    assert(out@ =~= mid + Seq::<char>::empty());
                },
                Some(c) => {
                    let cv = to_chars(c);
                    let lines = split_lines(cv.as_slice());
                    let ghost ls = lines_of(c@);
                    let start: usize = if lines.len() > 20 {
                        lines.len() - 20
                    } else {
                        0
                    };
                    let ghost tail = ls.skip(start as int);
                    if lines.len() - start > 0 {
                        push_str(&mut out, "\n--- last ");
                        crate::text::push_decimal_wide(&mut out, (lines.len() - start) as u128);
                        push_str(&mut out, " lines ---\n");
                        let ghost h2 = out@;
                        let mut i: usize = start;
                        while i < lines.len()
                            invariant
                                start <= i <= lines@.len(),
                                views(lines@) == ls,
                                tail == ls.skip(start as int),
                                out@ == h2 + line_block(tail.take(i - start)),
                            decreases lines@.len() - i,
                        {
                            let l = string_from_chars(lines[i].as_slice());
                            push_str(&mut out, l.as_str());
                            push_str(&mut out, "\n");
                            proof {
                                assert(views(lines@)[i as int] == lines@[i as int]@);
                                assert(tail.take(i + 1 - start).drop_last() =~= tail.take(i - start));
                                assert(tail.take(i + 1 - start).last() == ls[i as int]);
                            }
                            assert(out@ =~= h2 + line_block(tail.take(i + 1 - start)));
                            i = i + 1;
                        }
                        assert(tail.take(i - start) =~= tail);
                    } else {
                        assert(tail =~= Seq::<Seq<char>>::empty());
                    }
                    assert(out@ =~= mid + log_tail(c@));
                },
            }
        },
    }
    out
}

} // verus!
