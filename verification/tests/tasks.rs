use cold_tools::error::ToolError;
use cold_tools::json::{JsonNumber, JsonValue};
use cold_tools::tasks::{
    allocate_id, format_status, is_stale, list_report, log_file_name, parse_process_request,
    start_report, status_after_check, status_after_stop, status_report, stop_report, task_label,
    unknown_task, ProcessRequest, TaskKind, TaskRow, TaskStatus, WaitCheck,
};

fn obj(pairs: Vec<(&str, JsonValue)>) -> JsonValue {
    JsonValue::Object(pairs.into_iter().map(|(k, v)| (k.to_string(), v)).collect())
}

fn s(t: &str) -> JsonValue {
    JsonValue::Str(t.to_string())
}

fn message(e: ToolError) -> String {
    match e {
        ToolError::Execution(m) => m,
        _ => panic!("expected an execution error"),
    }
}

#[test]
fn process_requests() {
    match parse_process_request(&obj(vec![("action", s("start")), ("command", s("sleep 1"))])).unwrap() {
        ProcessRequest::Start { command } => assert_eq!(command, "sleep 1"),
        _ => panic!("expected start"),
    }
    let big = (1u64 << 32) + 7;
    match parse_process_request(&obj(vec![("action", s("stop")), ("pid", JsonValue::Number(JsonNumber::PosInt(big)))])).unwrap() {
        ProcessRequest::Stop { id } => assert_eq!(id, 7),
        _ => panic!("expected stop"),
    }
    assert!(matches!(parse_process_request(&obj(vec![("action", s("list"))])).unwrap(), ProcessRequest::List));
    assert_eq!(message(parse_process_request(&obj(vec![])).err().unwrap()), "missing required parameter 'action'");
    assert_eq!(
        message(parse_process_request(&obj(vec![("action", s("start"))])).err().unwrap()),
        "'command' required for 'start' action"
    );
    assert_eq!(
        message(parse_process_request(&obj(vec![("action", s("status"))])).err().unwrap()),
        "'pid' required for 'status' action"
    );
    assert_eq!(
        message(parse_process_request(&obj(vec![("action", s("restart"))])).err().unwrap()),
        "unknown action: 'restart'"
    );
}

#[test]
fn status_transitions() {
    assert_eq!(format_status(&status_after_check(TaskStatus::Running, WaitCheck::Exited(Some(3)))), "completed (exit: 3)");
    assert_eq!(format_status(&status_after_check(TaskStatus::Running, WaitCheck::Exited(None))), "completed (exit: -1)");
    assert_eq!(format_status(&status_after_check(TaskStatus::Running, WaitCheck::StillRunning)), "running");
    assert_eq!(
        format_status(&status_after_check(TaskStatus::Running, WaitCheck::CheckFailed("io".to_string()))),
        "failed: check failed: io"
    );
    assert_eq!(
        format_status(&status_after_check(TaskStatus::Failed("x".to_string()), WaitCheck::Exited(Some(0)))),
        "failed: x"
    );
    assert_eq!(format_status(&status_after_stop(TaskStatus::Running, true)), "failed: killed by user");
    assert_eq!(format_status(&status_after_stop(TaskStatus::Running, false)), "running");
    assert!(is_stale(&TaskStatus::Completed { exit_code: Some(0) }, 301));
    assert!(!is_stale(&TaskStatus::Completed { exit_code: Some(0) }, 300));
    assert!(!is_stale(&TaskStatus::Running, 1000));
}

#[test]
fn ids_and_reports() {
    let mut next = 1u32;
    assert_eq!(allocate_id(&mut next), 1);
    assert_eq!(allocate_id(&mut next), 2);
    assert_eq!(next, 3);
    assert_eq!(log_file_name(12), "12.log");
    assert_eq!(start_report(1, "make", "/r/.cold/tasks/1.log"), "Started task #1: make\nLog: /r/.cold/tasks/1.log");
    assert_eq!(stop_report(4, "make"), "Stopped task #4: make");
    assert_eq!(message(unknown_task(9)), "no managed task with ID 9");
    assert_eq!(task_label(&TaskKind::Agent { goal: "g".to_string() }), "g");
}

#[test]
fn task_list() {
    assert_eq!(list_report(&vec![]), "No managed tasks");
    let rows = vec![
        TaskRow { id: 1, status: TaskStatus::Running, elapsed_secs: 5, label: "make".to_string() },
        TaskRow { id: 2, status: TaskStatus::Completed { exit_code: Some(0) }, elapsed_secs: 70, label: "ls".to_string() },
    ];
    assert_eq!(
        list_report(&rows),
        "ID\tStatus\tElapsed\tCommand\n1\trunning\t5s\tmake\n2\tcompleted (exit: 0)\t70s\tls\n"
    );
}

#[test]
fn task_status_report_with_log_tail() {
    let log: String = (1..=22).map(|i| format!("l{}\n", i)).collect();
    let r = status_report(3, &TaskStatus::Running, 9, "make", Some("/r/3.log"), Some(&log));
    let mut expected = String::from("Task #3\nStatus: running\nElapsed: 9s\nCommand: make\nLog: /r/3.log\n\n--- last 20 lines ---\n");
    for i in 3..=22 {
        expected.push_str(&format!("l{}\n", i));
    }
    assert_eq!(r, expected);
    assert_eq!(
        status_report(3, &TaskStatus::Running, 9, "make", None, None),
        "Task #3\nStatus: running\nElapsed: 9s\nCommand: make\n"
    );
    assert_eq!(
        status_report(3, &TaskStatus::Running, 9, "make", Some("/r/3.log"), Some("")),
        "Task #3\nStatus: running\nElapsed: 9s\nCommand: make\nLog: /r/3.log\n"
    );
}
