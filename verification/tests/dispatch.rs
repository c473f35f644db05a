use cold_tools::dispatch::{
    blocked_in_batch, collect_results, first_missing, guard_gate, output_cap, settle_call,
    sibling_aborted, signals_abort, task_panicked, unavailable_tool, CallOutcome,
};
use cold_tools::error::ToolError;
use cold_tools::guardrails::GuardrailDecision;
use cold_tools::limits::OutputLimits;
use cold_tools::tool::ToolResult;

fn message(e: &ToolError) -> String {
    e.message()
}

#[test]
fn guardrail_decisions_gate_calls() {
    match guard_gate(&GuardrailDecision::Block("stop".to_string())) {
        Err(ToolError::Blocked(m)) => assert_eq!(m, "stop"),
        _ => panic!("expected a block"),
    }
    assert_eq!(guard_gate(&GuardrailDecision::Warn("careful".to_string())).unwrap(), Some("Warning: careful".to_string()));
    assert_eq!(guard_gate(&GuardrailDecision::Allow).unwrap(), None);
}

#[test]
fn calls_settle_with_success_flag_or_timeout() {
    let (ok, res) = settle_call("t", CallOutcome::Finished(Ok(ToolResult::text("x"))), 5);
    assert!(ok);
    assert_eq!(res.unwrap().as_text(), "x");
    let (ok, res) = settle_call("t", CallOutcome::Finished(Err(ToolError::Execution("bad".to_string()))), 5);
    assert!(!ok);
    assert_eq!(message(&res.err().unwrap()), "tool execution failed: bad");
    let (ok, res) = settle_call("terminal", CallOutcome::TimedOut, 120);
    assert!(!ok);
    assert_eq!(message(&res.err().unwrap()), "tool 'terminal' timed out after 120s");
}

#[test]
fn output_cap_is_the_smaller_limit() {
    let limits = OutputLimits::default();
    assert_eq!(output_cap(10_000, &limits), 10_000);
    assert_eq!(output_cap(100_000, &limits), 50_000);
}

#[test]
fn what_aborts_siblings() {
    assert!(signals_abort(&Err(ToolError::NotFound("x".to_string()))));
    assert!(signals_abort(&Ok(ToolResult::error("fatal", false))));
    assert!(!signals_abort(&Ok(ToolResult::error("retry", true))));
    assert!(!signals_abort(&Ok(ToolResult::text("fine"))));
    assert!(!signals_abort(&Ok(ToolResult::Empty)));
}

#[test]
fn batch_errors() {
    assert_eq!(message(&blocked_in_batch()), "blocked by guardrails: blocked by guardrails");
    assert_eq!(message(&sibling_aborted()), "tool execution failed: aborted: sibling task failed");
    assert_eq!(message(&unavailable_tool("web")), "tool not found: tool 'web' exists but is not available");
    assert_eq!(message(&task_panicked("boom")), "tool execution failed: task panicked: boom");
}

#[test]
fn batch_results_keep_call_order() {
    let slots = vec![Some(Ok(ToolResult::text("a"))), None, Some(Err(blocked_in_batch())), None];
    assert_eq!(first_missing(&slots), Some(1));
    let out = collect_results(slots);
    assert_eq!(out.len(), 4);
    assert_eq!(out[0].as_ref().unwrap().as_text(), "a");
    assert_eq!(message(out[1].as_ref().err().unwrap()), "tool execution failed: result missing");
    assert!(matches!(out[2], Err(ToolError::Blocked(_))));
    assert!(out[3].is_err());
    let full: Vec<Option<Result<ToolResult, ToolError>>> = vec![Some(Ok(ToolResult::Empty))];
    assert_eq!(first_missing(&full), None);
}
