use cold_tools::dispatch::precheck_batch;
use cold_tools::error::ToolError;
use cold_tools::guardrails::{GuardrailConfig, GuardrailController, GuardrailDecision};
use cold_tools::json::{JsonDoc, JsonValue};

fn path_doc(p: &str) -> JsonDoc {
    JsonDoc {
        value: JsonValue::Object(vec![("path".to_string(), JsonValue::Str(p.to_string()))]),
        text: format!("{{\"path\":\"{}\"}}", p),
    }
}

fn fail(ctrl: &mut GuardrailController, name: &str, args: &JsonDoc) -> GuardrailDecision {
    let d = ctrl.before_call(name, args);
    ctrl.after_call(name, args, false);
    ctrl.before_call("other", args);
    d
}

#[test]
fn default_thresholds_warn_at_two_and_block_at_five() {
    let mut ctrl = GuardrailController::new(GuardrailConfig::default());
    let args = path_doc("missing.rs");
    assert_eq!(fail(&mut ctrl, "read_file", &args), GuardrailDecision::Allow);
    assert_eq!(fail(&mut ctrl, "read_file", &args), GuardrailDecision::Allow);
    assert_eq!(
        fail(&mut ctrl, "read_file", &args),
        GuardrailDecision::Warn("identical call to 'read_file' has failed 2 times".to_string())
    );
    fail(&mut ctrl, "read_file", &args);
    fail(&mut ctrl, "read_file", &args);
    assert_eq!(
        ctrl.before_call("read_file", &args),
        GuardrailDecision::Block("identical call to 'read_file' failed 5 times (limit: 5)".to_string())
    );
}

#[test]
fn a_success_clears_the_failures_of_the_call() {
    let mut ctrl = GuardrailController::new(GuardrailConfig { exact_failure_warn_after: 1, ..GuardrailConfig::default() });
    let args = path_doc("a.rs");
    fail(&mut ctrl, "read_file", &args);
    assert!(matches!(ctrl.before_call("read_file", &args), GuardrailDecision::Warn(_)));
    ctrl.after_call("read_file", &args, true);
    assert_eq!(ctrl.before_call("read_file", &args), GuardrailDecision::Allow);
}

#[test]
fn failures_are_counted_per_exact_call() {
    let mut ctrl = GuardrailController::new(GuardrailConfig { exact_failure_warn_after: 1, ..GuardrailConfig::default() });
    fail(&mut ctrl, "read_file", &path_doc("a.rs"));
    assert_eq!(ctrl.before_call("read_file", &path_doc("b.rs")), GuardrailDecision::Allow);
    assert!(matches!(ctrl.before_call("read_file", &path_doc("a.rs")), GuardrailDecision::Warn(_)));
}

#[test]
fn the_streak_limit_names_the_tool() {
    let mut ctrl = GuardrailController::new(GuardrailConfig { same_tool_halt_after: 2, ..GuardrailConfig::default() });
    let args = path_doc("x");
    assert_eq!(ctrl.before_call("think", &args), GuardrailDecision::Allow);
    let d = ctrl.before_call("think", &args);
    assert_eq!(d, GuardrailDecision::Block("tool 'think' called 2 consecutive times (limit: 2)".to_string()));
    assert!(!d.allows_execution());
    assert_eq!(ctrl.before_call("read_file", &args), GuardrailDecision::Allow);
    assert!(GuardrailDecision::Warn("w".to_string()).allows_execution());
    assert!(ctrl.can_call("read_file"));
    assert!(ctrl.can_record_failure("read_file", &args));
}

#[test]
fn a_batch_is_checked_call_by_call() {
    let mut ctrl = GuardrailController::new(GuardrailConfig {
        same_tool_halt_after: 2,
        exact_failure_warn_after: 1,
        ..GuardrailConfig::default()
    });
    let failing = path_doc("bad.rs");
    ctrl.before_call("read_file", &failing);
    ctrl.after_call("read_file", &failing, false);
    ctrl.reset_for_turn();
    let calls = vec![
        ("read_file".to_string(), path_doc("bad.rs")),
        ("glob".to_string(), path_doc("x")),
        ("glob".to_string(), path_doc("y")),
    ];
    let gates = precheck_batch(&mut ctrl, &calls);
    assert_eq!(gates.len(), 3);
    assert_eq!(gates[0].as_ref().unwrap(), &Some("Warning: identical call to 'read_file' has failed 1 times".to_string()));
    assert_eq!(gates[1].as_ref().unwrap(), &None);
    match &gates[2] {
        Err(ToolError::Blocked(m)) => assert_eq!(m, "tool 'glob' called 2 consecutive times (limit: 2)"),
        _ => panic!("expected a block"),
    }
}
