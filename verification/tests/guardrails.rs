use cold_tools::guardrails::{GuardrailConfig, GuardrailController, GuardrailDecision};
use cold_tools::json::{JsonDoc, JsonValue};

fn doc(pairs: &[(&str, &str)]) -> JsonDoc {
    let mut text = String::from("{");
    let mut members = Vec::new();
    for (i, (k, v)) in pairs.iter().enumerate() {
        if i > 0 {
            text.push(',');
        }
        text.push_str(&format!("\"{}\":\"{}\"", k, v));
        members.push((k.to_string(), JsonValue::Str(v.to_string())));
    }
    text.push('}');
    JsonDoc { value: JsonValue::Object(members), text }
}

#[test]
fn test_allows_first_call() {
    let mut ctrl = GuardrailController::new(GuardrailConfig::default());
    let decision = ctrl.before_call("read_file", &doc(&[("path", "test.rs")]));
    assert_eq!(decision, GuardrailDecision::Allow);
}

#[test]
fn test_blocks_after_repeated_failures() {
    let mut ctrl = GuardrailController::new(GuardrailConfig {
        exact_failure_block_after: 3,
        exact_failure_warn_after: 1,
        ..GuardrailConfig::default()
    });

    let args = doc(&[("path", "missing.rs")]);

    ctrl.before_call("read_file", &args);
    ctrl.after_call("read_file", &args, false);

    let d = ctrl.before_call("read_file", &args);
    assert!(matches!(d, GuardrailDecision::Warn(_)));
    ctrl.after_call("read_file", &args, false);

    let d = ctrl.before_call("read_file", &args);
    assert!(matches!(d, GuardrailDecision::Warn(_)));
    ctrl.after_call("read_file", &args, false);

    let d = ctrl.before_call("read_file", &args);
    assert!(matches!(d, GuardrailDecision::Block(_)));
}

#[test]
fn test_consecutive_same_tool_halt() {
    let mut ctrl = GuardrailController::new(GuardrailConfig {
        same_tool_halt_after: 3,
        ..GuardrailConfig::default()
    });

    let args = doc(&[]);
    ctrl.before_call("think", &args);
    ctrl.before_call("think", &args);
    let d = ctrl.before_call("think", &args);
    assert!(matches!(d, GuardrailDecision::Block(_)));
}

#[test]
fn test_reset_for_turn() {
    let mut ctrl = GuardrailController::new(GuardrailConfig {
        same_tool_halt_after: 3,
        ..GuardrailConfig::default()
    });

    let args = doc(&[]);
    ctrl.before_call("think", &args);
    ctrl.before_call("think", &args);
    ctrl.reset_for_turn();

    let d = ctrl.before_call("think", &args);
    assert_eq!(d, GuardrailDecision::Allow);
}
