use cold_tools::json::{JsonDoc, JsonValue};
use cold_tools::permission::{
    evaluate_permission, first_string_arg, resolve_confirmation, DecisionReason, PermissionConfig,
    PermissionMode, PermissionRule, PermissionStep, PermissionSubject, RuleAction,
};
use cold_tools::tool::Permission;

fn command_args(cmd: &str) -> JsonDoc {
    JsonDoc {
        value: JsonValue::Object(vec![("command".to_string(), JsonValue::Str(cmd.to_string()))]),
        text: format!("{{\"command\":\"{}\"}}", cmd),
    }
}

fn subject(name: &str, read_only: bool, permission: Permission) -> PermissionSubject {
    PermissionSubject { name: name.to_string(), read_only, permission }
}

fn rule(tool: &str, arg: Option<&str>, action: RuleAction) -> PermissionRule {
    PermissionRule { tool_pattern: tool.to_string(), arg_pattern: arg.map(|a| a.to_string()), action }
}

fn config(mode: PermissionMode, allow: Vec<PermissionRule>, deny: Vec<PermissionRule>) -> PermissionConfig {
    PermissionConfig { mode, always_allow: allow, always_deny: deny }
}

fn denied(step: PermissionStep) -> String {
    match step {
        PermissionStep::Denied(m) => m,
        _ => panic!("expected a denial"),
    }
}

fn reason(step: PermissionStep) -> DecisionReason {
    match step {
        PermissionStep::Allowed(d) => {
            assert!(d.allowed);
            d.reason
        }
        _ => panic!("expected an allowance"),
    }
}

#[test]
fn plan_mode_denies_write_tools_first() {
    let cfg = config(PermissionMode::BypassPermissions, vec![rule("*", None, RuleAction::Allow)], vec![]);
    let step = evaluate_permission(&subject("write_file", false, Permission::Auto), &command_args("x"), true, Some(&cfg));
    assert_eq!(denied(step), "plan mode: write tool 'write_file' is not allowed");
    let step = evaluate_permission(&subject("read_file", true, Permission::Auto), &command_args("x"), true, None);
    assert_eq!(reason(step), DecisionReason::AutoApproved);
}

#[test]
fn deny_rules_come_before_allow_rules() {
    let cfg = config(
        PermissionMode::BypassPermissions,
        vec![rule("terminal", None, RuleAction::Allow)],
        vec![rule("term*", Some("rm *"), RuleAction::Deny)],
    );
    let t = subject("terminal", false, Permission::Ask);
    let step = evaluate_permission(&t, &command_args("rm -rf x"), false, Some(&cfg));
    assert_eq!(denied(step), "denied by rule: tool 'terminal' matched deny pattern 'term*'");
    let step = evaluate_permission(&t, &command_args("ls"), false, Some(&cfg));
    assert_eq!(reason(step), DecisionReason::RuleAllow("terminal".to_string()));
}

#[test]
fn modes_decide_after_rules() {
    let t = subject("terminal", false, Permission::Ask);
    let args = command_args("ls");
    let bypass = config(PermissionMode::BypassPermissions, vec![], vec![]);
    assert_eq!(reason(evaluate_permission(&t, &args, false, Some(&bypass))), DecisionReason::ModeBypass);
    let dont_ask = config(PermissionMode::DontAsk, vec![], vec![]);
    assert_eq!(
        denied(evaluate_permission(&t, &args, false, Some(&dont_ask))),
        "dont-ask mode: tool 'terminal' requires confirmation"
    );
    let plan = config(PermissionMode::Plan, vec![], vec![]);
    assert_eq!(
        denied(evaluate_permission(&t, &args, false, Some(&plan))),
        "plan mode: write tool 'terminal' is not allowed"
    );
    let edits = config(PermissionMode::AcceptEdits, vec![], vec![]);
    let w = subject("edit_file", false, Permission::Ask);
    assert_eq!(reason(evaluate_permission(&w, &args, false, Some(&edits))), DecisionReason::ModeBypass);
    match evaluate_permission(&t, &args, false, Some(&edits)) {
        PermissionStep::AskUser(a) => assert_eq!(a, "Execute tool 'terminal' with args: {\"command\":\"ls\"}"),
        _ => panic!("expected a question"),
    }
}

#[test]
fn auto_tools_are_never_asked_about() {
    let t = subject("think", true, Permission::Auto);
    let args = command_args("x");
    assert_eq!(reason(evaluate_permission(&t, &args, false, None)), DecisionReason::AutoApproved);
    let dont_ask = config(PermissionMode::DontAsk, vec![], vec![]);
    assert_eq!(reason(evaluate_permission(&t, &args, false, Some(&dont_ask))), DecisionReason::AutoApproved);
}

#[test]
fn confirmation_answers() {
    let d = resolve_confirmation("terminal", true).unwrap();
    assert!(d.allowed);
    assert_eq!(d.reason, DecisionReason::UserApproved);
    assert_eq!(resolve_confirmation("terminal", false).err().unwrap(), "user denied execution of 'terminal'");
}

#[test]
fn first_string_argument_prefers_common_keys() {
    let v = JsonValue::Object(vec![
        ("other".to_string(), JsonValue::Str("o".to_string())),
        ("path".to_string(), JsonValue::Str("p".to_string())),
    ]);
    assert_eq!(first_string_arg(&v), Some("p"));
    let v = JsonValue::Object(vec![
        ("n".to_string(), JsonValue::Bool(true)),
        ("other".to_string(), JsonValue::Str("o".to_string())),
    ]);
    assert_eq!(first_string_arg(&v), Some("o"));
    assert_eq!(first_string_arg(&JsonValue::Null), None);
}
