use cold_tools::json::JsonValue;
use cold_tools::permission::{
    glob_matches, matches_rule, DecisionReason, DenialTracker, PermissionConfig,
    PermissionDecision, PermissionMode, PermissionRule, RuleAction,
};

fn args(pairs: &[(&str, &str)]) -> JsonValue {
    JsonValue::Object(
        pairs.iter().map(|(k, v)| (k.to_string(), JsonValue::Str(v.to_string()))).collect(),
    )
}

#[test]
fn test_glob_matches_exact() {
    assert!(glob_matches("terminal", "terminal"));
    assert!(!glob_matches("terminal", "Terminal"));
}

#[test]
fn test_glob_matches_star() {
    assert!(glob_matches("term*", "terminal"));
    assert!(glob_matches("*", "anything"));
    assert!(glob_matches("git *", "git push"));
}

#[test]
fn test_glob_matches_question() {
    assert!(glob_matches("t?st", "test"));
    assert!(!glob_matches("t?st", "toast"));
}

#[test]
fn test_matches_rule_tool_only() {
    let rule = PermissionRule {
        tool_pattern: "terminal".into(),
        arg_pattern: None,
        action: RuleAction::Allow,
    };
    assert!(matches_rule("terminal", &args(&[]), &rule));
    assert!(!matches_rule("read_file", &args(&[]), &rule));
}

#[test]
fn test_matches_rule_with_arg_pattern() {
    let rule = PermissionRule {
        tool_pattern: "terminal".into(),
        arg_pattern: Some("git *".into()),
        action: RuleAction::Allow,
    };
    let a = args(&[("command", "git status")]);
    assert!(matches_rule("terminal", &a, &rule));

    let a2 = args(&[("command", "rm -rf /")]);
    assert!(!matches_rule("terminal", &a2, &rule));
}

#[test]
fn test_permission_config_default() {
    let cfg = PermissionConfig::default();
    assert_eq!(cfg.mode, PermissionMode::Default);
    assert!(cfg.always_allow.is_empty());
    assert!(cfg.always_deny.is_empty());
}

#[test]
fn test_denial_tracker() {
    let mut tracker = DenialTracker::new(3);
    assert!(!tracker.should_skip("test_tool"));

    tracker.record_denial("test_tool");
    tracker.record_denial("test_tool");
    assert!(!tracker.should_skip("test_tool"));

    tracker.record_denial("test_tool");
    assert!(tracker.should_skip("test_tool"));

    tracker.record_allow("test_tool");
    assert!(!tracker.should_skip("test_tool"));
}

#[test]
fn test_denial_tracker_reset() {
    let mut tracker = DenialTracker::new(2);
    tracker.record_denial("a");
    tracker.record_denial("a");
    assert!(tracker.should_skip("a"));
    tracker.reset();
    assert!(!tracker.should_skip("a"));
}

#[test]
fn test_decision_reason_variants() {
    let decision = PermissionDecision { allowed: true, reason: DecisionReason::AutoApproved };
    assert!(decision.allowed);
    assert_eq!(decision.reason, DecisionReason::AutoApproved);

    let decision = PermissionDecision {
        allowed: true,
        reason: DecisionReason::RuleAllow("terminal".into()),
    };
    assert!(decision.allowed);
}

#[test]
fn denials_are_counted_per_tool() {
    let mut tracker = DenialTracker::default();
    assert!(tracker.can_record_denial("a"));
    tracker.record_denial("a");
    tracker.record_denial("a");
    tracker.record_denial("b");
    assert!(!tracker.should_skip("a"));
    tracker.record_denial("a");
    assert!(tracker.should_skip("a"));
    assert!(!tracker.should_skip("b"));
    let zero = DenialTracker::new(0);
    assert!(!zero.should_skip("a"));
}

#[test]
fn glob_star_in_text_is_matched_by_pattern_star() {
    assert!(glob_matches("*x", "*ax"));
    assert!(glob_matches("a*", "a*b"));
    assert!(!glob_matches("*x", "*ay"));
}

#[test]
fn glob_question_matches_one_character() {
    assert!(glob_matches("t?st", "tést"));
    assert!(!glob_matches("t??st", "tést"));
    assert!(glob_matches("?", "é"));
}
