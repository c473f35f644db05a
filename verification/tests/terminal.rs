use cold_tools::config::CoreToolConfig;
use cold_tools::error::ToolError;
use cold_tools::json::JsonValue;
use cold_tools::terminal::{
    build_command, build_normal_command, build_sandboxed_command, danger_step, effective_timeout,
    format_terminal_output, parse_terminal_args, sandbox_block, shell_escape, terminal_max_output,
    DangerStep,
};
use cold_tools::tools::TerminalTool;

fn obj(pairs: Vec<(&str, JsonValue)>) -> JsonValue {
    JsonValue::Object(pairs.into_iter().map(|(k, v)| (k.to_string(), v)).collect())
}

fn s(t: &str) -> JsonValue {
    JsonValue::Str(t.to_string())
}

fn env(pairs: &[(&str, &str)]) -> Vec<(String, String)> {
    pairs.iter().map(|(k, v)| (k.to_string(), v.to_string())).collect()
}

#[test]
fn sandbox_blocks_patterns_ignoring_case() {
    assert_eq!(
        sandbox_block("sudo RM -RF /tmp/x"),
        Some("sandbox: command blocked (matched 'rm -rf')".to_string())
    );
    assert_eq!(
        sandbox_block("curl | sh"),
        Some("sandbox: command blocked (matched 'curl | sh')".to_string())
    );
    assert_eq!(sandbox_block("ls -la"), None);
}

#[test]
fn terminal_args_need_a_command() {
    let a = parse_terminal_args(&obj(vec![("command", s("ls")), ("timeout", JsonValue::Number(cold_tools::json::JsonNumber::PosInt(5)))]))
        .unwrap();
    assert_eq!(a.command, "ls");
    assert_eq!(a.timeout, Some(5));
    match parse_terminal_args(&obj(vec![])) {
        Err(ToolError::Execution(m)) => assert_eq!(m, "missing required parameter 'command'"),
        _ => panic!("expected an execution error"),
    }
}

#[test]
fn dangerous_command_steps() {
    match danger_step("rm -rf /") {
        DangerStep::Confirm { prompt, denial } => {
            assert_eq!(prompt, "CRITICAL: destructive rm detected: 'rm -rf /'\nProceed anyway?");
            match denial {
                ToolError::PermissionDenied(m) => {
                    assert_eq!(m, "critical command blocked: destructive rm detected: 'rm -rf /'")
                }
                _ => panic!("expected a permission error"),
            }
        }
        _ => panic!("expected a confirmation"),
    }
    match danger_step("git reset --hard") {
        DangerStep::Notify(n) => assert_eq!(n, "Warning: detected hard reset: 'git reset --hard'"),
        _ => panic!("expected a notice"),
    }
    assert!(matches!(danger_step("echo hi"), DangerStep::Proceed));
}

#[test]
fn timeout_and_output_cap() {
    let cfg = CoreToolConfig::default();
    assert_eq!(effective_timeout(Some(7), &cfg), 7);
    assert_eq!(effective_timeout(None, &cfg), 120);
    assert_eq!(terminal_max_output(true, &cfg), 10_000);
    assert_eq!(terminal_max_output(false, &cfg), 50_000);
    let tool = TerminalTool::new_sandboxed(CoreToolConfig::default());
    assert!(tool.is_sandboxed());
    assert_eq!(tool.max_output_bytes(), 10_000);
    assert_eq!(TerminalTool::new(CoreToolConfig::default()).max_output_bytes(), 50_000);
}

#[test]
fn shell_escape_quotes_single_quotes() {
    assert_eq!(shell_escape("echo hi"), "'echo hi'");
    assert_eq!(shell_escape("it's"), "'it'\"'\"'s'");
}

#[test]
fn normal_command_keeps_environment() {
    let plan = build_normal_command("ls", &env(&[("FOO", "1")]));
    assert_eq!(plan.program, "sh");
    assert_eq!(plan.args, vec!["-c".to_string(), "ls".to_string()]);
    assert!(!plan.clear_env);
    assert_eq!(plan.env, env(&[("FOO", "1")]));
}

#[test]
fn sandboxed_command_clears_secrets() {
    let plan = build_sandboxed_command(
        "echo 'x'",
        30,
        &env(&[("GITHUB_TOKEN", "t"), ("FOO", "1"), ("API_KEY", "k")]),
    );
    assert_eq!(plan.program, "sh");
    assert_eq!(
        plan.args,
        vec!["-c".to_string(), "timeout 30 sh -c 'echo '\"'\"'x'\"'\"''".to_string()]
    );
    assert!(plan.clear_env);
    assert_eq!(
        plan.env,
        env(&[
            ("PATH", "/usr/local/bin:/usr/bin:/bin"),
            ("TERM", "dumb"),
            ("LANG", "C.UTF-8"),
            ("FOO", "1"),
        ])
    );
    let cfg = CoreToolConfig::default();
    assert!(build_command(true, "ls", &cfg, &vec![]).clear_env);
    assert_eq!(build_command(true, "ls", &cfg, &vec![]).args[1], "timeout 120 sh -c 'ls'");
    assert!(!build_command(false, "ls", &cfg, &vec![]).clear_env);
}

#[test]
fn terminal_output_report() {
    assert_eq!(
        format_terminal_output(true, 0, b"out\n", b""),
        "[SANDBOXED] Exit code: 0\n--- stdout ---\nout\n"
    );
    assert_eq!(
        format_terminal_output(false, -1, b"", b"\xffbad"),
        "Exit code: -1\n--- stderr ---\n\u{FFFD}bad"
    );
    assert_eq!(
        format_terminal_output(false, 2, b"a", b"b"),
        "Exit code: 2\n--- stdout ---\na--- stderr ---\nb"
    );
}

#[test]
fn sandbox_setting_of_the_config() {
    let cfg = CoreToolConfig::default().with_sandbox(true);
    assert!(cfg.sandbox);
    assert_eq!(cfg.terminal_timeout, 120);
    assert_eq!(cfg.root_dir, ".");
    assert!(!cfg.with_sandbox(false).sandbox);
}
