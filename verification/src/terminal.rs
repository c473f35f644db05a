//! Shell commands: the sandbox's blocked patterns, what a dangerous command
//! requires, the command line and environment a command runs with, and the
//! report of its output.
use vstd::prelude::*;

use crate::config::CoreToolConfig;
use crate::content::{decode_utf8_lossy, lossy_text};
use crate::error::ToolError;
use crate::json::{str_field, u64_field, JsonValue};
use crate::security::{danger_of, detect_dangerous_command, first_contained, first_hit, str_views, Danger, DangerLevel};
use crate::text::{
    decimal, lowercase, owned, push_char, push_decimal, push_signed_decimal, push_str, signed_decimal,
    str_in, strs_view, to_chars, to_lowercase,
};

verus! {

/// Output cap of the terminal in sandbox mode.
pub const SANDBOX_MAX_OUTPUT: usize = 10_000;

/// Patterns that are always blocked in sandbox mode.
pub open spec fn sandbox_patterns() -> Seq<Seq<char>> {
    seq![
        "rm -rf"@,
        "mkfs"@,
        "dd if="@,
        "format c:"@,
        ":(){ :|:"@,
        "shutdown"@,
        "reboot"@,
        "curl|sh"@,
        "curl | sh"@,
        "curl|bash"@,
        "curl | bash"@,
        "wget|sh"@,
        "wget | sh"@,
        "wget|bash"@,
        "wget | bash"@,
        "> /dev/sda"@,
        "chmod 777"@,
    ]
}

fn sandbox_table() -> (r: Vec<&'static str>)
    ensures
        str_views(r@) == sandbox_patterns(),
{
    let r = vec![
        "rm -rf",
        "mkfs",
        "dd if=",
        "format c:",
        ":(){ :|:",
        "shutdown",
        "reboot",
        "curl|sh",
        "curl | sh",
        "curl|bash",
        "curl | bash",
        "wget|sh",
        "wget | sh",
        "wget|bash",
        "wget | bash",
        "> /dev/sda",
        "chmod 777",
    ];
    assert(str_views(r@) =~= sandbox_patterns());
    r
}

/// The sandbox's verdict on a command: blocked, with the first pattern its
/// lowercase form contains, or let through.
pub open spec fn sandbox_verdict(command: Seq<char>) -> Option<Seq<char>> {
    match first_hit(lowercase(command), sandbox_patterns()) {
        Some(i) => Some("sandbox: command blocked (matched '"@ + sandbox_patterns()[i] + "')"@),
        None => None,
    }
}

/// The message of the permission error when the sandbox blocks a command.
pub fn sandbox_block(command: &str) -> (r: Option<String>)
    ensures
        match sandbox_verdict(command@) {
            Some(m) => r matches Some(s) && s@ == m,
            None => r is None,
        },
{
    let lower = to_lowercase(command);
    let lv = to_chars(lower.as_str());
    let pats = sandbox_table();
    match first_contained(lv.as_slice(), &pats) {
        Some(i) => {
            let mut m = owned("sandbox: command blocked (matched '");
            push_str(&mut m, pats[i]);
            push_str(&mut m, "')");
            proof {
                assert(str_views(pats@)[i as int] == pats@[i as int]@);
            }
            Some(m)
        },
        None => None,
    }
}

/// The arguments of a terminal call.
pub struct TerminalArgs {
    pub command: String,
    pub timeout: Option<u64>,
}

/// Reads the arguments; `command` is required.
pub fn parse_terminal_args(args: &JsonValue) -> (r: Result<TerminalArgs, ToolError>)
    ensures
        r is Err <==> str_field(*args, "command"@) is None,
        r matches Err(e) ==> e matches ToolError::Execution(m) && m@ == "missing required parameter 'command'"@,
        r matches Ok(a) ==> str_field(*args, "command"@) == Some(a.command@) && a.timeout == u64_field(
            *args,
            "timeout"@,
        ),
{
    match args.str_field("command") {
        Some(c) => Ok(TerminalArgs { command: owned(c), timeout: args.u64_field("timeout") }),
        None => Err(ToolError::Execution(owned("missing required parameter 'command'"))),
    }
}

/// What must happen before a command runs, by its danger.
pub enum DangerStep {
    /// Nothing is in the way.
    Proceed,
    /// Ask the user with `prompt`; if refused, fail with `denial`.
    Confirm { prompt: String, denial: ToolError },
    /// Tell the user, then run.
    Notify(String),
}

/// The step a command's danger level calls for: a critical command needs
/// the user's confirmation, a warning is shown to the user.
pub open spec fn danger_step_ok(step: DangerStep, command: Seq<char>) -> bool {
    match danger_of(command) {
        None => step is Proceed,
        Some(Danger::Critical(m)) => step matches DangerStep::Confirm { prompt, denial } && prompt@ == "CRITICAL: "@
            + m + "\nProceed anyway?"@ && (denial matches ToolError::PermissionDenied(d) && d@
            == "critical command blocked: "@ + m),
        Some(Danger::Warning(m)) => step matches DangerStep::Notify(n) && n@ == "Warning: "@ + m,
    }
}

/// Decides what a command's danger level requires before it runs.
pub fn danger_step(command: &str) -> (r: DangerStep)
    ensures
        danger_step_ok(r, command@),
{
    match detect_dangerous_command(command) {
        None => DangerStep::Proceed,
        Some(DangerLevel::Critical(m)) => {
            let mut prompt = owned("CRITICAL: ");
            push_str(&mut prompt, m.as_str());
            push_str(&mut prompt, "\nProceed anyway?");
            let mut d = owned("critical command blocked: ");
            push_str(&mut d, m.as_str());
            DangerStep::Confirm { prompt, denial: ToolError::PermissionDenied(d) }
        },
        Some(DangerLevel::Warning(m)) => {
            let mut n = owned("Warning: ");
            push_str(&mut n, m.as_str());
            DangerStep::Notify(n)
        },
    }
}

/// The timeout of a call: the override when given, else the configured one.
pub fn effective_timeout(timeout: Option<u64>, config: &CoreToolConfig) -> (r: u64)
    ensures
        r == match timeout {
            Some(t) => t,
            None => config.terminal_timeout,
        },
{
    match timeout {
        Some(t) => t,
        None => config.terminal_timeout,
    }
}

/// The output cap of the terminal: smaller in sandbox mode.
pub fn terminal_max_output(sandbox: bool, config: &CoreToolConfig) -> (r: usize)
    ensures
        r == if sandbox {
            SANDBOX_MAX_OUTPUT
        } else {
            config.max_output_bytes
        },
{
    if sandbox {
        SANDBOX_MAX_OUTPUT
    } else {
        config.max_output_bytes
    }
}

// ---------------------------------------------------------------------------
// The command line and environment
// ---------------------------------------------------------------------------

/// `s` inside single quotes for `sh`, each `'` written as `'"'"'`.
pub open spec fn quoted_for_sh(s: Seq<char>) -> Seq<char>
    decreases s.len(),
{
    if s.len() == 0 {
        Seq::empty()
    } else {
        quoted_for_sh(s.drop_last()) + if s.last() == '\'' {
            seq!['\'', '"', '\'', '"', '\'']
        } else {
            seq![s.last()]
        }
    }
}

/// Escape a command string for use inside `sh -c '...'`.
pub fn shell_escape(s: &str) -> (r: String)
    ensures
        r@ == seq!['\''] + quoted_for_sh(s@) + seq!['\''],
{
    let v = to_chars(s);
    let mut out = String::new();
    push_char(&mut out, '\'');
    let mut i: usize = 0;
    while i < v.len()
        invariant
            i <= v@.len(),
            v@ == s@,
            out@ == seq!['\''] + quoted_for_sh(s@.take(i as int)),
        decreases v@.len() - i,
    {
        if v[i] == '\'' {
            push_char(&mut out, '\'');
            push_char(&mut out, '"');
            push_char(&mut out, '\'');
            push_char(&mut out, '"');
            push_char(&mut out, '\'');
        } else {
            push_char(&mut out, v[i]);
        }
        proof {
            assert(s@.take(i + 1).drop_last() =~= s@.take(i as int));
        }
        assert(out@ =~= seq!['\''] + quoted_for_sh(s@.take(i + 1)));
        i = i + 1;
    }
    assert(s@.take(i as int) =~= s@);
    push_char(&mut out, '\'');
    out
}

/// How to start a command: the program and its arguments, whether the
/// inherited environment is cleared, and the variables to set, in order.
pub struct CommandPlan {
    pub program: String,
    pub args: Vec<String>,
    pub clear_env: bool,
    pub env: Vec<(String, String)>,
}

pub open spec fn env_view(e: Seq<(String, String)>) -> Seq<(Seq<char>, Seq<char>)> {
    e.map_values(|p: (String, String)| (p.0@, p.1@))
}

pub open spec fn args_view(a: Seq<String>) -> Seq<Seq<char>> {
    a.map_values(|s: String| s@)
}

/// `r` runs the command as `sh -c command`, with the context's variables
/// added to the inherited environment.
pub open spec fn normal_plan(r: CommandPlan, command: Seq<char>, env: Seq<(String, String)>) -> bool {
    &&& r.program@ == "sh"@
    &&& args_view(r.args@) == seq!["-c"@, command]
    &&& !r.clear_env
    &&& env_view(r.env@) == env_view(env)
}

/// The command as `sh -c command`, with the context's variables added to
/// the inherited environment.
pub fn build_normal_command(command: &str, env: &Vec<(String, String)>) -> (r: CommandPlan)
    ensures
        normal_plan(r, command@, env@),
{
    let args = vec![owned("-c"), owned(command)];
    assert(args_view(args@) =~= seq!["-c"@, command@]);
    let e = copy_env(env);
    CommandPlan { program: owned("sh"), args, clear_env: false, env: e }
}

fn copy_env(env: &Vec<(String, String)>) -> (r: Vec<(String, String)>)
    ensures
        env_view(r@) == env_view(env@),
{
    let mut r: Vec<(String, String)> = Vec::new();
    let mut i: usize = 0;
    while i < env.len()
        invariant
            i <= env@.len(),
            env_view(r@) == env_view(env@.take(i as int)),
        decreases env@.len() - i,
    {
        let ghost before = env_view(r@);
        r.push((owned(env[i].0.as_str()), owned(env[i].1.as_str())));
        assert(env_view(r@) =~= before.push((env@[i as int].0@, env@[i as int].1@)));
        assert(env_view(env@.take(i + 1)) =~= env_view(env@.take(i as int)).push((env@[i as int].0@, env@[i as int].1@)));
        i = i + 1;
    }
    assert(env@.take(i as int) =~= env@);
    r
}

/// Variables never passed to a sandboxed command.
pub open spec fn sensitive_vars() -> Seq<Seq<char>> {
    seq![
        "AWS_ACCESS_KEY_ID"@,
        "AWS_SECRET_ACCESS_KEY"@,
        "AWS_SESSION_TOKEN"@,
        "AZURE_CLIENT_SECRET"@,
        "GCP_SERVICE_ACCOUNT_KEY"@,
        "GITHUB_TOKEN"@,
        "GH_TOKEN"@,
        "GITLAB_TOKEN"@,
        "NPM_TOKEN"@,
        "DOCKER_PASSWORD"@,
        "DATABASE_URL"@,
        "REDIS_URL"@,
        "SECRET_KEY"@,
        "PRIVATE_KEY"@,
        "API_KEY"@,
        "SSH_AUTH_SOCK"@,
    ]
}

/// The context's variables without the sensitive ones, in order.
pub open spec fn safe_env(e: Seq<(Seq<char>, Seq<char>)>) -> Seq<(Seq<char>, Seq<char>)>
    decreases e.len(),
{
    if e.len() == 0 {
        Seq::empty()
    } else if sensitive_vars().contains(e.last().0) {
        safe_env(e.drop_last())
    } else {
        safe_env(e.drop_last()).push(e.last())
    }
}

/// `r` runs the command wrapped as `timeout N sh -c '...'` under `sh -c`,
/// with the inherited environment cleared, a minimal `PATH`, `TERM` and
/// `LANG`, and the context's variables except the sensitive ones.
pub open spec fn sandboxed_plan(r: CommandPlan, command: Seq<char>, timeout_secs: u64, env: Seq<(String, String)>) -> bool {
    &&& r.program@ == "sh"@
    &&& args_view(r.args@) == seq![
        "-c"@,
        "timeout "@ + decimal(timeout_secs as nat) + " sh -c "@ + (seq!['\''] + quoted_for_sh(command) + seq!['\'']),
    ]
    &&& r.clear_env
    &&& env_view(r.env@) == seq![
        ("PATH"@, "/usr/local/bin:/usr/bin:/bin"@),
        ("TERM"@, "dumb"@),
        ("LANG"@, "C.UTF-8"@),
    ] + safe_env(env_view(env))
}

/// The command wrapped as `timeout N sh -c '...'` under `sh -c`, with the
/// inherited environment cleared, a minimal `PATH`, `TERM` and `LANG`, and
/// the context's variables except the sensitive ones.
pub fn build_sandboxed_command(command: &str, timeout_secs: u64, env: &Vec<(String, String)>) -> (r: CommandPlan)
    ensures
        sandboxed_plan(r, command@, timeout_secs, env@),
{
    let mut wrapped = owned("timeout ");
    push_decimal(&mut wrapped, timeout_secs);
    push_str(&mut wrapped, " sh -c ");
    let esc = shell_escape(command);
    push_str(&mut wrapped, esc.as_str());
    let ghost w = wrapped@;
    let args = vec![owned("-c"), wrapped];
    assert(args_view(args@) =~= seq!["-c"@, w]);
    let sensitive: Vec<&str> = vec![
        "AWS_ACCESS_KEY_ID",
        "AWS_SECRET_ACCESS_KEY",
        "AWS_SESSION_TOKEN",
        "AZURE_CLIENT_SECRET",
        "GCP_SERVICE_ACCOUNT_KEY",
        "GITHUB_TOKEN",
        "GH_TOKEN",
        "GITLAB_TOKEN",
        "NPM_TOKEN",
        "DOCKER_PASSWORD",
        "DATABASE_URL",
        "REDIS_URL",
        "SECRET_KEY",
        "PRIVATE_KEY",
        "API_KEY",
        "SSH_AUTH_SOCK",
    ];
    assert(strs_view(sensitive@) =~= sensitive_vars());
    let mut e: Vec<(String, String)> = Vec::new();
    e.push((owned("PATH"), owned("/usr/local/bin:/usr/bin:/bin")));
    e.push((owned("TERM"), owned("dumb")));
    e.push((owned("LANG"), owned("C.UTF-8")));
    let ghost head = env_view(e@);
    assert(head =~= seq![
        ("PATH"@, "/usr/local/bin:/usr/bin:/bin"@),
        ("TERM"@, "dumb"@),
        ("LANG"@, "C.UTF-8"@),
    ]);
    let ghost ev = env_view(env@);
    let mut i: usize = 0;
    assert(ev.take(0) =~= Seq::<(Seq<char>, Seq<char>)>::empty());
    assert(env_view(e@) =~= head + safe_env(ev.take(0)));
    while i < env.len()
        invariant
            i <= env@.len(),
            ev == env_view(env@),
            strs_view(sensitive@) == sensitive_vars(),
            env_view(e@) == head + safe_env(ev.take(i as int)),
        decreases env@.len() - i,
    {
        proof {
            assert(ev.take(i + 1).drop_last() =~= ev.take(i as int));
            assert(ev.take(i + 1).last() == (env@[i as int].0@, env@[i as int].1@));
        }
        if !str_in(&sensitive, env[i].0.as_str()) {
            let ghost before = env_view(e@);
            e.push((owned(env[i].0.as_str()), owned(env[i].1.as_str())));
            assert(env_view(e@) =~= before.push((env@[i as int].0@, env@[i as int].1@)));
        }
        assert(env_view(e@) =~= head + safe_env(ev.take(i + 1)));
        i = i + 1;
    }
    assert(ev.take(i as int) =~= ev);
    CommandPlan { program: owned("sh"), args, clear_env: true, env: e }
}

/// The command plan of a terminal: sandboxed (with the configured timeout
/// as the inner limit) or plain.
pub fn build_command(sandbox: bool, command: &str, config: &CoreToolConfig, env: &Vec<(String, String)>) -> (r: CommandPlan)
    ensures
        sandbox ==> sandboxed_plan(r, command@, config.terminal_timeout, env@),
        !sandbox ==> normal_plan(r, command@, env@),
{
    if sandbox {
        build_sandboxed_command(command, config.terminal_timeout, env)
    } else {
        build_normal_command(command, env)
    }
}

// ---------------------------------------------------------------------------
// The report
// ---------------------------------------------------------------------------

/// The report of a finished command: a `[SANDBOXED] ` prefix in sandbox
/// mode, the exit code, then each non-empty stream under its heading.
pub open spec fn terminal_report(sandbox: bool, exit_code: i32, stdout: Seq<u8>, stderr: Seq<u8>) -> Seq<char> {
    let out = lossy_text(stdout);
    let err = lossy_text(stderr);
    (if sandbox {
        "[SANDBOXED] "@
    } else {
        Seq::empty()
    }) + "Exit code: "@ + signed_decimal(exit_code as int) + "\n"@ + (if out.len() > 0 {
        "--- stdout ---\n"@ + out
    } else {
        Seq::empty()
    }) + (if err.len() > 0 {
        "--- stderr ---\n"@ + err
    } else {
        Seq::empty()
    })
}

/// Formats the output of a finished command.
pub fn format_terminal_output(sandbox: bool, exit_code: i32, stdout: &[u8], stderr: &[u8]) -> (r: String)
    ensures
        r@ == terminal_report(sandbox, exit_code, stdout@, stderr@),
{
    let out = decode_utf8_lossy(stdout);
    let err = decode_utf8_lossy(stderr);
    let mut text = String::new();
    if sandbox {
        push_str(&mut text, "[SANDBOXED] ");
    }
    push_str(&mut text, "Exit code: ");
    push_signed_decimal(&mut text, exit_code as i64);
    push_str(&mut text, "\n");
    let ov = to_chars(out.as_str());
    if ov.len() > 0 {
        push_str(&mut text, "--- stdout ---\n");
        push_str(&mut text, out.as_str());
    }
    let ev = to_chars(err.as_str());
    if ev.len() > 0 {
        push_str(&mut text, "--- stderr ---\n");
        push_str(&mut text, err.as_str());
    }
    proof {
        reveal_strlit("");
    }
    assert(text@ =~= terminal_report(sandbox, exit_code, stdout@, stderr@));
    text
}

} // verus!
