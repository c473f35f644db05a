//! Permission modes, pattern rules and the permission decision.
use vstd::prelude::*;

use crate::counts::NameCounts;
use crate::json::{str_field, JsonDoc, JsonValue};
use crate::text::{owned, push_str, str_eq, to_chars};
use crate::tool::Permission;
use crate::wildcard::{glob_matches_chars, wild};

verus! {

/// High-level permission mode for the session.
#[derive(Debug, Clone, Copy, PartialEq, Eq, Structural)]
pub enum PermissionMode {
    /// Ask for dangerous tools, auto-approve safe ones.
    Default,
    /// Auto-allow file edits, ask for everything else that is not Auto.
    AcceptEdits,
    /// Allow everything without prompting.
    BypassPermissions,
    /// Auto-deny instead of prompting the user.
    DontAsk,
    /// Read-only mode: deny all write operations.
    Plan,
    /// Reserved for future classifier-based decisions.
    Auto,
}

impl Default for PermissionMode {
    fn default() -> (r: Self)
        ensures
            r == PermissionMode::Default,
    {
        PermissionMode::Default
    }
}

/// Action to take when a permission rule matches.
#[derive(Debug, Clone, Copy, PartialEq, Eq, Structural)]
pub enum RuleAction {
    /// Silently allow execution.
    Allow,
    /// Deny execution without prompting.
    Deny,
    /// Ask the user for confirmation.
    Ask,
}

/// A single pattern-based permission rule.
#[derive(Debug)]
pub struct PermissionRule {
    /// Glob-style pattern matched against the tool name.
    pub tool_pattern: String,
    /// Optional glob-style pattern matched against the first string argument.
    pub arg_pattern: Option<String>,
    /// What to do when this rule matches.
    pub action: RuleAction,
}

/// Complete permission configuration for a session.
#[derive(Debug)]
pub struct PermissionConfig {
    /// The active permission mode.
    pub mode: PermissionMode,
    /// Rules that always allow certain tool calls.
    pub always_allow: Vec<PermissionRule>,
    /// Rules that always deny certain tool calls.
    pub always_deny: Vec<PermissionRule>,
}

impl Default for PermissionConfig {
    fn default() -> (r: Self)
        ensures
            r.mode == PermissionMode::Default,
            r.always_allow@.len() == 0,
            r.always_deny@.len() == 0,
    {
        PermissionConfig { mode: PermissionMode::Default, always_allow: Vec::new(), always_deny: Vec::new() }
    }
}

/// The reason behind a permission decision.
#[derive(Debug)]
pub enum DecisionReason {
    /// Tool has `Permission::Auto` and was auto-approved.
    AutoApproved,
    /// Bypass mode — all calls allowed.
    ModeBypass,
    /// Plan mode denied a write tool.
    ModePlanDeny,
    /// `DontAsk` mode denied a non-auto tool.
    ModeDontAskDeny,
    /// An `always_allow` rule matched (includes the pattern).
    RuleAllow(String),
    /// An `always_deny` rule matched (includes the pattern).
    RuleDeny(String),
    /// User interactively approved.
    UserApproved,
    /// User interactively denied.
    UserDenied,
    /// Fell through to tool's default permission level.
    ToolDefault,
}

/// Two reasons are equal when they are the same variant with equal patterns.
pub open spec fn same_reason(a: DecisionReason, b: DecisionReason) -> bool {
    match (a, b) {
        (DecisionReason::AutoApproved, DecisionReason::AutoApproved) => true,
        (DecisionReason::ModeBypass, DecisionReason::ModeBypass) => true,
        (DecisionReason::ModePlanDeny, DecisionReason::ModePlanDeny) => true,
        (DecisionReason::ModeDontAskDeny, DecisionReason::ModeDontAskDeny) => true,
        (DecisionReason::RuleAllow(x), DecisionReason::RuleAllow(y)) => x@ == y@,
        (DecisionReason::RuleDeny(x), DecisionReason::RuleDeny(y)) => x@ == y@,
        (DecisionReason::UserApproved, DecisionReason::UserApproved) => true,
        (DecisionReason::UserDenied, DecisionReason::UserDenied) => true,
        (DecisionReason::ToolDefault, DecisionReason::ToolDefault) => true,
        _ => false,
    }
}

impl PartialEq for DecisionReason {
    fn eq(&self, other: &Self) -> (r: bool) {
        match (self, other) {
            (DecisionReason::AutoApproved, DecisionReason::AutoApproved) => true,
            (DecisionReason::ModeBypass, DecisionReason::ModeBypass) => true,
            (DecisionReason::ModePlanDeny, DecisionReason::ModePlanDeny) => true,
            (DecisionReason::ModeDontAskDeny, DecisionReason::ModeDontAskDeny) => true,
            (DecisionReason::RuleAllow(x), DecisionReason::RuleAllow(y)) => str_eq(x.as_str(), y.as_str()),
            (DecisionReason::RuleDeny(x), DecisionReason::RuleDeny(y)) => str_eq(x.as_str(), y.as_str()),
            (DecisionReason::UserApproved, DecisionReason::UserApproved) => true,
            (DecisionReason::UserDenied, DecisionReason::UserDenied) => true,
            (DecisionReason::ToolDefault, DecisionReason::ToolDefault) => true,
            _ => false,
        }
    }
}

impl vstd::std_specs::cmp::PartialEqSpecImpl for DecisionReason {
    open spec fn obeys_eq_spec() -> bool {
        true
    }

    open spec fn eq_spec(&self, other: &Self) -> bool {
        same_reason(*self, *other)
    }
}

/// Result of a permission check, including the reason for the decision.
#[derive(Debug)]
pub struct PermissionDecision {
    /// Whether execution is allowed.
    pub allowed: bool,
    /// Why this decision was made.
    pub reason: DecisionReason,
}

// ---------------------------------------------------------------------------
// Pattern matching
// ---------------------------------------------------------------------------

/// Glob matching of `text` against `pattern`: `*` matches any run of
/// characters, `?` exactly one character, every other character itself.
pub open spec fn glob_matches_spec(pattern: Seq<char>, text: Seq<char>) -> bool {
    wild(pattern, text)
}

/// Simple glob matching supporting `*` (any chars) and `?` (single char).
pub fn glob_matches(pattern: &str, text: &str) -> (r: bool)
    ensures
        r == glob_matches_spec(pattern@, text@),
{
    let p = to_chars(pattern);
    let t = to_chars(text);
    glob_matches_chars(p.as_slice(), t.as_slice())
}

/// The first string among the members, in order.
pub open spec fn first_string_member(members: Seq<(String, JsonValue)>) -> Option<Seq<char>>
    decreases members.len(),
{
    if members.len() == 0 {
        None
    } else {
        match members[0].1 {
            JsonValue::Str(s) => Some(s@),
            _ => first_string_member(members.drop_first()),
        }
    }
}

/// The first string argument: the `command`, `path`, `query` or `action`
/// member, tried in that order, else the first string member.
pub open spec fn first_string_arg_spec(args: JsonValue) -> Option<Seq<char>> {
    if str_field(args, "command"@) is Some {
        str_field(args, "command"@)
    } else if str_field(args, "path"@) is Some {
        str_field(args, "path"@)
    } else if str_field(args, "query"@) is Some {
        str_field(args, "query"@)
    } else if str_field(args, "action"@) is Some {
        str_field(args, "action"@)
    } else {
        match args {
            JsonValue::Object(members) => first_string_member(members@),
            _ => None,
        }
    }
}

/// Extract the first string value from a JSON object (checking common keys).
pub fn first_string_arg(args: &JsonValue) -> (r: Option<&str>)
    ensures
        match r {
            Some(s) => first_string_arg_spec(*args) == Some(s@),
            None => first_string_arg_spec(*args) is None,
        },
{
    if let Some(s) = args.str_field("command") {
        return Some(s);
    }
    if let Some(s) = args.str_field("path") {
        return Some(s);
    }
    if let Some(s) = args.str_field("query") {
        return Some(s);
    }
    if let Some(s) = args.str_field("action") {
        return Some(s);
    }
    match args {
        JsonValue::Object(members) => {
            let mut i: usize = 0;
            assert(members@.skip(0) =~= members@);
            while i < members.len()
                invariant
                    i <= members@.len(),
                    *args == JsonValue::Object(*members),
                    str_field(*args, "command"@) is None,
                    str_field(*args, "path"@) is None,
                    str_field(*args, "query"@) is None,
                    str_field(*args, "action"@) is None,
                    first_string_member(members@) == first_string_member(members@.skip(i as int)),
                decreases members@.len() - i,
            {
                proof {
                    assert(members@.skip(i as int).drop_first() =~= members@.skip(i + 1));
                    assert(members@.skip(i as int)[0] == members@[i as int]);
                }
                match &members[i].1 {
                    JsonValue::Str(s) => {
                        return Some(s.as_str());
                    },
                    _ => {},
                }
                i = i + 1;
            }
            None
        },
        _ => None,
    }
}

/// Whether `rule` matches a call of `tool_name` with `args`.
pub open spec fn rule_matches(tool_name: Seq<char>, args: JsonValue, rule: PermissionRule) -> bool {
    &&& glob_matches_spec(rule.tool_pattern@, tool_name)
    &&& match rule.arg_pattern {
        None => true,
        Some(p) => match first_string_arg_spec(args) {
            Some(s) => glob_matches_spec(p@, s),
            None => false,
        },
    }
}

/// Check whether a rule matches a given tool call.
pub fn matches_rule(tool_name: &str, args: &JsonValue, rule: &PermissionRule) -> (r: bool)
    ensures
        r == rule_matches(tool_name@, *args, *rule),
{
    if !glob_matches(rule.tool_pattern.as_str(), tool_name) {
        return false;
    }
    match &rule.arg_pattern {
        None => true,
        Some(arg_pat) => match first_string_arg(args) {
            Some(s) => glob_matches(arg_pat.as_str(), s),
            None => false,
        },
    }
}

/// Index of the first rule that matches the call.
pub open spec fn first_matching_rule(rules: Seq<PermissionRule>, tool_name: Seq<char>, args: JsonValue) -> Option<int> {
    if exists|i: int| 0 <= i < rules.len() && rule_matches(tool_name, args, #[trigger] rules[i]) {
        Some(
            choose|i: int|
                0 <= i < rules.len() && rule_matches(tool_name, args, #[trigger] rules[i]) && forall|
                    k: int,
                | 0 <= k < i ==> !rule_matches(tool_name, args, #[trigger] rules[k]),
        )
    } else {
        None
    }
}

fn find_matching_rule(rules: &Vec<PermissionRule>, tool_name: &str, args: &JsonValue) -> (r: Option<usize>)
    ensures
        match r {
            Some(i) => first_matching_rule(rules@, tool_name@, *args) == Some(i as int) && i < rules@.len(),
            None => first_matching_rule(rules@, tool_name@, *args) is None,
        },
{
    let mut i: usize = 0;
    while i < rules.len()
        invariant
            i <= rules@.len(),
            forall|k: int| 0 <= k < i ==> !rule_matches(tool_name@, *args, #[trigger] rules@[k]),
        decreases rules@.len() - i,
    {
        if matches_rule(tool_name, args, &rules[i]) {
            proof {
                let j = choose|j: int|
                    0 <= j < rules@.len() && rule_matches(tool_name@, *args, #[trigger] rules@[j])
                        && forall|k: int| 0 <= k < j ==> !rule_matches(tool_name@, *args, #[trigger] rules@[k]);
                if j < i {
                } else if j > i {
                    assert(!rule_matches(tool_name@, *args, rules@[i as int]));
                }
            }
            return Some(i);
        }
        i = i + 1;
    }
    None
}

// ---------------------------------------------------------------------------
// The permission decision
// ---------------------------------------------------------------------------

/// What a tool call's permission check needs to know of the tool.
pub struct PermissionSubject {
    /// The tool's name.
    pub name: String,
    /// Whether the tool is read-only.
    pub read_only: bool,
    /// The tool's own permission level.
    pub permission: Permission,
}

/// The outcome of the rule, mode and tool-level checks.
pub enum PermissionStep {
    /// Decided without asking the user.
    Allowed(PermissionDecision),
    /// Denied; the message of the `PermissionDenied` error.
    Denied(String),
    /// The user must confirm the described action.
    AskUser(String),
}

/// The abstract outcome of a permission check.
pub enum Verdict {
    Allow(DecisionReason),
    Deny(Seq<char>),
    Ask(Seq<char>),
}

pub open spec fn step_verdict(s: PermissionStep) -> Verdict {
    match s {
        PermissionStep::Allowed(d) => Verdict::Allow(d.reason),
        PermissionStep::Denied(m) => Verdict::Deny(m@),
        PermissionStep::AskUser(a) => Verdict::Ask(a@),
    }
}

pub open spec fn plan_deny_message(name: Seq<char>) -> Seq<char> {
    "plan mode: write tool '"@ + name + "' is not allowed"@
}

pub open spec fn ask_action(name: Seq<char>, args_text: Seq<char>) -> Seq<char> {
    "Execute tool '"@ + name + "' with args: "@ + args_text
}

/// The tool's own permission level decides.
pub open spec fn tool_level_verdict(tool: PermissionSubject, args: JsonDoc) -> Verdict {
    match tool.permission {
        Permission::Auto => Verdict::Allow(DecisionReason::AutoApproved),
        _ => Verdict::Ask(ask_action(tool.name@, args.text@)),
    }
}

/// The decision of `check_permission_with_config`, short of asking the user:
/// plan mode first, then deny rules, allow rules, the mode, and the tool's
/// own level.
pub open spec fn permission_verdict(
    tool: PermissionSubject,
    args: JsonDoc,
    plan_mode: bool,
    config: Option<PermissionConfig>,
) -> Verdict {
    if plan_mode && !tool.read_only {
        Verdict::Deny(plan_deny_message(tool.name@))
    } else {
        match config {
            None => tool_level_verdict(tool, args),
            Some(cfg) => match first_matching_rule(cfg.always_deny@, tool.name@, args.value) {
                Some(i) => Verdict::Deny(
                    "denied by rule: tool '"@ + tool.name@ + "' matched deny pattern '"@
                        + cfg.always_deny@[i].tool_pattern@ + "'"@,
                ),
                None => match first_matching_rule(cfg.always_allow@, tool.name@, args.value) {
                    Some(i) => Verdict::Allow(DecisionReason::RuleAllow(cfg.always_allow@[i].tool_pattern)),
                    None => match cfg.mode {
                        PermissionMode::Plan => if tool.read_only {
                            Verdict::Allow(DecisionReason::AutoApproved)
                        } else {
                            Verdict::Deny(plan_deny_message(tool.name@))
                        },
                        PermissionMode::BypassPermissions => Verdict::Allow(DecisionReason::ModeBypass),
                        PermissionMode::DontAsk => if tool.permission == Permission::Auto {
                            Verdict::Allow(DecisionReason::AutoApproved)
                        } else {
                            Verdict::Deny(
                                "dont-ask mode: tool '"@ + tool.name@ + "' requires confirmation"@,
                            )
                        },
                        PermissionMode::AcceptEdits => if tool.name@ == "write_file"@ || tool.name@
                            == "edit_file"@ {
                            Verdict::Allow(DecisionReason::ModeBypass)
                        } else {
                            tool_level_verdict(tool, args)
                        },
                        _ => tool_level_verdict(tool, args),
                    },
                },
            },
        }
    }
}

pub open spec fn same_verdict(a: Verdict, b: Verdict) -> bool {
    match (a, b) {
        (Verdict::Allow(x), Verdict::Allow(y)) => same_reason(x, y),
        (Verdict::Deny(x), Verdict::Deny(y)) => x == y,
        (Verdict::Ask(x), Verdict::Ask(y)) => x == y,
        _ => false,
    }
}

fn plan_denied(name: &str) -> (r: PermissionStep)
    ensures
        step_verdict(r) == Verdict::Deny(plan_deny_message(name@)),
{
    let mut m = String::new();
    push_str(&mut m, "plan mode: write tool '");
    push_str(&mut m, name);
    push_str(&mut m, "' is not allowed");
    assert(m@ =~= plan_deny_message(name@));
    PermissionStep::Denied(m)
}

fn allowed(reason: DecisionReason) -> (r: PermissionStep)
    ensures
        r matches PermissionStep::Allowed(d) && d.allowed && d.reason == reason,
{
    PermissionStep::Allowed(PermissionDecision { allowed: true, reason })
}

fn tool_level(tool: &PermissionSubject, args: &JsonDoc) -> (r: PermissionStep)
    ensures
        same_verdict(step_verdict(r), tool_level_verdict(*tool, *args)),
        r matches PermissionStep::Allowed(d) ==> d.allowed,
{
    match tool.permission {
        Permission::Auto => allowed(DecisionReason::AutoApproved),
        _ => {
            let mut a = String::new();
            push_str(&mut a, "Execute tool '");
            push_str(&mut a, tool.name.as_str());
            push_str(&mut a, "' with args: ");
            push_str(&mut a, args.text.as_str());
            assert(a@ =~= ask_action(tool.name@, args.text@));
            PermissionStep::AskUser(a)
        },
    }
}

/// Check permission with an explicit configuration. Evaluation order: plan
/// mode, `always_deny` rules, `always_allow` rules, the mode, and finally the
/// tool's own permission level, which may require asking the user.
pub fn evaluate_permission(
    tool: &PermissionSubject,
    args: &JsonDoc,
    plan_mode: bool,
    config: Option<&PermissionConfig>,
) -> (r: PermissionStep)
    ensures
        same_verdict(
            step_verdict(r),
            permission_verdict(
                *tool,
                *args,
                plan_mode,
                match config {
                    Some(c) => Some(*c),
                    None => None,
                },
            ),
        ),
        r matches PermissionStep::Allowed(d) ==> d.allowed,
{
    if plan_mode && !tool.read_only {
        return plan_denied(tool.name.as_str());
    }
    let cfg = match config {
        None => {
            return tool_level(tool, args);
        },
        Some(c) => c,
    };
    match find_matching_rule(&cfg.always_deny, tool.name.as_str(), &args.value) {
        Some(i) => {
            let mut m = String::new();
            push_str(&mut m, "denied by rule: tool '");
            push_str(&mut m, tool.name.as_str());
            push_str(&mut m, "' matched deny pattern '");
            push_str(&mut m, cfg.always_deny[i].tool_pattern.as_str());
            push_str(&mut m, "'");
            return PermissionStep::Denied(m);
        },
        None => {},
    }
    match find_matching_rule(&cfg.always_allow, tool.name.as_str(), &args.value) {
        Some(i) => {
            let p = cfg.always_allow[i].tool_pattern.clone();
            return allowed(DecisionReason::RuleAllow(p));
        },
        None => {},
    }
    match cfg.mode {
        PermissionMode::Plan => {
            if tool.read_only {
                allowed(DecisionReason::AutoApproved)
            } else {
                plan_denied(tool.name.as_str())
            }
        },
        PermissionMode::BypassPermissions => allowed(DecisionReason::ModeBypass),
        PermissionMode::DontAsk => {
            if tool.permission == Permission::Auto {
                allowed(DecisionReason::AutoApproved)
            } else {
                let mut m = String::new();
                push_str(&mut m, "dont-ask mode: tool '");
                push_str(&mut m, tool.name.as_str());
                push_str(&mut m, "' requires confirmation");
                PermissionStep::Denied(m)
            }
        },
        PermissionMode::AcceptEdits => {
            if str_eq(tool.name.as_str(), "write_file") || str_eq(tool.name.as_str(), "edit_file") {
                allowed(DecisionReason::ModeBypass)
            } else {
                tool_level(tool, args)
            }
        },
        _ => tool_level(tool, args),
    }
}

/// The answer of the user to a confirmation request, as a decision or the
/// message of the `PermissionDenied` error.
pub fn resolve_confirmation(tool_name: &str, approved: bool) -> (r: Result<PermissionDecision, String>)
    ensures
        approved ==> (r matches Ok(d) && d.allowed && d.reason == DecisionReason::UserApproved),
        !approved ==> (r matches Err(m) && m@ == "user denied execution of '"@ + tool_name@ + "'"@),
{
    if approved {
        Ok(PermissionDecision { allowed: true, reason: DecisionReason::UserApproved })
    } else {
        let mut m = String::new();
        push_str(&mut m, "user denied execution of '");
        push_str(&mut m, tool_name);
        push_str(&mut m, "'");
        Err(m)
    }
}

// ---------------------------------------------------------------------------
// Denial tracking
// ---------------------------------------------------------------------------

/// Tracks consecutive permission denials per tool to auto-skip repeat offenders.
pub struct DenialTracker {
    denied: NameCounts,
    threshold: u32,
}

impl DenialTracker {
    /// Consecutive denials recorded for `tool`.
    pub closed spec fn denials(&self, tool: Seq<char>) -> nat {
        self.denied.count(tool)
    }

    /// The consecutive-denial threshold.
    pub closed spec fn limit(&self) -> u32 {
        self.threshold
    }

    /// Create a new tracker with the given consecutive-denial threshold.
    pub fn new(threshold: u32) -> (r: Self)
        ensures
            r.limit() == threshold,
            forall|t: Seq<char>| r.denials(t) == 0,
    {
        DenialTracker { denied: NameCounts::new(), threshold }
    }

    /// Whether another denial of the tool can be counted.
    pub fn can_record_denial(&self, tool_name: &str) -> (r: bool)
        ensures
            r == (self.denials(tool_name@) < u32::MAX),
    {
        self.denied.get(tool_name) < u32::MAX
    }

    /// Record that a tool was denied permission.
    pub fn record_denial(&mut self, tool_name: &str)
        requires
            old(self).denials(tool_name@) < u32::MAX,
        ensures
            final(self).limit() == old(self).limit(),
            final(self).denials(tool_name@) == old(self).denials(tool_name@) + 1,
            forall|t: Seq<char>| t != tool_name@ ==> final(self).denials(t) == old(self).denials(t),
    {
        self.denied.increment(tool_name);
    }

    /// Record that a tool was allowed (resets its denial count).
    pub fn record_allow(&mut self, tool_name: &str)
        ensures
            final(self).limit() == old(self).limit(),
            final(self).denials(tool_name@) == 0,
            forall|t: Seq<char>| t != tool_name@ ==> final(self).denials(t) == old(self).denials(t),
    {
        self.denied.remove(tool_name);
    }

    /// Returns true if the tool has been denied at least `threshold` times
    /// consecutively.
    pub fn should_skip(&self, tool_name: &str) -> (r: bool)
        ensures
            r == (self.denials(tool_name@) > 0 && self.denials(tool_name@) >= self.limit()),
    {
        let c = self.denied.get(tool_name);
        c > 0 && c >= self.threshold
    }

    /// Reset all denial counts.
    pub fn reset(&mut self)
        ensures
            final(self).limit() == old(self).limit(),
            forall|t: Seq<char>| final(self).denials(t) == 0,
    {
        self.denied.clear();
    }
}

impl Default for DenialTracker {
    fn default() -> (r: Self)
        ensures
            r.limit() == 3,
            forall|t: Seq<char>| r.denials(t) == 0,
    {
        Self::new(3)
    }
}

} // verus!
