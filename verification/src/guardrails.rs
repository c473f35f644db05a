//! Loop detection over the sequence of tool calls.
use std::collections::HashMap;
use std::hash::{Hash, Hasher};

use vstd::prelude::*;

use crate::counts::NameCounts;
use crate::json::JsonDoc;
use crate::text::{decimal, owned, push_decimal, push_str, str_eq};

verus! {

broadcast use vstd::std_specs::hash::group_hash_axioms;

/// Configuration for guardrail thresholds.
#[derive(Debug, Clone, Copy)]
pub struct GuardrailConfig {
    /// Warn after this many identical (name+args) failures.
    pub exact_failure_warn_after: u32,
    /// Block after this many identical (name+args) failures.
    pub exact_failure_block_after: u32,
    /// Halt after this many consecutive same-tool invocations.
    pub same_tool_halt_after: u32,
    /// Block after this many consecutive no-progress calls.
    pub no_progress_block_after: u32,
}

impl Default for GuardrailConfig {
    fn default() -> (r: Self)
        ensures
            r.exact_failure_warn_after == 2,
            r.exact_failure_block_after == 5,
            r.same_tool_halt_after == 8,
            r.no_progress_block_after == 5,
    {
        GuardrailConfig {
            exact_failure_warn_after: 2,
            exact_failure_block_after: 5,
            same_tool_halt_after: 8,
            no_progress_block_after: 5,
        }
    }
}

/// Decision from the guardrail check.
#[derive(Debug)]
pub enum GuardrailDecision {
    /// Execution is allowed.
    Allow,
    /// Execution is allowed but with a warning.
    Warn(String),
    /// Execution is blocked.
    Block(String),
}

/// A guardrail decision with its message as characters.
pub enum Guard {
    Allow,
    Warn(Seq<char>),
    Block(Seq<char>),
}

pub open spec fn guard_of(d: GuardrailDecision) -> Guard {
    match d {
        GuardrailDecision::Allow => Guard::Allow,
        GuardrailDecision::Warn(m) => Guard::Warn(m@),
        GuardrailDecision::Block(m) => Guard::Block(m@),
    }
}

impl PartialEq for GuardrailDecision {
    fn eq(&self, other: &Self) -> (r: bool) {
        match (self, other) {
            (GuardrailDecision::Allow, GuardrailDecision::Allow) => true,
            (GuardrailDecision::Warn(a), GuardrailDecision::Warn(b)) => str_eq(a.as_str(), b.as_str()),
            (GuardrailDecision::Block(a), GuardrailDecision::Block(b)) => str_eq(a.as_str(), b.as_str()),
            _ => false,
        }
    }
}

impl vstd::std_specs::cmp::PartialEqSpecImpl for GuardrailDecision {
    open spec fn obeys_eq_spec() -> bool {
        true
    }

    open spec fn eq_spec(&self, other: &Self) -> bool {
        guard_of(*self) == guard_of(*other)
    }
}

impl GuardrailDecision {
    /// Whether this decision allows tool execution.
    pub fn allows_execution(&self) -> (r: bool)
        ensures
            r == !(*self is Block),
    {
        match self {
            GuardrailDecision::Block(_) => false,
            _ => true,
        }
    }
}

/// What the signature hash of a call is: `DefaultHasher` fed the tool name
/// and the compact JSON text of its arguments.
pub uninterp spec fn call_signature_of(name: Seq<char>, args_text: Seq<char>) -> u64;

/// Hash of `(name, args)` with a `DefaultHasher` made by
/// `DefaultHasher::new` (`Hash::hash` of both strings, then `finish`). Such
/// hashers all start from the same fixed keys, so equal inputs give equal
/// hashes; the hash function itself is not stated here.
#[verifier::external_body]
fn call_signature(name: &str, args_text: &str) -> (r: u64)
    ensures
        r == call_signature_of(name@, args_text@),
{
    let mut hasher = std::collections::hash_map::DefaultHasher::new();
    name.hash(&mut hasher);
    args_text.hash(&mut hasher);
    hasher.finish()
}

/// The signature under which a call's failures are counted.
pub open spec fn signature(name: Seq<char>, args: JsonDoc) -> u64 {
    call_signature_of(name, args.text@)
}

pub open spec fn halt_message(name: Seq<char>, n: nat, limit: nat) -> Seq<char> {
    "tool '"@ + name + "' called "@ + decimal(n) + " consecutive times (limit: "@ + decimal(limit)
        + ")"@
}

pub open spec fn fail_block_message(name: Seq<char>, n: nat, limit: nat) -> Seq<char> {
    "identical call to '"@ + name + "' failed "@ + decimal(n) + " times (limit: "@ + decimal(limit)
        + ")"@
}

pub open spec fn fail_warn_message(name: Seq<char>, n: nat) -> Seq<char> {
    "identical call to '"@ + name + "' has failed "@ + decimal(n) + " times"@
}

pub open spec fn no_progress_message(name: Seq<char>, n: nat, limit: nat) -> Seq<char> {
    "tool '"@ + name + "' shows no progress after "@ + decimal(n) + " calls (limit: "@ + decimal(
        limit,
    ) + ")"@
}

/// The decision for a call of `name` that is the `streak`-th consecutive
/// call of that tool, whose exact signature failed `failures` times and
/// whose tool shows `stalls` no-progress calls.
pub open spec fn guard_verdict(
    config: GuardrailConfig,
    name: Seq<char>,
    streak: nat,
    failures: nat,
    stalls: nat,
) -> Guard {
    if streak >= config.same_tool_halt_after {
        Guard::Block(halt_message(name, streak, config.same_tool_halt_after as nat))
    } else if failures >= config.exact_failure_block_after {
        Guard::Block(fail_block_message(name, failures, config.exact_failure_block_after as nat))
    } else if failures >= config.exact_failure_warn_after {
        Guard::Warn(fail_warn_message(name, failures))
    } else if stalls >= config.no_progress_block_after {
        Guard::Block(no_progress_message(name, stalls, config.no_progress_block_after as nat))
    } else {
        Guard::Allow
    }
}

/// The last tool after the calls `names`, starting from `last`.
pub open spec fn last_after(last: Option<Seq<char>>, names: Seq<Seq<char>>) -> Option<Seq<char>> {
    if names.len() == 0 {
        last
    } else {
        Some(names.last())
    }
}

/// The consecutive-call streak after the calls `names`, starting from the
/// tool `last` with `streak` consecutive calls.
pub open spec fn streak_after(last: Option<Seq<char>>, streak: nat, names: Seq<Seq<char>>) -> nat
    decreases names.len(),
{
    if names.len() == 0 {
        streak
    } else if last_after(last, names.drop_last()) == Some(names.last()) {
        streak_after(last, streak, names.drop_last()) + 1
    } else {
        1
    }
}

/// Controller that tracks tool call patterns and detects loops.
pub struct GuardrailController {
    config: GuardrailConfig,
    /// signature of (name, args) -> failure count
    failure_counts: HashMap<u64, u32>,
    /// tool name -> consecutive failure count
    tool_failures: NameCounts,
    /// tool name -> consecutive no-progress count
    no_progress: NameCounts,
    /// Last tool name called.
    last_tool: Option<String>,
    /// Consecutive calls to the same tool.
    consecutive_same: u32,
}

impl GuardrailController {
    /// The thresholds in force.
    pub closed spec fn settings(&self) -> GuardrailConfig {
        self.config
    }

    /// Failures recorded for the call signature `sig`.
    pub closed spec fn failures(&self, sig: u64) -> nat {
        if self.failure_counts@.contains_key(sig) {
            self.failure_counts@[sig] as nat
        } else {
            0
        }
    }

    /// Consecutive failures recorded for the tool `name`.
    pub closed spec fn tool_failures(&self, name: Seq<char>) -> nat {
        self.tool_failures.count(name)
    }

    /// No-progress calls recorded for the tool `name`.
    pub closed spec fn stalls(&self, name: Seq<char>) -> nat {
        self.no_progress.count(name)
    }

    /// The tool called last in this turn.
    pub closed spec fn last(&self) -> Option<Seq<char>> {
        match self.last_tool {
            Some(s) => Some(s@),
            None => None,
        }
    }

    /// How many consecutive calls the last tool has had.
    pub closed spec fn streak(&self) -> nat {
        self.consecutive_same as nat
    }

    /// Create a new guardrail controller with the given config.
    pub fn new(config: GuardrailConfig) -> (r: Self)
        ensures
            r.settings() == config,
            forall|s: u64| r.failures(s) == 0,
            forall|n: Seq<char>| r.tool_failures(n) == 0 && r.stalls(n) == 0,
            r.last() is None,
            r.streak() == 0,
    {
        GuardrailController {
            config,
            failure_counts: HashMap::new(),
            tool_failures: NameCounts::new(),
            no_progress: NameCounts::new(),
            last_tool: None,
            consecutive_same: 0,
        }
    }

    fn is_last(&self, name: &str) -> (r: bool)
        ensures
            r == (self.last() == Some(name@)),
    {
        match &self.last_tool {
            Some(t) => str_eq(t.as_str(), name),
            None => false,
        }
    }

    fn failure_count(&self, sig: u64) -> (r: u32)
        ensures
            r == self.failures(sig),
    {
        match self.failure_counts.get(&sig) {
            Some(c) => *c,
            None => 0,
        }
    }

    /// Whether a call of `name` can be counted: when it continues the
    /// streak of the last tool, the streak is below `u32::MAX`.
    pub fn can_call(&self, name: &str) -> (r: bool)
        ensures
            r == (self.last() == Some(name@) ==> self.streak() < u32::MAX),
    {
        !self.is_last(name) || self.consecutive_same < u32::MAX
    }

    /// Whether a failure of the call can be counted: the failures of the
    /// call and of its tool are below `u32::MAX`.
    pub fn can_record_failure(&self, name: &str, args: &JsonDoc) -> (r: bool)
        ensures
            r == (self.failures(signature(name@, *args)) < u32::MAX && self.tool_failures(name@) < u32::MAX),
    {
        let sig = call_signature(name, args.text.as_str());
        self.failure_count(sig) < u32::MAX && self.tool_failures.get(name) < u32::MAX
    }

    /// Check guardrails before a tool call.
    pub fn before_call(&mut self, name: &str, args: &JsonDoc) -> (r: GuardrailDecision)
        requires
            old(self).last() == Some(name@) ==> old(self).streak() < u32::MAX,
        ensures
            final(self).last() == Some(name@),
            final(self).streak() == (if old(self).last() == Some(name@) {
                old(self).streak() + 1
            } else {
                1
            }),
            guard_of(r) == guard_verdict(
                old(self).settings(),
                name@,
                final(self).streak(),
                old(self).failures(signature(name@, *args)),
                old(self).stalls(name@),
            ),
            final(self).settings() == old(self).settings(),
            forall|s: u64| final(self).failures(s) == old(self).failures(s),
            forall|n: Seq<char>|
                final(self).tool_failures(n) == old(self).tool_failures(n) && final(self).stalls(n)
                    == old(self).stalls(n),
    {
        if self.is_last(name) {
            self.consecutive_same = self.consecutive_same + 1;
        } else {
            self.consecutive_same = 1;
        }
        self.last_tool = Some(owned(name));

        if self.consecutive_same >= self.config.same_tool_halt_after {
            let mut m = String::new();
            push_str(&mut m, "tool '");
            push_str(&mut m, name);
            push_str(&mut m, "' called ");
            push_decimal(&mut m, self.consecutive_same as u64);
            push_str(&mut m, " consecutive times (limit: ");
            push_decimal(&mut m, self.config.same_tool_halt_after as u64);
            push_str(&mut m, ")");
            return GuardrailDecision::Block(m);
        }

        let sig = call_signature(name, args.text.as_str());
        let count = self.failure_count(sig);

        if count >= self.config.exact_failure_block_after {
            let mut m = String::new();
            push_str(&mut m, "identical call to '");
            push_str(&mut m, name);
            push_str(&mut m, "' failed ");
            push_decimal(&mut m, count as u64);
            push_str(&mut m, " times (limit: ");
            push_decimal(&mut m, self.config.exact_failure_block_after as u64);
            push_str(&mut m, ")");
            return GuardrailDecision::Block(m);
        }

        if count >= self.config.exact_failure_warn_after {
            let mut m = String::new();
            push_str(&mut m, "identical call to '");
            push_str(&mut m, name);
            push_str(&mut m, "' has failed ");
            push_decimal(&mut m, count as u64);
            push_str(&mut m, " times");
            return GuardrailDecision::Warn(m);
        }

        let np = self.no_progress.get(name);
        if np >= self.config.no_progress_block_after {
            let mut m = String::new();
            push_str(&mut m, "tool '");
            push_str(&mut m, name);
            push_str(&mut m, "' shows no progress after ");
            push_decimal(&mut m, np as u64);
            push_str(&mut m, " calls (limit: ");
            push_decimal(&mut m, self.config.no_progress_block_after as u64);
            push_str(&mut m, ")");
            return GuardrailDecision::Block(m);
        }

        GuardrailDecision::Allow
    }

    /// Update guardrails after a tool call completes: a success clears the
    /// failure counts of the call and of its tool, a failure adds one to both.
    pub fn after_call(&mut self, name: &str, args: &JsonDoc, succeeded: bool)
        requires
            !succeeded ==> old(self).failures(signature(name@, *args)) < u32::MAX,
            !succeeded ==> old(self).tool_failures(name@) < u32::MAX,
        ensures
            final(self).settings() == old(self).settings(),
            final(self).last() == old(self).last(),
            final(self).streak() == old(self).streak(),
            succeeded ==> final(self).failures(signature(name@, *args)) == 0,
            succeeded ==> final(self).tool_failures(name@) == 0,
            !succeeded ==> final(self).failures(signature(name@, *args)) == old(self).failures(
                signature(name@, *args),
            ) + 1,
            !succeeded ==> final(self).tool_failures(name@) == old(self).tool_failures(name@) + 1,
            forall|s: u64|
                s != signature(name@, *args) ==> final(self).failures(s) == old(self).failures(s),
            forall|n: Seq<char>|
                n != name@ ==> final(self).tool_failures(n) == old(self).tool_failures(n),
            forall|n: Seq<char>| final(self).stalls(n) == old(self).stalls(n),
    {
        let sig = call_signature(name, args.text.as_str());
        if succeeded {
            self.failure_counts.remove(&sig);
            self.tool_failures.remove(name);
        } else {
            let c = self.failure_count(sig);
            self.failure_counts.insert(sig, c + 1);
            self.tool_failures.increment(name);
        }
    }

    /// Reset guardrails for a new conversational turn.
    pub fn reset_for_turn(&mut self)
        ensures
            final(self).settings() == old(self).settings(),
            final(self).last() is None,
            final(self).streak() == 0,
            forall|n: Seq<char>| final(self).stalls(n) == 0,
            forall|s: u64| final(self).failures(s) == old(self).failures(s),
            forall|n: Seq<char>| final(self).tool_failures(n) == old(self).tool_failures(n),
    {
        self.last_tool = None;
        self.consecutive_same = 0;
        self.no_progress.clear();
    }
}

} // verus!
