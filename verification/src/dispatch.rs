//! The decisions of tool dispatch: what a guardrail verdict means for a
//! call, how a finished or timed-out call settles, the output cap, and how
//! a concurrent batch reports its calls.
use vstd::prelude::*;

use crate::error::ToolError;
use crate::guardrails::{
    guard_of, guard_verdict, last_after, signature, streak_after, Guard, GuardrailController,
    GuardrailDecision,
};
use crate::json::JsonDoc;
use crate::limits::OutputLimits;
use crate::text::{owned, push_str};
use crate::tool::ToolResult;

verus! {

/// What a guardrail verdict means for the call: a block is an error, a
/// warning is a notice for the user (`Warning: ...`), an allow is silent.
pub open spec fn gate_of(g: Guard, r: Result<Option<String>, ToolError>) -> bool {
    match g {
        Guard::Block(m) => r matches Err(ToolError::Blocked(e)) && e@ == m,
        Guard::Warn(m) => r matches Ok(Some(n)) && n@ == "Warning: "@ + m,
        Guard::Allow => r matches Ok(None),
    }
}

/// What a guardrail decision means for the call.
pub fn guard_gate(decision: &GuardrailDecision) -> (r: Result<Option<String>, ToolError>)
    ensures
        gate_of(guard_of(*decision), r),
{
    match decision {
        GuardrailDecision::Block(m) => Err(ToolError::Blocked(owned(m.as_str()))),
        GuardrailDecision::Warn(m) => {
            let mut n = owned("Warning: ");
            push_str(&mut n, m.as_str());
            Ok(Some(n))
        },
        GuardrailDecision::Allow => Ok(None),
    }
}

/// The names of a batch's calls.
pub open spec fn call_names(calls: Seq<(String, JsonDoc)>) -> Seq<Seq<char>> {
    calls.map_values(|c: (String, JsonDoc)| c.0@)
}

/// How the guardrails decide on call `i` of a batch: with the streak the
/// earlier calls leave, and the failures and stalls counted before the batch.
pub open spec fn batch_gate(ctrl: GuardrailController, calls: Seq<(String, JsonDoc)>, i: int) -> Guard {
    let names = call_names(calls);
    guard_verdict(
        ctrl.settings(),
        names[i],
        streak_after(ctrl.last(), ctrl.streak(), names.take(i + 1)),
        ctrl.failures(signature(names[i], calls[i].1)),
        ctrl.stalls(names[i]),
    )
}

/// Checks the guardrails for the calls of a concurrent batch, in order,
/// and gives each call's gate. It stops before a call that would take its
/// tool's streak past `u32::MAX`; the gates of the calls checked are
/// returned.
pub fn precheck_batch(ctrl: &mut GuardrailController, calls: &Vec<(String, JsonDoc)>) -> (r: Vec<Result<Option<String>, ToolError>>)
    ensures
        r@.len() <= calls@.len(),
        forall|i: int| 0 <= i < r@.len() ==> gate_of(batch_gate(*old(ctrl), calls@, i), #[trigger] r@[i]),
        r@.len() < calls@.len() ==> ({
            let names = call_names(calls@);
            let done = names.take(r@.len() as int);
            last_after(old(ctrl).last(), done) == Some(names[r@.len() as int])
                && streak_after(old(ctrl).last(), old(ctrl).streak(), done) >= u32::MAX
        }),
        final(ctrl).settings() == old(ctrl).settings(),
        final(ctrl).last() == last_after(old(ctrl).last(), call_names(calls@).take(r@.len() as int)),
        final(ctrl).streak() == streak_after(old(ctrl).last(), old(ctrl).streak(), call_names(calls@).take(r@.len() as int)),
        forall|s: u64| final(ctrl).failures(s) == old(ctrl).failures(s),
        forall|n: Seq<char>|
            final(ctrl).tool_failures(n) == old(ctrl).tool_failures(n) && final(ctrl).stalls(n) == old(ctrl).stalls(n),
{
    let ghost names = call_names(calls@);
    let mut out: Vec<Result<Option<String>, ToolError>> = Vec::new();
    let mut i: usize = 0;
    while i < calls.len()
        invariant
            i <= calls@.len(),
            out@.len() == i,
            names == call_names(calls@),
            forall|k: int| 0 <= k < i ==> gate_of(batch_gate(*old(ctrl), calls@, k), #[trigger] out@[k]),
            ctrl.settings() == old(ctrl).settings(),
            ctrl.last() == last_after(old(ctrl).last(), names.take(i as int)),
            ctrl.streak() == streak_after(old(ctrl).last(), old(ctrl).streak(), names.take(i as int)),
            forall|s: u64| ctrl.failures(s) == old(ctrl).failures(s),
            forall|n: Seq<char>| ctrl.tool_failures(n) == old(ctrl).tool_failures(n) && ctrl.stalls(n) == old(ctrl).stalls(n),
        decreases calls@.len() - i,
    {
        let name = calls[i].0.as_str();
        proof {
            assert(names[i as int] == name@);
            assert(names.take(i + 1).drop_last() =~= names.take(i as int));
            assert(names.take(i + 1).last() == names[i as int]);
        }
        if !ctrl.can_call(name) {
            return out;
        }
        let decision = ctrl.before_call(name, &calls[i].1);
        let gate = guard_gate(&decision);
        out.push(gate);
        i = i + 1;
    }
    out
}

/// How a tool's execution ended.
pub enum CallOutcome {
    /// The tool returned within its timeout.
    Finished(Result<ToolResult, ToolError>),
    /// The timeout elapsed first.
    TimedOut,
}

/// Whether the guardrails record the call as a success.
pub open spec fn outcome_succeeded(o: CallOutcome) -> bool {
    o matches CallOutcome::Finished(Ok(_))
}

/// The result of a call once it has run: what the tool returned, or a
/// timeout error naming the tool and its timeout. The flag says whether it
/// succeeded, for the guardrails.
pub fn settle_call(name: &str, outcome: CallOutcome, timeout_secs: u64) -> (r: (bool, Result<ToolResult, ToolError>))
    ensures
        r.0 == outcome_succeeded(outcome),
        match outcome {
            CallOutcome::Finished(res) => r.1 == res,
            CallOutcome::TimedOut => r.1 matches Err(ToolError::Timeout { tool, timeout_secs: t }) && tool@
                == name@ && t == timeout_secs,
        },
{
    match outcome {
        CallOutcome::Finished(res) => {
            let ok = match &res {
                Ok(_) => true,
                Err(_) => false,
            };
            (ok, res)
        },
        CallOutcome::TimedOut => (false, Err(ToolError::Timeout { tool: owned(name), timeout_secs })),
    }
}

/// The output cap of a call: the tool's own cap, lowered to the limits'.
pub fn output_cap(tool_max: usize, limits: &OutputLimits) -> (r: usize)
    ensures
        r == if tool_max <= limits.max_bytes {
            tool_max
        } else {
            limits.max_bytes
        },
{
    if tool_max <= limits.max_bytes {
        tool_max
    } else {
        limits.max_bytes
    }
}

/// A concurrent task's result aborts its siblings: any error, or an error
/// result that is not recoverable.
pub open spec fn aborts_siblings(res: Result<ToolResult, ToolError>) -> bool {
    match res {
        Err(_) => true,
        Ok(ToolResult::Error { recoverable, .. }) => !recoverable,
        Ok(_) => false,
    }
}

/// Whether a finished concurrent task signals its siblings to abort.
pub fn signals_abort(res: &Result<ToolResult, ToolError>) -> (r: bool)
    ensures
        r == aborts_siblings(*res),
{
    match res {
        Err(_) => true,
        Ok(ToolResult::Error { recoverable, .. }) => !*recoverable,
        Ok(_) => false,
    }
}

/// The error of a batched call the guardrails blocked.
pub fn blocked_in_batch() -> (e: ToolError)
    ensures
        e matches ToolError::Blocked(m) && m@ == "blocked by guardrails"@,
{
    ToolError::Blocked(owned("blocked by guardrails"))
}

/// The error of a batched call that did not start because a sibling failed.
pub fn sibling_aborted() -> (e: ToolError)
    ensures
        e matches ToolError::Execution(m) && m@ == "aborted: sibling task failed"@,
{
    ToolError::Execution(owned("aborted: sibling task failed"))
}

/// The error of a call to a registered tool that is not available.
pub fn unavailable_tool(name: &str) -> (e: ToolError)
    ensures
        e matches ToolError::NotFound(m) && m@ == "tool '"@ + name@ + "' exists but is not available"@,
{
    let mut m = owned("tool '");
    push_str(&mut m, name);
    push_str(&mut m, "' exists but is not available");
    ToolError::NotFound(m)
}

/// The error of a batched call whose task panicked.
pub fn task_panicked(detail: &str) -> (e: ToolError)
    ensures
        e matches ToolError::Execution(m) && m@ == "task panicked: "@ + detail@,
{
    let mut m = owned("task panicked: ");
    push_str(&mut m, detail);
    ToolError::Execution(m)
}

/// The first slot of a batch still without a result.
pub fn first_missing(slots: &Vec<Option<Result<ToolResult, ToolError>>>) -> (r: Option<usize>)
    ensures
        match r {
            Some(i) => i < slots@.len() && slots@[i as int] is None && forall|k: int|
                0 <= k < i ==> slots@[k] is Some,
            None => forall|k: int| 0 <= k < slots@.len() ==> slots@[k] is Some,
        },
{
    let mut i: usize = 0;
    while i < slots.len()
        invariant
            i <= slots@.len(),
            forall|k: int| 0 <= k < i ==> slots@[k] is Some,
        decreases slots@.len() - i,
    {
        if slots[i].is_none() {
            return Some(i);
        }
        i = i + 1;
    }
    None
}

/// The result reported for one slot of a batch.
pub open spec fn slot_result(slot: Option<Result<ToolResult, ToolError>>, r: Result<ToolResult, ToolError>) -> bool {
    match slot {
        Some(x) => r == x,
        None => r matches Err(ToolError::Execution(m)) && m@ == "result missing"@,
    }
}

/// The results of a batch in call order; a slot left without a result is
/// reported as `result missing`.
pub fn collect_results(slots: Vec<Option<Result<ToolResult, ToolError>>>) -> (r: Vec<Result<ToolResult, ToolError>>)
    ensures
        r@.len() == slots@.len(),
        forall|i: int| 0 <= i < slots@.len() ==> #[trigger] slot_result(slots@[i], r@[i]),
{
    let ghost orig = slots@;
    let mut out: Vec<Result<ToolResult, ToolError>> = Vec::new();
    let mut rest = slots;
    while rest.len() > 0
        invariant
            rest@ == orig.skip(out@.len() as int),
            out@.len() <= orig.len(),
            forall|i: int| 0 <= i < out@.len() ==> #[trigger] slot_result(orig[i], out@[i]),
        decreases rest@.len(),
    {
        let ghost i = out@.len() as int;
        let slot = rest.remove(0);
        proof {
            assert(slot == orig[i]);
            assert(rest@ =~= orig.skip(i + 1));
        }
        match slot {
            Some(x) => out.push(x),
            None => out.push(Err(ToolError::Execution(owned("result missing")))),
        }
    }
    assert(out@.len() == orig.len()) by {
        if out@.len() < orig.len() {
            assert(orig.skip(out@.len() as int).len() > 0);
        }
    }
    out
}

} // verus!
